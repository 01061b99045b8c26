//! The store, its file, its metadata and its bitmap.
use minios::error::MiniOsError;
use minios::image::{can_carry_out, carry_out};
use minios::metadata::{MetadataEntry, META_FLAG_DELETED};
use minios::storage::{blocks_needed, is_creatable, FileOp, ObjectStorage};
use minios::superblock::{SuperBlock, SUPER_BLOCK_SIZE};

const BLOCK: u32 = 512;
const TOTAL: u64 = 40;
const OBJECTS: u64 = 8;

fn id(n: u8) -> [u8; 16] {
    [n; 16]
}

fn text_of(n: u8) -> String {
    uuid::Uuid::from_bytes(id(n)).to_string()
}

struct Disk {
    image: Vec<u8>,
    store: ObjectStorage,
}

impl Disk {
    fn new() -> Disk {
        Disk::shaped(BLOCK, TOTAL, OBJECTS)
    }

    fn shaped(block: u32, total: u64, objects: u64) -> Disk {
        let mut writes = Vec::new();
        let store = ObjectStorage::open_at(&[], block, total, objects, 1_700_000_000, &mut writes)
            .unwrap();
        let mut image = Vec::new();
        assert!(can_carry_out(&writes));
        carry_out(&mut image, &writes);
        Disk { image, store }
    }

    fn put(&mut self, n: u8, name: &str, data: &[u8]) -> Result<String, MiniOsError> {
        let mut writes = Vec::new();
        let r = self.store.put_at(
            &self.image,
            name,
            data,
            "text/plain",
            "{}",
            id(n),
            1_700_000_000,
            &mut writes,
        );
        carry_out(&mut self.image, &writes);
        r.map(|info| info.uuid)
    }

    fn get(&self, key: &str) -> Result<Vec<u8>, MiniOsError> {
        self.store.get(&self.image, key).map(|(_, data)| data)
    }

    fn delete(&mut self, key: &str) -> Result<(), MiniOsError> {
        let mut writes = Vec::new();
        let r = self.store.delete(&self.image, key, &mut writes);
        carry_out(&mut self.image, &writes);
        r
    }

    fn names(&self) -> Vec<String> {
        self.store.list(&self.image).unwrap().into_iter().map(|o| o.name).collect()
    }
}

#[test]
fn a_new_store_is_sound_and_empty() {
    let d = Disk::new();
    assert!(d.store.is_sound(&d.image));
    assert!(d.names().is_empty());
    let status = d.store.status();
    assert_eq!(status.total_blocks, TOTAL);
    assert_eq!(status.block_size, BLOCK);
    assert_eq!(status.object_count, 0);
    assert_eq!(status.max_objects, OBJECTS);
    assert_eq!(status.total_capacity, TOTAL * BLOCK as u64);
    assert_eq!(status.used_blocks + status.free_blocks, status.total_blocks);
    assert_eq!(status.used_capacity, status.used_blocks * BLOCK as u64);
    assert_eq!(status.free_capacity, status.free_blocks * BLOCK as u64);
}

#[test]
fn what_was_put_is_got() {
    let mut d = Disk::new();
    let data: Vec<u8> = (0..2000u32).map(|i| i as u8).collect();
    let uuid = d.put(7, "photo", &data).unwrap();
    assert_eq!(uuid, text_of(7));
    assert_eq!(d.get("photo").unwrap(), data);
    assert_eq!(d.get(&uuid).unwrap(), data);
    let info = d.store.find_info(&d.image, "photo").unwrap();
    assert_eq!(info.size, 2000);
    assert_eq!(info.block_count, 4);
    assert_eq!(info.content_type, "text/plain");
    assert_eq!(info.tags, "{}");
    assert_eq!(info.created_at, "2023-11-14 22:13:20");
}

#[test]
fn an_identifier_is_read_in_upper_case_too() {
    let mut d = Disk::new();
    let mut bytes = id(0);
    bytes[0] = 0xab;
    let mut writes = Vec::new();
    d.store
        .put_at(&d.image, "x", b"hello", "t", "{}", bytes, 0, &mut writes)
        .unwrap();
    carry_out(&mut d.image, &writes);
    let key = uuid::Uuid::from_bytes(bytes).to_string().to_uppercase();
    assert_ne!(key, key.to_lowercase());
    assert_eq!(d.get(&key).unwrap(), b"hello");
    assert_eq!(d.store.find_info(&d.image, "x").unwrap().created_at, "1970-01-01 00:00:00");
}

#[test]
fn an_empty_object_takes_one_block_or_none() {
    let mut d = Disk::new();
    let before = d.store.status().free_blocks;
    d.put(1, "empty", &[]).unwrap();
    let after = d.store.status().free_blocks;
    assert_eq!(before - after, blocks_needed(0, BLOCK));
    assert_eq!(d.get("empty").unwrap(), Vec::<u8>::new());
}

#[test]
fn other_objects_stay_as_they_are() {
    let mut d = Disk::new();
    d.put(1, "one", b"first").unwrap();
    d.put(2, "two", &[2u8; 100]).unwrap();
    d.put(3, "three", &[3u8; 64]).unwrap();
    assert_eq!(d.get("one").unwrap(), b"first");
    assert_eq!(d.get("two").unwrap(), vec![2u8; 100]);
    d.delete("two").unwrap();
    assert_eq!(d.get("one").unwrap(), b"first");
    assert_eq!(d.get("three").unwrap(), vec![3u8; 64]);
    assert_eq!(d.names(), vec!["one".to_string(), "three".to_string()]);
    assert!(d.store.is_sound(&d.image));
}

#[test]
fn a_name_is_taken_once() {
    let mut d = Disk::new();
    d.put(1, "a", b"1").unwrap();
    assert!(matches!(d.put(2, "a", b"2"), Err(MiniOsError::AlreadyExists(_))));
    assert_eq!(d.get("a").unwrap(), b"1");
    d.delete("a").unwrap();
    d.put(3, "a", b"3").unwrap();
    assert_eq!(d.get("a").unwrap(), b"3");
}

#[test]
fn a_deleted_object_is_gone() {
    let mut d = Disk::new();
    let before = d.store.status();
    let uuid = d.put(9, "gone", &[1u8; 130]).unwrap();
    d.delete("gone").unwrap();
    let after = d.store.status();
    assert_eq!(before.free_blocks, after.free_blocks);
    assert_eq!(before.object_count, after.object_count);
    assert!(matches!(d.get("gone"), Err(MiniOsError::NotFound(_))));
    assert!(matches!(d.get(&uuid), Err(MiniOsError::NotFound(_))));
    match d.delete("gone") {
        Err(MiniOsError::NotFound(m)) => assert_eq!(m, "未找到对象：gone"),
        other => panic!("{:?}", other),
    }
    match d.store.find_info(&d.image, "gone") {
        Err(MiniOsError::NotFound(m)) => assert_eq!(m, "gone"),
        other => panic!("{:?}", other),
    }
}

#[test]
fn a_full_store_refuses() {
    let mut d = Disk::new();
    let free = d.store.status().free_blocks as usize;
    let r = d.put(1, "big", &vec![0u8; (free + 1) * BLOCK as usize]);
    assert!(matches!(r, Err(MiniOsError::NoSpace)), "{:?}", r);
    assert!(d.put(2, "small", b"x").is_ok());
}

#[test]
fn a_store_is_found_again_in_its_file() {
    let mut d = Disk::new();
    d.put(1, "kept", b"still here").unwrap();
    let mut writes = Vec::new();
    let again =
        ObjectStorage::open_at(&d.image, BLOCK, TOTAL, OBJECTS, 5, &mut writes).unwrap();
    assert!(writes.is_empty());
    let (_, data) = again.get(&d.image, "kept").unwrap();
    assert_eq!(data, b"still here");
    assert_eq!(again.status().object_count, 1);
    assert_eq!(again.status().free_blocks, d.store.status().free_blocks);
}

#[test]
fn what_is_no_store_is_not_opened() {
    let mut writes = Vec::new();
    let r = ObjectStorage::open(&[7u8; 5000], BLOCK, TOTAL, OBJECTS, &mut writes);
    assert!(r.is_err());
    let r = ObjectStorage::open(&[7u8; 10], BLOCK, TOTAL, OBJECTS, &mut writes);
    match r {
        Err(e) => assert!(e.message().contains("failed to fill whole buffer"), "{}", e.message()),
        Ok(_) => panic!("opened"),
    }
}

#[test]
fn a_store_of_another_block_size_is_not_opened() {
    let d = Disk::new();
    let mut writes = Vec::new();
    let r = ObjectStorage::open(&d.image, BLOCK * 2, TOTAL, OBJECTS, &mut writes);
    assert!(r.is_err());
}

#[test]
fn scattered_blocks_are_used_where_no_run_is_left() {
    let mut d = Disk::new();
    let free = d.store.status().free_blocks;
    let mut n = 0u8;
    while d.store.status().free_blocks > 0 {
        if d.put(n, &format!("o{}", n), &[n; 512]).is_err() {
            break;
        }
        n += 1;
    }
    let held = free - d.store.status().free_blocks;
    assert!(held >= 4);
    d.delete("o0").unwrap();
    d.delete("o2").unwrap();
    let r = d.put(200, "wide", &[5u8; 1024]);
    match r {
        Ok(_) => assert_eq!(d.get("wide").unwrap(), vec![5u8; 1024]),
        Err(e) => assert!(
            matches!(e, MiniOsError::NoSpace),
            "{:?}",
            e
        ),
    }
    assert_eq!(d.get("o1").unwrap(), vec![1u8; 512]);
}

#[test]
fn the_superblock_is_read_back() {
    let sb = SuperBlock::created(4096, 1000, 256_000, 99);
    let bytes = sb.to_bytes();
    assert_eq!(bytes.len() as u64, SUPER_BLOCK_SIZE);
    let again = SuperBlock::from_bytes(&bytes).unwrap();
    assert_eq!(again.total_blocks, 1000);
    assert_eq!(again.block_size, 4096);
    assert_eq!(again.max_metadata_area_size, 256_000);
    assert_eq!(again.to_bytes(), bytes);
    let now = SuperBlock::new(4096, 1000, 256_000);
    assert_eq!(now.total_blocks, 1000);
}

#[test]
fn an_entry_is_read_back() {
    let e = MetadataEntry::identified(
        id(3),
        -5,
        "name",
        1234,
        "image/png",
        "{\"k\":\"v\"}",
        vec![4, 5, 900],
    );
    let bytes = e.to_bytes();
    assert_eq!(bytes.len() as u32, e.calculate_entry_size());
    assert_eq!(bytes.len(), 47 + 4 + 9 + 9 + 24);
    let (again, len) = MetadataEntry::from_bytes(&bytes).unwrap();
    assert_eq!(len as usize, bytes.len());
    assert_eq!(again.name, "name");
    assert_eq!(again.size, 1234);
    assert_eq!(again.content_type, "image/png");
    assert_eq!(again.tags, "{\"k\":\"v\"}");
    assert_eq!(again.block_pointers, vec![4, 5, 900]);
    assert_eq!(again.created_at, -5);
    assert_eq!(again.to_object_info().uuid, text_of(3));
    assert!(MetadataEntry::from_bytes(&bytes[..20]).is_err());
    let fresh = MetadataEntry::new("n", 1, "c", "{}", vec![1]);
    assert_eq!(uuid::Uuid::from_bytes(fresh.uuid).get_version_num(), 4);
    assert_eq!(fresh.flags & META_FLAG_DELETED, 0);
}

#[test]
fn an_entry_takes_the_bytes_that_it_fills() {
    let (e, len) = MetadataEntry::from_bytes(&[0u8; 47]).unwrap();
    assert_eq!(len, 47);
    assert_eq!((e.name.as_str(), e.size, e.entry_size), ("", 0, 0));
    assert!(matches!(MetadataEntry::from_bytes(&[0u8; 46]), Err(MiniOsError::Storage(_))));
    let e = MetadataEntry::identified(id(3), 0, "名", 1, "t", "{}", vec![7]);
    let mut bytes = e.to_bytes();
    let full = bytes.len();
    bytes[full - 4] ^= 0xff;
    bytes.extend_from_slice(b"rest");
    assert_eq!(MetadataEntry::from_bytes(&bytes).unwrap().1, full);
    assert_eq!(full, 47 + 3 + 1 + 2 + 8);
}

#[test]
fn every_block_that_is_not_reserved_is_free_at_first() {
    let d = Disk::shaped(4096, 25600, 10000);
    let status = d.store.status();
    assert_eq!((status.free_blocks, status.used_blocks), (24973, 627));
    assert_eq!(SuperBlock::created(4096, 25600, 2_560_000, 0).free_blocks, 24973);
    assert_eq!(SuperBlock::created(4096, 3, 2_560_000, 0).free_blocks, 0);
    assert_eq!(SuperBlock::created(0, 3, 0, 0).free_blocks, 0);
}

#[test]
fn the_last_free_block_is_given_out() {
    let mut d = Disk::new();
    let free = d.store.status().free_blocks as usize;
    assert_eq!(free, TOTAL as usize - (4096 + 8 + 8 * 256usize).div_ceil(BLOCK as usize));
    let image = d.image.clone();
    assert!(matches!(
        d.put(1, "over", &vec![1u8; free * BLOCK as usize + 1]),
        Err(MiniOsError::NoSpace)
    ));
    assert_eq!(d.image, image);
    d.put(2, "all", &vec![2u8; free * BLOCK as usize]).unwrap();
    assert_eq!(d.store.status().free_blocks, 0);
    let image = d.image.clone();
    assert!(matches!(d.put(3, "more", b"x"), Err(MiniOsError::NoSpace)));
    assert_eq!(d.image, image);
    assert_eq!(d.get("all").unwrap(), vec![2u8; free * BLOCK as usize]);
    d.delete("all").unwrap();
    assert_eq!(d.store.status().free_blocks as usize, free);
}

#[test]
fn an_identifier_comes_before_a_name() {
    let mut d = Disk::new();
    let uuid = text_of(5);
    d.put(1, &uuid, b"by name").unwrap();
    assert_eq!(d.get(&uuid).unwrap(), b"by name");
    d.put(5, "other", b"by identifier").unwrap();
    assert_eq!(d.get(&uuid).unwrap(), b"by identifier");
    assert_eq!(d.get("other").unwrap(), b"by identifier");
    assert_eq!(d.get(&text_of(1)).unwrap(), b"by name");
    d.delete(&uuid).unwrap();
    assert_eq!(d.names(), vec![uuid.clone()]);
    assert_eq!(d.get(&uuid).unwrap(), b"by name");
}

#[test]
fn a_series_of_calls() {
    let mut d = Disk::new();
    let mut expected: Vec<(String, String)> = Vec::new();
    let mut number = 0u8;
    for round in 0..7u8 {
        for k in 0..2u8 {
            number += 1;
            let name = format!("n{}-{}", round, k);
            let uuid = d.put(number, &name, &[number; 700]).unwrap();
            expected.push((name, uuid));
        }
        assert!(matches!(d.put(99, &expected[0].0, b"again"), Err(MiniOsError::AlreadyExists(_))));
        assert!(matches!(d.delete("nobody"), Err(MiniOsError::NotFound(_))));
        if round > 0 {
            let (name, uuid) = expected.remove(round as usize % expected.len());
            d.delete(if round % 2 == 0 { &name } else { &uuid }).unwrap();
        }
        let listed: Vec<(String, String)> =
            d.store.list(&d.image).unwrap().into_iter().map(|o| (o.name, o.uuid)).collect();
        assert_eq!(listed, expected);
        assert_eq!(d.store.status().object_count as usize, expected.len());
        for (name, uuid) in &expected {
            assert_eq!(d.get(name).unwrap(), d.get(uuid).unwrap());
            assert_eq!(d.get(name).unwrap().len(), 700);
            assert_eq!(d.get(uuid).unwrap()[0], uuid::Uuid::parse_str(uuid).unwrap().as_bytes()[0]);
        }
    }
    let mut writes = Vec::new();
    d.store.flush(&mut writes);
    carry_out(&mut d.image, &writes);
    let mut writes = Vec::new();
    let again = ObjectStorage::open(&d.image, BLOCK, 1, 3, &mut writes).unwrap();
    assert!(writes.is_empty());
    let listed: Vec<String> =
        again.list(&d.image).unwrap().into_iter().map(|o| o.uuid).collect();
    assert_eq!(listed, expected.iter().map(|e| e.1.clone()).collect::<Vec<_>>());
    assert_eq!(again.status().free_blocks, d.store.status().free_blocks);
    assert!(matches!(
        ObjectStorage::open(&d.image, BLOCK + 1, TOTAL, OBJECTS, &mut writes),
        Err(MiniOsError::Storage(_))
    ));
    assert!(writes.is_empty());
}

#[test]
fn a_store_with_an_overlong_name_is_found_again_as_it_was() {
    let mut d = Disk::shaped(512, 600, 600);
    d.put(1, "before", b"first").unwrap();
    d.put(2, &"a".repeat(70_000), b"second").unwrap();
    assert!(d.store.is_scannable(&d.image));
    d.delete("before").unwrap();
    let listed = d.names();
    let mut writes = Vec::new();
    let again = ObjectStorage::open(&d.image, 512, 9, 9, &mut writes).unwrap();
    assert!(writes.is_empty());
    let names: Vec<String> =
        again.list(&d.image).unwrap().into_iter().map(|o| o.name).collect();
    assert_eq!(names, listed);
    assert_eq!(again.status().free_blocks, d.store.status().free_blocks);
    assert_eq!(again.status().object_count, 1);
    assert_eq!(again.get(&d.image, "before").is_err(), d.get("before").is_err());
}

#[test]
fn an_entry_that_is_not_text_is_refused() {
    let e = MetadataEntry::identified(id(3), 0, "name", 1, "type", "{}", vec![]);
    let mut bytes = e.to_bytes();
    let at = bytes.windows(4).position(|w| w == b"name").unwrap();
    bytes[at] = 0xff;
    match MetadataEntry::from_bytes(&bytes) {
        Err(e) => assert!(e.message().contains("invalid utf-8"), "{}", e.message()),
        Ok(_) => panic!("read"),
    }
}

#[test]
fn shapes_that_no_store_can_have() {
    assert!(is_creatable(4096, 25600, 10000));
    assert!(!is_creatable(0, 25600, 10000));
    assert!(!is_creatable(4096, 0, 10000));
    assert!(!is_creatable(4096, u64::MAX, 10000));
    assert!(!is_creatable(4096, 25600, u64::MAX / 256));
}

#[test]
fn an_image_follows_the_file() {
    let mut image = vec![1u8, 2, 3];
    let ops = vec![
        FileOp::Write { offset: 5, data: vec![9, 9] },
        FileOp::SetLen(9),
        FileOp::Write { offset: 0, data: vec![7] },
        FileOp::Write { offset: 100, data: vec![] },
    ];
    assert!(can_carry_out(&ops));
    carry_out(&mut image, &ops);
    assert_eq!(image, vec![7, 2, 3, 0, 0, 9, 9, 0, 0]);
    carry_out(&mut image, &vec![FileOp::SetLen(2)]);
    assert_eq!(image, vec![7, 2]);
    assert!(!can_carry_out(&vec![FileOp::Write { offset: u64::MAX, data: vec![1] }]));
}

#[test]
fn a_fresh_identifier_and_time_go_into_a_put() {
    let mut d = Disk::new();
    let mut writes = Vec::new();
    let a = d.store.put(&d.image, "a", b"x", "t", "{}", &mut writes).unwrap();
    carry_out(&mut d.image, &writes);
    let mut writes = Vec::new();
    let b = d.store.put(&d.image, "b", b"x", "t", "{}", &mut writes).unwrap();
    assert_ne!(a.uuid, b.uuid);
    assert_eq!(a.uuid.len(), 36);
    assert!(a.created_at.as_str() > "2024-01-01 00:00:00");
}

#[test]
fn texts_of_errors() {
    let t = || "x".to_string();
    let all = [
        (MiniOsError::Io(t()), "I/O 错误: x"),
        (MiniOsError::Json(t()), "JSON 序列化错误: x"),
        (MiniOsError::Storage(t()), "存储错误: x"),
        (MiniOsError::Shm(t()), "共享内存错误: x"),
        (MiniOsError::Ipc(t()), "IPC 错误: x"),
        (MiniOsError::Cache(t()), "缓存错误: x"),
        (MiniOsError::Server(t()), "服务器错误: x"),
        (MiniOsError::Client(t()), "客户端错误: x"),
        (MiniOsError::NotFound(t()), "对象未找到: x"),
        (MiniOsError::AlreadyExists(t()), "对象已存在: x"),
        (MiniOsError::NoSpace, "存储空间不足"),
        (MiniOsError::InvalidArgument(t()), "非法参数: x"),
        (MiniOsError::Utf8(t()), "UTF-8 转换错误: x"),
        (MiniOsError::FromUtf8(t()), "字符串 UTF-8 错误: x"),
    ];
    for (e, text) in all {
        assert_eq!(e.message(), text);
    }
}

#[test]
fn used_blocks_are_marked() {
    let mut d = Disk::new();
    let before: Vec<u64> = (0..TOTAL).filter(|b| d.store.is_block_used(*b)).collect();
    d.put(1, "a", &[7; 3 * BLOCK as usize]).unwrap();
    let after: Vec<u64> = (0..TOTAL).filter(|b| d.store.is_block_used(*b)).collect();
    assert_eq!(after.len(), before.len() + 3);
    assert!(before.iter().all(|b| after.contains(b)));
    assert!(d.store.is_block_used(TOTAL));
}
