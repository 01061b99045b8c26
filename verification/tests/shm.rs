//! The shared page region.
use minios::error::MiniOsError;
use minios::shm::{object_name, SharedMemory, ShmHeader};

fn region(pages: usize, page: u32) -> Vec<u8> {
    let mut r = vec![0xeeu8; 64 + pages.div_ceil(64) * 8 + pages * page as usize];
    let m = SharedMemory::create("pages", &mut r, page);
    assert_eq!(m.name(), "/pages");
    assert!(SharedMemory::is_mapped(&r));
    r
}

#[test]
fn a_new_region_has_all_pages_free() {
    let r = region(10, 128);
    assert_eq!(SharedMemory::page_size(&r), 128);
    assert_eq!(SharedMemory::num_pages(&r), 10);
    assert_eq!(SharedMemory::free_page_count(&r), 10);
    for p in 0..10 {
        assert!(!SharedMemory::is_page_used(&r, p));
    }
    let m = SharedMemory::open("/pages", &r[..64]).unwrap();
    assert_eq!(m.size, r.len() as u64);
    assert!(!m.is_owner);
    let text = m.status_string(&r);
    assert!(text.contains("10"), "{}", text);
}

#[test]
fn pages_are_taken_and_given_back() {
    let mut r = region(8, 64);
    assert_eq!(SharedMemory::alloc_pages(&mut r, 3).unwrap(), Some(0));
    assert_eq!(SharedMemory::alloc_pages(&mut r, 2).unwrap(), Some(3));
    assert_eq!(SharedMemory::free_page_count(&r), 3);
    assert!(SharedMemory::is_page_used(&r, 4) && !SharedMemory::is_page_used(&r, 5));
    assert_eq!(SharedMemory::alloc_pages(&mut r, 4).unwrap(), None);
    assert!(SharedMemory::alloc_pages(&mut r, 9).is_err());
    SharedMemory::free_pages(&mut r, 0, 3).unwrap();
    assert_eq!(SharedMemory::free_page_count(&r), 6);
    assert_eq!(SharedMemory::alloc_pages(&mut r, 4).unwrap(), None);
    assert_eq!(SharedMemory::alloc_pages(&mut r, 1).unwrap(), Some(0));
}

#[test]
fn what_is_written_to_pages_is_read() {
    let mut r = region(8, 64);
    let data: Vec<u8> = (0..150u8).collect();
    let start = SharedMemory::alloc_pages(&mut r, 3).unwrap().unwrap();
    SharedMemory::write_pages(&mut r, start, &data).unwrap();
    assert_eq!(SharedMemory::read_pages(&r, start, 3, 150), data);
    assert_eq!(SharedMemory::free_page_count(&r), 5);
    match SharedMemory::write_pages(&mut r, 7, &[0u8; 1000]) {
        Err(MiniOsError::Shm(m)) => {
            assert_eq!(m, "Data size 1000 exceeds available space from page 7")
        }
        other => panic!("{:?}", other),
    }
}

#[test]
fn pages_lie_within_the_region() {
    let h = ShmHeader::new(64 + 4096 * 2, 4096);
    assert_eq!((h.num_pages, h.data_offset, h.free_pages), (1, 72, 1));
    assert!(h.data_offset as u64 + h.num_pages as u64 * 4096 <= 64 + 4096 * 2);
    let h = ShmHeader::new(72 + 4096 * 2, 4096);
    assert_eq!((h.num_pages, h.data_offset), (2, 72));
    let h = ShmHeader::new(64 + 16 * 64, 64);
    assert_eq!((h.num_pages, h.data_offset), (15, 72));
    assert_eq!(ShmHeader::new(64, 64).num_pages, 0);
}

#[test]
fn only_used_pages_are_given_back() {
    let mut r = region(15, 64);
    SharedMemory::free_pages(&mut r, 3, 1).unwrap();
    assert_eq!(SharedMemory::free_page_count(&r), 15);
    assert_eq!(SharedMemory::alloc_pages(&mut r, 2).unwrap(), Some(0));
    SharedMemory::free_pages(&mut r, 1, 4).unwrap();
    assert_eq!(SharedMemory::free_page_count(&r), 14);
    SharedMemory::free_pages(&mut r, 0, 15).unwrap();
    assert_eq!(SharedMemory::free_page_count(&r), 15);
}

#[test]
fn pages_beyond_the_last_are_refused() {
    let mut r = region(15, 64);
    let before = r.clone();
    for (start, count) in [(15, 1), (14, 2), (0, 16), (4294967295, 1), (1, 4294967295)] {
        assert!(matches!(
            SharedMemory::free_pages(&mut r, start, count),
            Err(MiniOsError::Shm(_))
        ));
    }
    assert_eq!(SharedMemory::free_page_count(&r), 15);
    assert_eq!(r, before);
}

#[test]
fn page_calls_keep_the_layout() {
    let mut r = region(15, 64);
    SharedMemory::alloc_pages(&mut r, 4).unwrap();
    SharedMemory::write_pages(&mut r, 1, &[7u8; 100]).unwrap();
    SharedMemory::free_pages(&mut r, 0, 2).unwrap();
    assert!(SharedMemory::alloc_pages(&mut r, 16).is_err());
    assert_eq!(SharedMemory::num_pages(&r), 15);
    assert_eq!(SharedMemory::page_size(&r), 64);
    assert_eq!(SharedMemory::free_page_count(&r), 13);
    let used = (0..15).filter(|p| SharedMemory::is_page_used(&r, *p)).count();
    assert_eq!(used, 2);
}

#[test]
fn headers_are_read_back() {
    let h = ShmHeader::new(64 + 4096 * 4, 4096);
    let b = h.to_bytes();
    assert_eq!(b.len(), 64);
    let again = ShmHeader::from_bytes(&b).unwrap();
    assert_eq!(again.num_pages, h.num_pages);
    assert_eq!(again.page_size, 4096);
    let mut bad = b.clone();
    bad[0] ^= 1;
    assert!(ShmHeader::from_bytes(&bad).is_err());
    assert_eq!(object_name("x"), "/x");
    assert_eq!(object_name("/x"), "/x");
}

#[test]
fn a_written_header_is_read() {
    let mut r = region(8, 64);
    let mut h = SharedMemory::read_header(&r);
    assert_eq!(h.free_pages, 8);
    h.free_pages = 5;
    SharedMemory::write_header(&mut r, &h);
    assert_eq!(SharedMemory::free_page_count(&r), 5);
    assert_eq!(SharedMemory::num_pages(&r), 8);
    assert!(SharedMemory::is_page_used(&r, 8));
}
