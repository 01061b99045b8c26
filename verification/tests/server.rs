//! What the server does with requests.
use minios::access_log::AccessRecord;
use minios::cache::ObjectCache;
use minios::cache_model::CacheAlgorithmType;
use minios::config::CliArgs;
use minios::error::MiniOsError;
use minios::image::carry_out;
use minios::ipc::{ClientMessage, ServerMessage};
use minios::search::{is_within, object_meets, Query};
use minios::server::{
    get_finish, get_info, get_pages, get_replies, handle_cache_benchmark, handle_cache_sweep,
    handle_data_done, handle_data_error, handle_search, is_triable, pages_for, parse_failure,
    put_check, put_ready, put_received, put_stored, read_cached, stored_answer, switch_reply,
    take_pages, Paging, Received,
};
use minios::service::{load_newest, sort_newest, Server, Turn};
use minios::metadata::ObjectInfo;
use minios::shm::SharedMemory;
use minios::storage::ObjectStorage;

struct Site {
    server: Server,
    image: Vec<u8>,
    region: Vec<u8>,
}

fn settings() -> CliArgs {
    let mut c = CliArgs::default();
    c.cache_capacity = 4;
    c.cache_warmup = 2;
    c.access_log = "access.log".to_string();
    c
}

fn site() -> Site {
    let mut writes = Vec::new();
    let storage = ObjectStorage::open(&[], 512, 64, 16, &mut writes).unwrap();
    let mut image = Vec::new();
    carry_out(&mut image, &writes);
    let mut region = vec![0u8; 72 + 16 * 64];
    SharedMemory::create("r", &mut region, 64);
    Site { server: Server::new(settings(), storage, true), image, region }
}

impl Site {
    fn put_whole(&mut self, name: &str, data: &[u8]) -> ServerMessage {
        assert!(put_check(&self.server.storage, &self.image, name).is_none());
        let (start, count) = match take_pages(&mut self.region, data.len() as u64) {
            Paging::Given { start, count } => (start, count),
            _ => panic!("no pages"),
        };
        match put_ready(&self.region, start, count, data.len() as u64) {
            ServerMessage::DataReady { uuid, start_page, page_count, page_size, data_size } => {
                assert_eq!(uuid.len(), 36);
                assert_eq!((start_page, page_count, page_size), (start, count, 64));
                assert_eq!(data_size, data.len() as u64);
            }
            other => panic!("{:?}", other),
        }
        SharedMemory::write_pages(&mut self.region, start, data).unwrap();
        let done = ClientMessage::DataDone { uuid: "u".to_string(), pages_used: count };
        let got = match put_received(&mut self.region, start, count, data.len() as u64, &done) {
            Received::Data(d) => d,
            _ => panic!("no data"),
        };
        assert_eq!(got, data);
        let mut writes = Vec::new();
        let a = put_stored(
            &mut self.server.storage,
            &self.image,
            &mut self.server.cache,
            name,
            got,
            "text/plain",
            "{\"a\":\"b\"}",
            &mut writes,
        );
        carry_out(&mut self.image, &writes);
        if let Some(AccessRecord { op, name: n, .. }) = &a.access {
            assert_eq!((op.as_str(), n.as_str()), ("PUT", name));
        }
        a.reply
    }

    fn get_whole(&mut self, key: &str) -> Result<Vec<u8>, ServerMessage> {
        let info = get_info(&self.server.storage, &self.image, key)?;
        let data = read_cached(
            &self.server.storage,
            &self.image,
            &mut self.server.cache,
            key,
            &info,
        )
        .unwrap();
        let (start, count) = match get_pages(&mut self.region, &data) {
            Paging::Given { start, count } => (start, count),
            _ => panic!("no pages"),
        };
        let (ready, about) = get_replies(&self.region, start, count, &info);
        let size = match ready {
            ServerMessage::DataReady { data_size, .. } => data_size,
            other => panic!("{:?}", other),
        };
        assert!(matches!(about, ServerMessage::ObjectInfo(i) if i.name == info.name));
        let seen = SharedMemory::read_pages(&self.region, start, count, size);
        get_finish(&mut self.region, start, count, &ClientMessage::List).unwrap();
        Ok(seen)
    }

    fn ask(&mut self, request: ClientMessage) -> Turn {
        assert!(self.server.can_take(&self.image, &self.region, &request));
        let mut writes = Vec::new();
        let t = self.server.handle_client(&self.image, &self.region, 77, request, &mut writes);
        carry_out(&mut self.image, &writes);
        t
    }

    fn reply(&mut self, request: ClientMessage) -> ServerMessage {
        match self.ask(request) {
            Turn::Reply(a) => a.reply,
            _ => panic!("no reply"),
        }
    }

    fn done(&mut self, request: ClientMessage) -> String {
        match self.reply(request) {
            ServerMessage::Done { message } => message.unwrap(),
            other => panic!("{:?}", other),
        }
    }

    fn error(&mut self, request: ClientMessage) -> (String, String) {
        match self.reply(request) {
            ServerMessage::Error { code, message } => (code, message),
            other => panic!("{:?}", other),
        }
    }
}

#[test]
fn an_object_goes_in_and_comes_out() {
    let mut s = site();
    let data: Vec<u8> = (0..250u8).collect();
    let uuid = match s.put_whole("a", &data) {
        ServerMessage::ObjectInfo(i) => i.uuid,
        other => panic!("{:?}", other),
    };
    assert_eq!(s.get_whole("a").unwrap(), data);
    assert_eq!(s.get_whole(&uuid).unwrap(), data);
    assert_eq!(SharedMemory::free_page_count(&s.region), 16);
    let stats = s.server.cache.stats();
    assert_eq!((stats.hits, stats.misses), (2, 0));
}

#[test]
fn a_cleared_cache_is_filled_from_the_store() {
    let mut s = site();
    s.put_whole("a", b"hello");
    s.server.cache.clear();
    assert_eq!(s.get_whole("a").unwrap(), b"hello");
    assert_eq!(s.server.cache.stats().misses, 1);
    assert_eq!(s.get_whole("a").unwrap(), b"hello");
    assert_eq!(s.server.cache.stats().hits, 1);
}

#[test]
fn a_deleted_object_is_nowhere() {
    let mut s = site();
    s.put_whole("a", b"hello");
    match s.ask(ClientMessage::Delete { key: "a".to_string() }) {
        Turn::Reply(a) => {
            assert!(matches!(a.reply, ServerMessage::Done { message: Some(m) } if m == "对象 'a' 已删除"));
            let x = a.access.unwrap();
            assert_eq!((x.op.as_str(), x.name.as_str(), x.tags.as_str()), ("DELETE", "a", "{}"));
        }
        _ => panic!("no reply"),
    }
    assert_eq!(s.server.cache.len(), 0);
    match s.get_whole("a") {
        Err(ServerMessage::Error { code, message }) => {
            assert_eq!((code.as_str(), message.as_str()), ("NOT_FOUND", "对象未找到: a"));
        }
        other => panic!("{:?}", other),
    }
    let (code, message) = s.error(ClientMessage::Delete { key: "a".to_string() });
    assert_eq!(code, "NOT_FOUND");
    assert_eq!(message, "对象未找到: 对象未找到: 未找到对象：a");
}

#[test]
fn a_taken_name_is_refused() {
    let mut s = site();
    s.put_whole("a", b"x");
    match put_check(&s.server.storage, &s.image, "a") {
        Some(ServerMessage::Error { code, .. }) => assert_eq!(code, "ALREADY_EXISTS"),
        other => panic!("{:?}", other),
    }
}

#[test]
fn lists_and_searches() {
    let mut s = site();
    s.put_whole("a", b"x");
    s.put_whole("b", b"y");
    match s.reply(ClientMessage::List) {
        ServerMessage::ObjectList { objects } => {
            let names: Vec<_> = objects.into_iter().map(|o| o.name).collect();
            assert_eq!(names, ["a", "b"]);
        }
        other => panic!("{:?}", other),
    }
    let request = ClientMessage::Search {
        name: Some("B".to_string()),
        tag: Some("a=b".to_string()),
        content_type: None,
        after: None,
        before: None,
    };
    match s.reply(request) {
        ServerMessage::ObjectList { objects } => assert_eq!(objects.len(), 1),
        other => panic!("{:?}", other),
    }
    let none = Query {
        name: Some("zzz".to_string()),
        tag: None,
        content_type: None,
        after: None,
        before: None,
    };
    match handle_search(&s.server.storage, &s.image, &none).unwrap() {
        ServerMessage::ObjectList { objects } => assert!(objects.is_empty()),
        other => panic!("{:?}", other),
    }
}

#[test]
fn figures() {
    let mut s = site();
    s.put_whole("a", &[0u8; 100]);
    match s.reply(ClientMessage::Status) {
        ServerMessage::Status(t) => {
            assert_eq!(t.object_count, 1);
            assert_eq!(t.total_blocks, 64);
            assert_eq!(t.used_blocks + t.free_blocks, 64);
            assert_eq!(t.used_capacity, t.used_blocks * 512);
            assert_eq!((t.cache_size, t.cache_capacity), (1, 4));
            assert_eq!(t.cache_algorithm, "LRU");
            assert_eq!((t.shm_pages_total, t.shm_pages_free), (16, 16));
            assert_eq!(t.uptime_seconds, 77);
            assert_eq!(t.max_objects, 16);
        }
        other => panic!("{:?}", other),
    }
}

#[test]
fn the_cache_is_changed() {
    let mut s = site();
    let text = s.done(ClientMessage::CacheResize { capacity: 9 });
    assert_eq!(text, "缓存容量已从 4 调整为 9");
    let text = s.done(ClientMessage::CacheResize { capacity: 0 });
    assert_eq!(text, "缓存容量已从 9 调整为 1");
    let text = s.done(ClientMessage::CacheSwitch { algorithm: "LRU".to_string() });
    assert_eq!(text, "缓存算法已经是 LRU");
    let text = s.done(ClientMessage::CacheSwitch { algorithm: "fifo".to_string() });
    assert!(text.starts_with("从 LRU 切换到 FIFO"), "{}", text);
    assert!(matches!(
        switch_reply(CacheAlgorithmType::Lfu, CacheAlgorithmType::Lfu),
        ServerMessage::Done { message: Some(m) } if m == "缓存算法已经是 LFU"
    ));
}

#[test]
fn stopping() {
    let mut s = site();
    let (code, _) = s.error(ClientMessage::Stop);
    assert_eq!(code, "NOT_RUNNING");
    assert_eq!(s.server.start(&s.image).unwrap(), 4);
    assert!(s.server.is_running());
    match s.server.start(&s.image) {
        Err(MiniOsError::Server(m)) => assert_eq!(m, "服务器已在运行中"),
        _ => panic!("started twice"),
    }
    assert_eq!(s.done(ClientMessage::Stop), "服务器正在停止...");
    assert!(!s.server.is_running());
    let mut writes = Vec::new();
    s.server.stop(&mut writes);
    assert!(!s.server.storage.dirty);
}

#[test]
fn other_requests() {
    let mut s = site();
    let done = ClientMessage::DataDone { uuid: "u".to_string(), pages_used: 1 };
    assert_eq!(s.done(done), "数据传输已确认");
    let failed = ClientMessage::DataError { uuid: "u".to_string(), error: "oh".to_string() };
    assert_eq!(s.error(failed), ("DATA_ERROR".to_string(), "oh".to_string()));
    assert!(matches!(handle_data_done(), ServerMessage::Done { .. }));
    assert!(matches!(handle_data_error("x"), ServerMessage::Error { .. }));
    let put = ClientMessage::Put {
        name: "n".to_string(),
        size: 3,
        content_type: "c".to_string(),
        tags: "{}".to_string(),
    };
    assert!(matches!(s.ask(put), Turn::Store { size: 3, .. }));
    assert!(matches!(s.ask(ClientMessage::Get { key: "k".to_string() }), Turn::Read { .. }));
    match parse_failure(&MiniOsError::Ipc("bad".to_string())) {
        ServerMessage::Error { code, message } => {
            assert_eq!((code.as_str(), message.as_str()), ("PARSE_ERROR", "无法解析请求: IPC 错误: bad"));
        }
        other => panic!("{:?}", other),
    }
}

#[test]
fn trials_on_the_stored_objects() {
    let mut s = site();
    let (code, _) = s.error(ClientMessage::CacheBenchmark { iterations: 10, sweep: false });
    assert_eq!(code, "NO_OBJECTS");
    let (code, _) = s.error(ClientMessage::CacheBenchmark { iterations: 10, sweep: true });
    assert_eq!(code, "NO_OBJECTS");
    for n in ["a", "b", "c", "d", "e", "f"] {
        s.put_whole(n, b"x");
    }
    s.get_whole("b").unwrap();
    match handle_cache_benchmark(&s.server.storage, &s.image, &s.server.cache, 100) {
        ServerMessage::CacheBenchmarkResult { benchmarks, workload_keys, iterations } => {
            assert_eq!((benchmarks.len(), workload_keys, iterations), (3, 6, 100));
            assert!(benchmarks.iter().all(|b| b.hits + b.misses == 100));
        }
        other => panic!("{:?}", other),
    }
    match handle_cache_sweep(&s.server.storage, &s.image, &s.server.cache, 50) {
        ServerMessage::CacheBenchmarkSweep { rows, workload_keys, iterations } => {
            assert_eq!((rows.len(), workload_keys, iterations), (27, 6, 50));
        }
        other => panic!("{:?}", other),
    }
    assert!(is_triable(1000, 1000));
    assert!(!is_triable(usize::MAX, 2));
    let big = ClientMessage::CacheBenchmark { iterations: usize::MAX, sweep: false };
    assert!(!s.server.can_take(&s.image, &s.region, &big));
}

#[test]
fn the_newest_objects_come_first() {
    let object = |n: &str, t: &str| ObjectInfo {
        uuid: n.to_string(),
        name: n.to_string(),
        size: 0,
        content_type: String::new(),
        created_at: t.to_string(),
        tags: String::new(),
        block_count: 0,
    };
    let sorted = sort_newest(&vec![
        object("a", "2024-01-01"),
        object("b", "2024-01-03"),
        object("c", "2024-01-02"),
        object("d", "2024-01-03"),
    ]);
    let names: Vec<_> = sorted.into_iter().map(|o| o.name).collect();
    assert_eq!(names, ["b", "d", "c", "a"]);
    let mut s = site();
    s.put_whole("x", b"1");
    s.put_whole("y", b"22");
    s.put_whole("z", b"333");
    s.server.cache.clear();
    assert_eq!(load_newest(&s.server.storage, &s.image, 2).len(), 2);
    s.server.start(&s.image).unwrap();
    assert_eq!(s.server.cache.len(), 2);
}

#[test]
fn pages_run_out() {
    let mut s = site();
    assert_eq!(pages_for(0, 64), 1);
    assert_eq!(pages_for(64, 64), 1);
    assert_eq!(pages_for(65, 64), 2);
    assert!(matches!(take_pages(&mut s.region, 16 * 64), Paging::Given { start: 0, count: 16 }));
    assert!(matches!(take_pages(&mut s.region, 1), Paging::Wait));
    match take_pages(&mut s.region, 17 * 64) {
        Paging::Refused(ServerMessage::Error { code, .. }) => assert_eq!(code, "NO_SHM_SPACE"),
        _ => panic!("pages out of nothing"),
    }
}

#[test]
fn answers_by_what_the_store_said() {
    let mut c = ObjectCache::new(CacheAlgorithmType::Lru, 2);
    match stored_answer(Err(MiniOsError::NoSpace), vec![1], &mut c).reply {
        ServerMessage::Error { code, message } => {
            assert_eq!((code.as_str(), message.as_str()), ("STORAGE_ERROR", "存储对象失败: 存储空间不足"));
        }
        other => panic!("{:?}", other),
    }
    assert_eq!(c.len(), 0);
}

#[test]
fn a_client_that_fails_gives_its_pages_back() {
    let mut s = site();
    assert!(matches!(take_pages(&mut s.region, 100), Paging::Given { start: 0, count: 2 }));
    let failed = ClientMessage::DataError { uuid: "u".to_string(), error: "disk".to_string() };
    assert!(!matches!(put_received(&mut s.region, 0, 2, 100, &failed), Received::Data(_)));
    assert_eq!(SharedMemory::free_page_count(&s.region), 16);
}

#[test]
fn a_server_starts_again_with_what_it_cached() {
    for policy in ["lru", "fifo", "lfu"] {
        let mut s = site();
        s.server = Server::new(settings_with(policy), s.server.storage, true);
        for name in ["a", "b", "c"] {
            s.put_whole(name, &[1u8; 30]);
        }
        assert!(s.server.can_start(&s.image));
        s.server.start(&s.image).unwrap();
        let mut writes = Vec::new();
        s.server.stop(&mut writes);
        carry_out(&mut s.image, &writes);
        assert!(s.server.cache.len() > 0);
        assert!(s.server.can_start(&s.image));
        assert_eq!(s.server.start(&s.image).unwrap(), 4);
        assert!(s.server.is_running() && s.server.can_start(&s.image));
    }
}

fn settings_with(policy: &str) -> CliArgs {
    let mut c = settings();
    c.cache_algorithm = policy.to_string();
    c
}

#[test]
fn a_cache_that_is_too_large_is_refused() {
    assert!(Server::has_room("lru", 128));
    assert!(!Server::has_room("LRU", usize::MAX));
    assert!(Server::has_room("fifo", usize::MAX));
    let store = || ObjectStorage::open(&[], 512, 64, 16, &mut Vec::new()).unwrap();
    let mut config = settings();
    config.cache_algorithm = "Lru".to_string();
    config.cache_capacity = 128;
    let server = Server::try_new(config, store(), true).unwrap();
    assert!(!server.is_running() && server.access_log.enabled);
    assert_eq!((server.cache.len(), server.cache.stats().capacity), (0, 128));
    let mut config = settings();
    config.cache_capacity = usize::MAX;
    assert!(Server::try_new(config, store(), true).is_none());
    let mut config = settings();
    config.cache_algorithm = "fifo".to_string();
    config.cache_capacity = usize::MAX;
    assert_eq!(Server::try_new(config, store(), false).unwrap().access_log.enabled, false);
}

#[test]
fn days_begin_and_end_at_midnight() {
    let object = |created_at: &str| ObjectInfo {
        uuid: "u".to_string(),
        name: "n".to_string(),
        size: 1,
        content_type: "t".to_string(),
        created_at: created_at.to_string(),
        tags: "{}".to_string(),
        block_count: 1,
    };
    let query = |after: Option<&str>, before: Option<&str>| Query {
        name: None,
        tag: None,
        content_type: None,
        after: after.map(|d| d.to_string()),
        before: before.map(|d| d.to_string()),
    };
    let late = object("2024-02-29 23:59:59");
    let next = object("2024-03-01 00:00:00");
    let leap = Some("2024-02-29");
    assert!(object_meets(&late, &query(leap, leap)));
    assert!(!object_meets(&next, &query(None, leap)));
    assert!(object_meets(&next, &query(leap, None)));
    assert!(object_meets(&next, &query(Some("2024-03-01"), Some("2024-03-01"))));
    assert!(!object_meets(&late, &query(Some("2024-03-01"), None)));
    assert!(object_meets(&late, &query(Some("no day"), Some("2024-02-30"))));
    assert!(object_meets(&object("no time"), &query(None, Some("1970-01-01"))));
    assert!(!object_meets(&object("no time"), &query(Some("1970-01-02"), None)));
    assert!(is_within(86_399, Some(0), Some(0)) && !is_within(86_400, Some(0), Some(0)));
    assert!(is_within(i64::MAX, None, Some(i64::MAX)) && is_within(i64::MIN, None, None));
}
