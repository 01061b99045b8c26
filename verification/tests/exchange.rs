//! Whole conversations between a client and the server, move by move.
use minios::cache::ObjectCache;
use minios::cache_model::CacheAlgorithmType;
use minios::client::Outcome;
use minios::error::MiniOsError;
use minios::exchange::{
    is_inside, is_pageable, is_returnable, Action, GetExchange, GetStage, Move, PutExchange,
    PutStage,
};
use minios::image::carry_out;
use minios::ipc::{ClientMessage, ServerMessage};
use minios::shm::SharedMemory;
use minios::storage::ObjectStorage;
use minios::transfer::{Deed, DownloadStage, Downloading, UploadStage, Uploading};

struct Site {
    storage: ObjectStorage,
    cache: ObjectCache,
    image: Vec<u8>,
    region: Vec<u8>,
}

fn site() -> Site {
    let mut writes = Vec::new();
    let storage = ObjectStorage::open(&[], 512, 64, 16, &mut writes).unwrap();
    let mut image = Vec::new();
    carry_out(&mut image, &writes);
    let mut region = vec![0u8; 72 + 16 * 64];
    SharedMemory::create("r", &mut region, 64);
    Site { storage, cache: ObjectCache::new(CacheAlgorithmType::Lru, 4), image, region }
}

fn error_of(m: &ServerMessage) -> (String, String) {
    match m {
        ServerMessage::Error { code, message } => (code.clone(), message.clone()),
        other => panic!("{:?}", other),
    }
}

fn refusal(m: Move) -> (String, String) {
    assert!(m.access.is_none());
    match m.action {
        Action::Refuse(r) => error_of(&r),
        _ => panic!("no refusal"),
    }
}

fn sent(m: Move) -> Vec<ServerMessage> {
    match m.action {
        Action::Send(list) => list,
        _ => panic!("nothing is sent"),
    }
}

fn done(count: u32) -> ClientMessage {
    ClientMessage::DataDone { uuid: "u".to_string(), pages_used: count }
}

impl Site {
    fn put_exchange(&self, name: &str, size: u64) -> PutExchange {
        PutExchange::new(name.to_string(), size, "text/plain".to_string(), "{}".to_string())
    }

    fn end(&mut self, p: &mut PutExchange, word: &ClientMessage) -> Move {
        assert!(p.is_endable(&self.storage, &self.image, &self.cache, &self.region, word));
        let mut writes = Vec::new();
        let m = p.end(
            &mut self.storage,
            &self.image,
            &mut self.cache,
            &mut self.region,
            word,
            &mut writes,
        );
        carry_out(&mut self.image, &writes);
        m
    }

    /// Uploads an object, and returns what the client shows at the end.
    fn upload(&mut self, name: &str, data: &[u8]) -> String {
        let mut u = Uploading::new(
            name.to_string(),
            "text/plain".to_string(),
            "{}".to_string(),
            data.to_vec(),
        );
        let mut p = match u.begin("file.txt") {
            Deed::Send { notice, message: ClientMessage::Put { name, size, content_type, tags } } => {
                assert!(notice.contains("file.txt"));
                PutExchange::new(name, size, content_type, tags)
            }
            _ => panic!("no request"),
        };
        assert!(matches!(p.begin(&self.storage, &self.image).action, Action::Again));
        assert!(is_pageable(&self.region, p.size));
        let replies = sent(p.take(&mut self.region));
        assert_eq!(replies.len(), 1);
        assert!(matches!(u.ready(&replies[0]), Deed::Open));
        assert!(u.is_writable(&self.region));
        let word = match u.write(&mut self.region) {
            Deed::Send { notice, message } => {
                assert!(notice.contains(&data.len().to_string()));
                message
            }
            _ => panic!("nothing was written"),
        };
        let m = self.end(&mut p, &word);
        assert!(matches!(p.stage, PutStage::Over));
        let access = m.access.unwrap();
        assert_eq!((access.op.as_str(), access.name.as_str()), ("PUT", name));
        let reply = match m.action {
            Action::Finish(r) => r,
            _ => panic!("no answer"),
        };
        match u.end(&reply) {
            Deed::Show(Outcome::Print(text)) => text,
            _ => panic!("nothing is shown"),
        }
    }

    /// Downloads an object to a path, and returns what arrives there.
    fn download(&mut self, key: &str, output: Option<&str>) -> (Option<String>, Vec<u8>, Deed) {
        let mut d = Downloading::new(key.to_string(), output.map(|o| o.to_string()));
        let mut g = match d.begin() {
            Deed::Send { notice, message: ClientMessage::Get { key } } => {
                assert!(notice.contains(&key));
                GetExchange::new(key)
            }
            _ => panic!("no request"),
        };
        assert!(matches!(g.find(&self.storage, &self.image).action, Action::Again));
        assert!(g.is_loadable(&self.cache));
        assert!(matches!(
            g.load(&self.storage, &self.image, &mut self.cache).action,
            Action::Again
        ));
        let replies = sent(g.take(&mut self.region));
        assert_eq!(replies.len(), 2);
        assert!(matches!(d.ready(&replies[0]), Deed::Receive));
        assert!(matches!(d.about(&replies[1]), Deed::Open));
        assert!(d.is_readable(&self.region));
        let (message, path, data) = match d.read(&self.region) {
            Deed::Deliver { message, path, data } => (message, path, data),
            _ => panic!("nothing was read"),
        };
        let m = g.end(&mut self.region, &message);
        assert!(matches!(m.action, Action::Close));
        assert_eq!(m.access.unwrap().op, "GET");
        (path, data, d.end())
    }
}

#[test]
fn an_uploaded_object_is_downloaded() {
    let mut s = site();
    let data: Vec<u8> = (0..150u32).map(|i| (i * 7 % 251) as u8).collect();
    let free = SharedMemory::free_page_count(&s.region);
    let text = s.upload("a.txt", &data);
    assert!(text.contains("✓ Object stored successfully!"));
    assert!(text.contains("a.txt"));
    assert_eq!(SharedMemory::free_page_count(&s.region), free);
    let (path, got, last) = s.download("a.txt", None);
    assert_eq!((path.as_deref(), got), (Some("a.txt"), data.clone()));
    match last {
        Deed::Show(Outcome::Print(text)) => assert!(text.contains("a.txt")),
        _ => panic!("nothing is shown"),
    }
    assert_eq!(SharedMemory::free_page_count(&s.region), free);
    let (path, got, last) = s.download("a.txt", Some("-"));
    assert_eq!((path, got), (None, data.clone()));
    assert!(matches!(last, Deed::Close));
    let (path, got, _) = s.download("a.txt", Some("out/b"));
    assert_eq!((path.as_deref(), got), (Some("out/b"), data));
}

#[test]
fn an_empty_object_goes_through_one_page() {
    let mut s = site();
    s.upload("none", &[]);
    let (_, got, _) = s.download("none", None);
    assert_eq!(got, Vec::<u8>::new());
}

#[test]
fn pages_given_out_are_taken_back_as_they_were() {
    let mut s = site();
    let before = s.region.clone();
    let mut p = s.put_exchange("x", 130);
    p.begin(&s.storage, &s.image);
    sent(p.take(&mut s.region));
    assert_ne!(s.region, before);
    match p.stage {
        PutStage::Word { start, count } => {
            assert_eq!(count, 3);
            assert!(is_returnable(&s.region, start, count));
            assert!(is_inside(&s.region, start, count));
        }
        _ => panic!("no pages"),
    }
    let word = ClientMessage::DataError { uuid: "u".to_string(), error: "no".to_string() };
    let m = s.end(&mut p, &word);
    assert_eq!(refusal(m), ("DATA_ERROR".to_string(), "no".to_string()));
    assert_eq!(s.region, before);
    assert_eq!(s.storage.super_block.object_count, 0);
}

#[test]
fn another_word_breaks_the_protocol() {
    let mut s = site();
    let mut p = s.put_exchange("x", 10);
    p.begin(&s.storage, &s.image);
    sent(p.take(&mut s.region));
    let m = s.end(&mut p, &ClientMessage::List);
    assert_eq!(
        refusal(m),
        ("PROTOCOL_ERROR".to_string(), "在 DataReady 之后期望收到 DataDone".to_string())
    );
}

#[test]
fn a_taken_name_ends_the_exchange() {
    let mut s = site();
    s.upload("a", b"1");
    let mut p = s.put_exchange("a", 1);
    let m = p.begin(&s.storage, &s.image);
    assert_eq!(
        refusal(m),
        ("ALREADY_EXISTS".to_string(), "名为 'a' 的对象已存在".to_string())
    );
    assert!(matches!(p.stage, PutStage::Over));
}

#[test]
fn data_without_room_in_the_store_is_refused() {
    let mut s = site();
    let mut region = vec![0u8; 320 + 2048 * 64];
    SharedMemory::create("r", &mut region, 64);
    s.region = region;
    let size = 64 * 512;
    let mut p = s.put_exchange("big", size);
    p.begin(&s.storage, &s.image);
    sent(p.take(&mut s.region));
    let count = match p.stage {
        PutStage::Word { count, .. } => count,
        _ => panic!("no pages"),
    };
    let m = s.end(&mut p, &done(count));
    let (code, text) = refusal(m);
    assert_eq!(code, "STORAGE_ERROR");
    assert!(text.starts_with("存储对象失败: "));
}

#[test]
fn too_few_pages_are_waited_for() {
    let mut s = site();
    let pages = SharedMemory::num_pages(&s.region) as u64;
    let mut first = s.put_exchange("x", 64 * (pages - 1));
    first.begin(&s.storage, &s.image);
    sent(first.take(&mut s.region));
    let mut p = s.put_exchange("y", 128);
    p.begin(&s.storage, &s.image);
    let full = s.region.clone();
    assert!(matches!(p.take(&mut s.region).action, Action::Wait));
    assert!(matches!(p.stage, PutStage::Pages));
    assert_eq!(s.region, full);
    s.end(&mut first, &ClientMessage::List);
    assert_eq!(sent(p.take(&mut s.region)).len(), 1);
}

#[test]
fn more_pages_than_there_are_are_refused() {
    let mut s = site();
    let mut p = s.put_exchange("x", 64 * 1000);
    p.begin(&s.storage, &s.image);
    let (code, text) = refusal(p.take(&mut s.region));
    assert_eq!(code, "NO_SHM_SPACE");
    assert!(text.starts_with("无法分配共享内存页面: "));
}

#[test]
fn an_unknown_object_is_not_found() {
    let mut s = site();
    let mut g = GetExchange::new("ghost".to_string());
    assert!(!g.is_loadable(&s.cache));
    let (code, text) = refusal(g.find(&s.storage, &s.image));
    assert_eq!(code, "NOT_FOUND");
    assert!(text.contains("ghost"));
    assert!(matches!(g.stage, GetStage::Over));
    s.upload("real", b"1");
    let mut g = GetExchange::new("real".to_string());
    g.find(&s.storage, &s.image);
    assert!(g.is_loadable(&s.cache));
    g.load(&s.storage, &s.image, &mut s.cache);
    match &g.stage {
        GetStage::Pages { data, .. } => assert_eq!(data, b"1"),
        _ => panic!("no data"),
    }
}

#[test]
fn an_error_ends_a_transfer() {
    let refused =
        ServerMessage::Error { code: "NOT_FOUND".to_string(), message: "gone".to_string() };
    let mut d = Downloading::new("k".to_string(), None);
    d.begin();
    match d.ready(&refused) {
        Deed::Show(Outcome::Complain(text)) => assert_eq!(text, "Error [NOT_FOUND]: gone\n"),
        _ => panic!("nothing is shown"),
    }
    assert!(matches!(d.stage, DownloadStage::Over));
    let ready = ServerMessage::DataReady {
        uuid: "u".to_string(),
        start_page: 1,
        page_count: 2,
        page_size: 64,
        data_size: 100,
    };
    let mut d = Downloading::new("k".to_string(), None);
    d.begin();
    d.ready(&ready);
    match d.about(&refused) {
        Deed::Excuse { outcome, message } => {
            assert!(matches!(outcome, Outcome::Complain(_)));
            match message {
                ClientMessage::DataDone { uuid, pages_used } => {
                    assert_eq!((uuid.as_str(), pages_used), ("u", 2));
                }
                _ => panic!("the pages are not given back"),
            }
        }
        _ => panic!("no excuse"),
    }
    let mut u = Uploading::new("n".to_string(), "t".to_string(), "{}".to_string(), vec![1]);
    u.begin("f");
    assert!(matches!(u.ready(&ServerMessage::Done { message: None }), Deed::Show(Outcome::Unexpected)));
    assert!(matches!(u.stage, UploadStage::Over));
}

#[test]
fn data_that_does_not_fit_behind_its_page_fails() {
    let mut s = site();
    let mut u =
        Uploading::new("n".to_string(), "t".to_string(), "{}".to_string(), vec![1; 5000]);
    u.begin("f");
    u.ready(&ServerMessage::DataReady {
        uuid: "u".to_string(),
        start_page: 0,
        page_count: 1,
        page_size: 64,
        data_size: 5000,
    });
    assert!(u.is_writable(&s.region));
    match u.write(&mut s.region) {
        Deed::Fail(MiniOsError::Shm(text)) => {
            assert_eq!(text, "Data size 5000 exceeds available space from page 0");
        }
        _ => panic!("no failure"),
    }
}
