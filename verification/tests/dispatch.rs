//! Whole requests to the web interface.
use minios::cache::ObjectCache;
use minios::cache_model::CacheAlgorithmType;
use minios::dispatch::{can_serve, dispatch};
use minios::http::Request;
use minios::image::carry_out;
use minios::shm::SharedMemory;
use minios::storage::ObjectStorage;
use minios::web::WebReply;

struct Site {
    store: ObjectStorage,
    cache: ObjectCache,
    image: Vec<u8>,
    region: Vec<u8>,
}

fn site() -> Site {
    let mut writes = Vec::new();
    let store = ObjectStorage::open(&[], 512, 64, 16, &mut writes).unwrap();
    let mut image = Vec::new();
    carry_out(&mut image, &writes);
    let mut region = vec![0u8; 72 + 16 * 64];
    SharedMemory::create("r", &mut region, 64);
    Site { store, cache: ObjectCache::new(CacheAlgorithmType::Lru, 4), image, region }
}

impl Site {
    fn ask(&mut self, head: &str, body: &[u8]) -> Option<WebReply> {
        let request = Request { head: head.to_string(), body: body.to_vec() };
        assert!(can_serve(&self.store, &self.image, &self.cache, &self.region, &request));
        let mut writes = Vec::new();
        let turn = dispatch(
            &mut self.store,
            &self.image,
            &mut self.cache,
            &self.region,
            77,
            &request,
            "0.1.0",
            &mut writes,
        );
        carry_out(&mut self.image, &writes);
        turn
    }

    fn get(&mut self, target: &str) -> Option<WebReply> {
        self.ask(&format!("GET {} HTTP/1.1\r\nHost: x", target), b"")
    }

    fn reply(&mut self, target: &str) -> WebReply {
        match self.get(target) {
            Some(r) => r,
            _ => panic!("no reply"),
        }
    }

    fn page(&mut self, target: &str) -> String {
        String::from_utf8(self.reply(target).body).unwrap()
    }

    fn upload(&mut self, form: &str) -> WebReply {
        let head = "POST /api/put HTTP/1.1\r\nContent-Type: application/x-www-form-urlencoded";
        match self.ask(head, form.as_bytes()) {
            Some(r) => r,
            _ => panic!("no reply"),
        }
    }
}

#[test]
fn an_object_lives_through_the_web() {
    let mut s = site();
    let r = s.upload("name=a.txt&content=hello+world&type=text%2Fplain");
    assert_eq!(r.access.unwrap().op, "PUT");
    let r = s.reply("/api/get?key=a.txt");
    assert_eq!(r.body, b"hello world");
    assert!(r.head.contains("filename=\"a.txt\""));
    assert_eq!(r.access.unwrap().op, "GET");
    assert_eq!(s.cache.stats().hits, 1);
    assert!(s.page("/api/get").contains("a.txt"));
    assert!(s.page("/api/delete").contains("a.txt"));
    assert!(s.page("/api/search?name=A").contains("a.txt"));
    let r = s.reply("/api/delete?key=a.txt");
    assert_eq!(r.access.unwrap().op, "DELETE");
    assert_eq!(s.cache.len(), 0);
    assert!(s.page("/api/get?key=a.txt").contains("对象未找到"));
    assert!(s.page("/api/get").contains("暂无对象，请先上传"));
}

#[test]
fn requests_find_their_pages() {
    let mut s = site();
    let text = s.page("/metrics");
    assert!(text.contains("\nminios_uptime_seconds 77\n"));
    assert!(text.contains("\nminios_cache_hit_rate_percent 0.00\n"));
    assert!(s.page("/").contains("系统总览"));
    assert!(s.page("/manage?x=1").contains("对象管理"));
    let r = s.reply("/nowhere");
    assert!(r.head.starts_with("HTTP/1.1 404 Not Found\r\n"));
    assert_eq!(r.body, b"404\n");
    match s.ask("POST /manage HTTP/1.1", b"") {
        Some(r) => assert_eq!(r.body, b"404\n"),
        _ => panic!("no reply"),
    }
    match s.ask("POST /api/resize HTTP/1.1", b"capacity=9") {
        Some(_) => assert_eq!(s.cache.capacity(), 9),
        _ => panic!("no reply"),
    }
}

#[test]
fn values_that_are_not_readable_get_no_reply() {
    let mut s = site();
    for target in ["/api/get?key=%a中", "/api/delete?key=%a中", "/api/search?tag=%a中"] {
        assert!(matches!(s.get(target), None), "{}", target);
    }
    let put = s.ask("POST /api/put HTTP/1.1", "name=%a中".as_bytes());
    assert!(matches!(put, None));
    let resize = s.ask("POST /api/resize HTTP/1.1", "capacity=%a中".as_bytes());
    assert!(matches!(resize, None));
}

#[test]
fn policies_are_tried_on_what_is_stored() {
    let mut s = site();
    assert!(s.page("/api/benchmark").contains("暂无对象，请先上传一些文件后再进行测试"));
    s.upload("name=a&content=1");
    s.upload("name=b&content=2");
    let text = s.page("/api/benchmark");
    assert_eq!(text.matches("<td>198</td><td>2</td><td>99.00%</td>").count(), 3);
    assert!(text.contains("最优算法：LRU</strong>（99.00% 命中率）"));
    assert_eq!(s.cache.stats().hits + s.cache.stats().misses, 0);
}

#[test]
fn rates_are_those_of_the_cache_and_the_store() {
    let mut s = site();
    s.upload("name=a&content=1");
    s.reply("/api/get?key=a");
    s.reply("/api/get?key=a");
    s.cache.clear();
    s.reply("/api/get?key=a");
    let text = s.page("/metrics");
    assert!(text.contains("\nminios_cache_hit_rate_percent 66.67\n"));
    let status = s.store.status();
    let used = status.used_capacity as f64 / status.total_capacity as f64 * 100.0;
    let page = s.page("/");
    assert!(page.contains("66.7%") && page.contains("66.67%"));
    assert!(page.contains(&format!("（{:.1}%", used)));
    let page = s.page("/manage");
    assert!(page.contains("66.7%") && page.contains(&format!("{:.1}%", used)));
}

#[test]
fn bytes_that_are_no_text_are_replaced() {
    let mut s = site();
    s.ask("POST /api/put HTTP/1.1", b"name=\xffa&content=1");
    let objects = s.store.list(&s.image).unwrap();
    assert_eq!(objects[0].name, "\u{ef}\u{bf}\u{bd}a");
}
