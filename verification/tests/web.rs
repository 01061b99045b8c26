//! The web interface.
use minios::cache::ObjectCache;
use minios::cache_model::CacheAlgorithmType;
use minios::error::MiniOsError;
use minios::forms::{parse_field_section, parse_multipart, read_upload, Upload};
use minios::http::{
    body_len, cut_request, get_form_field_urlencoded, get_query_param, missing, parse_first,
    request_line, request_type, route, url_decode, Lookup, Request, Route,
};
use minios::image::carry_out;
use minios::metadata::ObjectInfo;
use minios::pages::{object_row, page, page_with_refresh};
use minios::search::Query;
use minios::shm::SharedMemory;
use minios::storage::ObjectStorage;
use minios::web::{
    build_dashboard, build_manage_page, build_metrics, not_found, respond, web_delete,
    web_deletions, web_downloads, web_fetch, web_find, web_metrics, web_put, web_resize, web_stored,
    MetricsServer, WebReply,
};
use minios::web_search::{read_conditions, web_filter, web_search};
use minios::web_trials::{is_web_triable, run_web_trials, trial_body, web_benchmark};

const V: &str = "0.1.0";

struct Site {
    store: ObjectStorage,
    cache: ObjectCache,
    image: Vec<u8>,
    region: Vec<u8>,
}

fn site() -> Site {
    let mut writes = Vec::new();
    let store = ObjectStorage::open(&[], 512, 64, 16, &mut writes).unwrap();
    let mut image = Vec::new();
    carry_out(&mut image, &writes);
    let mut region = vec![0u8; 72 + 16 * 64];
    SharedMemory::create("r", &mut region, 64);
    Site { store, cache: ObjectCache::new(CacheAlgorithmType::Lru, 4), image, region }
}

fn upload(name: &str, content: &[u8]) -> Upload {
    Upload {
        name: name.to_string(),
        content: content.to_vec(),
        content_type: "text/plain".to_string(),
        tags: "{\"a\":\"b\"}".to_string(),
    }
}

fn text(r: &WebReply) -> String {
    String::from_utf8(r.body.clone()).unwrap()
}

impl Site {
    fn put(&mut self, name: &str, content: &[u8]) -> WebReply {
        let mut writes = Vec::new();
        let r = web_put(
            &mut self.store,
            &self.image,
            &mut self.cache,
            upload(name, content),
            &mut writes,
            V,
        );
        carry_out(&mut self.image, &writes);
        r
    }
}

fn found(r: Lookup) -> Option<String> {
    match r {
        Lookup::Found(s) => Some(s),
        _ => None,
    }
}

#[test]
fn urls_are_decoded() {
    assert_eq!(url_decode("plain").unwrap(), "plain");
    assert_eq!(url_decode("a+b%20c%2Fd").unwrap(), "a b c/d");
    assert_eq!(url_decode("%e4%b8%ad").unwrap(), "\u{e4}\u{b8}\u{ad}");
    assert_eq!(url_decode("100%").unwrap(), "100%");
    assert_eq!(url_decode("5%4").unwrap(), "5%4");
    assert_eq!(url_decode("%zz").unwrap(), "zz");
    assert_eq!(url_decode("%+a").unwrap(), "\n");
    assert_eq!(url_decode("é").unwrap(), "\u{c3}\u{a9}");
    assert_eq!(url_decode("%a中"), None);
    assert_eq!(url_decode("").unwrap(), "");
}

#[test]
fn values_in_targets() {
    let line = "GET /api/get?key=a+b&x=&key=c HTTP/1.1";
    assert_eq!(found(get_query_param(line, "key")), Some("a b".to_string()));
    assert_eq!(found(get_query_param(line, "x")), Some("".to_string()));
    assert!(matches!(get_query_param(line, "y"), Lookup::Missing));
    assert!(matches!(get_query_param("GET", "y"), Lookup::Missing));
    assert!(matches!(get_query_param("GET /?k=%a中 x", "k"), Lookup::Broken));
    let form = b"name=a%20b&content=&type=t&content=late";
    assert_eq!(found(get_form_field_urlencoded(form, "name")), Some("a b".to_string()));
    assert_eq!(found(get_form_field_urlencoded(form, "content")), Some("late".to_string()));
    assert!(matches!(get_form_field_urlencoded(&[255, 254], "name"), Lookup::Missing));
}

#[test]
fn requests_end_where_the_head_says() {
    let head = b"POST /api/put HTTP/1.1\r\nCONTENT-length: 5\r\nX: y\r\n\r\n";
    let mut data = Vec::new();
    for b in head {
        assert_eq!(missing(&data), 1);
        data.push(*b);
    }
    assert_eq!(missing(&data), 5);
    data.extend_from_slice(b"he");
    assert_eq!(missing(&data), 3);
    data.extend_from_slice(b"llo");
    assert_eq!(missing(&data), 0);
    let r = cut_request(&data).unwrap();
    assert_eq!(r.body, b"hello");
    assert_eq!(request_line(&r.head), "POST /api/put HTTP/1.1");
    assert_eq!(body_len(&r.head), 5);
    assert_eq!(body_len("A: b\r\nContent-Length: x"), 0);
    assert!(cut_request(&[]).is_none());
    let r = cut_request(b"GET / HTTP/1.1\r\n").unwrap();
    assert_eq!((r.head.as_str(), r.body.len()), ("GET / HTTP/1", 0));
}

#[test]
fn routes() {
    assert_eq!(route("GET / HTTP/1.1"), Route::Dashboard);
    assert_eq!(route("GET /metrics HTTP/1.1"), Route::Metrics);
    assert_eq!(route("GET /manage?x=1 HTTP/1.1"), Route::Manage);
    assert_eq!(route("POST /api/put HTTP/1.1"), Route::Put);
    assert_eq!(route("GET /api/get?key=a"), Route::Get);
    assert_eq!(route("GET /api/delete"), Route::Delete);
    assert_eq!(route("POST /api/resize"), Route::Resize);
    assert_eq!(route("GET /api/benchmark"), Route::Benchmark);
    assert_eq!(route("GET /api/search?name=x"), Route::Search);
    assert_eq!(route("GET /api/put"), Route::Unknown);
    assert_eq!(route("nonsense"), Route::Dashboard);
    assert_eq!(parse_first("PUT /x y"), ("PUT".to_string(), "/x".to_string()));
    assert_eq!(request_type("A: b\r\nContent-Type: TEXT/Html; q\r\n"), "text/html; q");
    assert_eq!(request_type("A: b"), "");
}

fn multipart() -> Request {
    let head = "POST /api/put HTTP/1.1\r\nContent-Type: multipart/form-data; boundary=\"XyZ\"";
    let body: &[u8] = b"--XyZ\r\nContent-Disposition: form-data; name=\"name\"\r\n\r\ndoc\r\n\
        --XyZ\r\nContent-Disposition: form-data; name=\"file\"; filename=\"f\"\r\n\r\n\
        \x00\xff\r\n--not--\r\n\
        --XyZ\r\nContent-Disposition: form-data; name=\"type\"\r\n\r\nimage/png\r\n\
        --XyZ\r\nContent-Disposition: form-data; name=\"last\"\r\n\r\nend\r\n--XyZ--\r\n";
    Request { head: head.to_string(), body: body.to_vec() }
}

#[test]
fn forms_with_parts() {
    let r = multipart();
    let fields = parse_multipart(&r.head, &r.body).unwrap();
    let names: Vec<_> = fields.iter().map(|f| f.name.as_str()).collect();
    assert_eq!(names, ["name", "file", "type", "last"]);
    assert_eq!(fields[0].data, b"doc");
    assert_eq!(fields[1].data, b"\x00\xff\r\n--not--");
    assert_eq!(fields[2].data, b"image/png");
    assert_eq!(fields[3].data, b"end");
    let u = read_upload(&r).unwrap();
    assert_eq!((u.name.as_str(), u.content_type.as_str(), u.tags.as_str()), ("doc", "image/png", "{}"));
    assert_eq!(u.content, b"\x00\xff\r\n--not--");
    assert!(parse_multipart("Content-Type: x", &r.body).unwrap().is_empty());
    assert!(parse_multipart(&r.head, b"--XyZ\r\n--XyZ\r\n").is_none());
    assert!(parse_field_section(b"no name here").is_none());
    let f = parse_field_section(b"content-disposition: x; name=\"q\"\r\n\r\n a \n\n\r\n\r\n").unwrap();
    assert_eq!((f.name.as_str(), f.data.as_slice()), ("q", b" a \n\n\r\n\r\n".as_slice()));
    let body = b"--B\r\nContent-Disposition: form-data; name=\"a\"\r\n\r\nx\n\r\n--B\r\n\
        Content-Disposition: form-data; name=\"b\"\r\n\r\ny\r\n--B--\r\n";
    let fields =
        parse_multipart("Content-Type: multipart/form-data; boundary=B", body).unwrap();
    assert_eq!(fields.len(), 2);
    assert_eq!((fields[0].name.as_str(), fields[0].data.as_slice()), ("a", b"x\n".as_slice()));
    assert_eq!((fields[1].name.as_str(), fields[1].data.as_slice()), ("b", b"y".as_slice()));
}

#[test]
fn simple_forms() {
    let r = Request {
        head: "POST /api/put HTTP/1.1".to_string(),
        body: b"name=n&content=h%C3%A9".to_vec(),
    };
    let u = read_upload(&r).unwrap();
    assert_eq!((u.name.as_str(), u.content_type.as_str(), u.tags.as_str()), ("n", "text/plain", "{}"));
    assert_eq!(u.content, "h\u{c3}\u{a9}".as_bytes());
    let broken = Request { head: String::new(), body: "name=%a中".as_bytes().to_vec() };
    assert!(read_upload(&broken).is_none());
}

#[test]
fn uploads_are_stored_and_fetched() {
    let mut s = site();
    let r = s.put("doc", b"hello");
    assert!(text(&r).contains("<div class='success'>对象上传成功</div>"));
    assert!(r.head.starts_with("HTTP/1.1 200 OK\r\nContent-Type: text/html; charset=utf-8\r\n"));
    assert!(r.head.contains(&format!("Content-Length: {}\r\n", r.body.len())));
    assert_eq!(r.access.unwrap().op, "PUT");
    let r = s.put("doc", b"again");
    assert!(text(&r).contains("上传失败："));
    let r = s.put("", b"x");
    assert!(text(&r).contains("对象名称和内容不能为空"));
    let r = s.put("empty", b"");
    assert!(text(&r).contains("对象名称和内容不能为空"));
    let info = web_find(&s.store, &s.image, "doc", V).unwrap();
    let r = web_fetch(&s.store, &s.image, &mut s.cache, "doc", &info, V);
    assert_eq!(r.body, b"hello");
    assert_eq!(
        r.head,
        "HTTP/1.1 200 OK\r\nContent-Type: text/plain\r\nContent-Disposition: attachment; \
         filename=\"doc\"\r\nContent-Length: 5\r\nConnection: close\r\n\r\n"
    );
    assert_eq!(r.access.unwrap().op, "GET");
    let r = web_find(&s.store, &s.image, "nope", V).unwrap_err();
    assert!(text(&r).contains("对象未找到：对象未找到: nope"));
    assert!(text(&web_downloads(&s.store, &s.image, V)).contains("href='/api/get?key="));
    assert!(text(&web_deletions(&s.store, &s.image, V)).contains("href='/api/delete?key="));
}

#[test]
fn deletions_through_the_web() {
    let mut s = site();
    s.put("doc", b"hello");
    let mut writes = Vec::new();
    let r = web_delete(&mut s.store, &s.image, &mut s.cache, "doc", &mut writes, V);
    carry_out(&mut s.image, &writes);
    assert!(text(&r).contains("对象「doc」已成功删除"));
    assert_eq!(r.access.unwrap().op, "DELETE");
    assert_eq!(s.cache.len(), 0);
    let mut writes = Vec::new();
    let r = web_delete(&mut s.store, &s.image, &mut s.cache, "doc", &mut writes, V);
    assert!(text(&r).contains("<p class='error'>对象未找到: doc</p>"));
    assert!(writes.is_empty());
    assert!(text(&web_downloads(&s.store, &s.image, V)).contains("暂无对象，请先上传"));
    assert!(text(&web_deletions(&s.store, &s.image, V)).contains("暂无对象可删除"));
}

#[test]
fn capacities_through_the_web() {
    let mut s = site();
    let r = web_resize(&mut s.cache, b"capacity=7", V).unwrap();
    assert!(text(&r).contains("缓存容量已从 4 调整到 7"));
    assert!(text(&r).contains("0 / 7") && text(&r).contains("0.00%"));
    assert_eq!(s.cache.capacity(), 7);
    for bad in ["capacity=0", "capacity=x", "capacity=", "", "capacity= 7"] {
        let r = web_resize(&mut s.cache, bad.as_bytes(), V).unwrap();
        assert!(text(&r).contains("无效的容量值"), "{}", bad);
    }
    assert!(web_resize(&mut s.cache, "capacity=%a中".as_bytes(), V).is_none());
    assert_eq!(s.cache.capacity(), 7);
}

fn object(name: &str, created: &str) -> ObjectInfo {
    ObjectInfo {
        uuid: "0123456789".to_string(),
        name: name.to_string(),
        size: 3,
        content_type: "t/p".to_string(),
        created_at: created.to_string(),
        tags: "{\"who\":\"me\"}".to_string(),
        block_count: 1,
    }
}

#[test]
fn searches_through_the_web() {
    let all = vec![object("One", "2024-05-01 10:00:00"), object("two", "2024-06-01 10:00:00")];
    let none = || Query { name: None, tag: None, content_type: None, after: None, before: None };
    let names = |q: &Query| -> Option<Vec<String>> {
        web_filter(&all, q).map(|v| v.into_iter().map(|o| o.name).collect())
    };
    let some = |s: &str| Some(s.to_string());
    assert_eq!(names(&none()).unwrap().len(), 2);
    assert_eq!(names(&Query { name: some("ONE"), ..none() }).unwrap(), ["One"]);
    assert_eq!(names(&Query { tag: some("who=me"), ..none() }).unwrap().len(), 0);
    assert_eq!(names(&Query { tag: some("WHO"), ..none() }).unwrap().len(), 2);
    assert_eq!(names(&Query { after: some("2024-06-01"), ..none() }).unwrap(), ["two"]);
    assert_eq!(names(&Query { after: some("2024-06"), ..none() }).unwrap(), ["two"]);
    assert_eq!(names(&Query { before: some("2024-05-31 and more"), ..none() }).unwrap(), ["One"]);
    assert_eq!(names(&Query { after: some("202中国国"), ..none() }), None);
    assert_eq!(names(&Query { name: some("x"), after: some("202中国国"), ..none() }).unwrap().len(), 0);
    let q = read_conditions("GET /api/search?name=o&after=2024 HTTP/1.1").unwrap();
    assert_eq!((q.name, q.tag, q.after), (some("o"), None, some("2024")));
    assert!(read_conditions("GET /api/search?tag=%a中 HTTP/1.1").is_none());
    let mut s = site();
    s.put("abc", b"1");
    let r = web_search(&s.store, &s.image, &Query { name: some("B"), ..none() }, V).unwrap();
    assert!(text(&r).contains("找到 1 个结果"));
    assert!(text(&r).contains("name=B tag=— type=—"));
    let r = web_search(&s.store, &s.image, &Query { name: some("Z"), ..none() }, V).unwrap();
    assert!(text(&r).contains("无匹配结果"));
}

#[test]
fn pages_are_whole() {
    let p = page("T", "<b>x</b>", V);
    assert!(p.starts_with("<!DOCTYPE html>") && p.ends_with("</body></html>"));
    assert!(p.contains("<title>MiniOS - T</title>"));
    assert!(p.contains("<h2>T</h2><b>x</b></div>"));
    assert!(p.contains("MiniOS v0.1.0 ·"));
    assert!(!p.contains("refresh") && !p.contains("class='active'"));
    let q = page_with_refresh("T", "", true, "manage", V);
    assert!(q.contains("<meta http-equiv=\"refresh\" content=\"5\">"));
    assert!(q.contains("href=\"/manage\" class='active'>"));
    assert!(object_row(&object("n", "c")).contains("<td>3 字节</td><td>t/p</td><td>c</td>"));
}

#[test]
fn overviews() {
    let mut s = site();
    s.put("abc", &[0u8; 100]);
    let r = build_dashboard(&s.store, &s.cache, &s.region, 3700, V);
    let t = text(&r);
    let used = format!("{:.1}%", (64 - s.store.super_block.free_blocks) as f64 / 64.0 * 100.0);
    assert!(t.contains("1 时 1 分") && t.contains(&used) && t.contains("1 / 4"));
    let t = text(&build_manage_page(&s.store, &s.image, &s.cache, V));
    assert!(t.contains("对象列表（共 1 个）") && t.contains("<strong>abc</strong>"));
    assert!(t.contains("value='{{}}'"));
    let m = build_metrics(&s.store, &s.cache, &s.region, 9);
    assert!(m.starts_with(
        "# HELP minios_uptime_seconds Server uptime\n# TYPE minios_uptime_seconds gauge\n\
         minios_uptime_seconds 9\n"
    ));
    assert!(m.contains("\nminios_objects_total 1\n"));
    assert!(m.contains("\nminios_cache_hit_rate_percent 0.00\n"));
    assert!(m.contains("\nminios_cache_algorithm_info{algorithm=\"LRU\"} 1\n"));
    assert!(m.ends_with("minios_shm_pages_free 16\n"));
    let r = web_metrics(&s.store, &s.cache, &s.region, 9);
    assert!(r.head.contains("Content-Type: text/plain; version=0.0.4; charset=utf-8\r\n"));
    assert_eq!(text(&r), m);
    assert_eq!(text(&not_found()), "404\n");
    assert_eq!(
        respond("418 X", "a/b", "é").head,
        "HTTP/1.1 418 X\r\nContent-Type: a/b\r\nContent-Length: 2\r\nConnection: close\r\n\r\n"
    );
}

#[test]
fn trials_through_the_web() {
    let mut s = site();
    assert!(is_web_triable(&s.store, &s.image, &s.cache));
    let none: Vec<ObjectInfo> = Vec::new();
    assert!(run_web_trials(&none, &s.cache).is_none());
    let r = web_benchmark(&s.store, &s.image, &s.cache, V);
    assert!(text(&r).contains("暂无对象，请先上传一些文件后再进行测试"));
    for n in ["a", "b", "c", "d", "e", "f"] {
        s.put(n, b"x");
    }
    let info = web_find(&s.store, &s.image, "c", V).unwrap();
    web_fetch(&s.store, &s.image, &mut s.cache, "c", &info, V);
    let objects = s.store.list(&s.image).unwrap();
    let list = run_web_trials(&objects, &s.cache).unwrap();
    assert_eq!(list.len(), 3);
    let r = web_benchmark(&s.store, &s.image, &s.cache, V);
    let t = text(&r);
    for row in &list {
        let rate = row.hits as f64 / 200.0 * 100.0;
        assert!(t.contains(&format!("<td>{}</td><td>{:.2}%</td>", row.misses, rate)));
    }
    let best = list.iter().max_by_key(|r| r.hits).unwrap().hits;
    let first = list.iter().position(|r| r.hits == best).unwrap();
    assert!(t.contains(&format!("最优算法：{}", list[first].algorithm.as_str())));
    assert!(t.contains("6 个对象，200 次迭代，缓存容量 4"));
    assert!(t.contains(&format!("下载记录：{}...(下载 1 次), ", &info.uuid[..8])));
    let empty: Vec<minios::trials::TrialRow> = Vec::new();
    assert!(trial_body(&empty, 0, 0, 1, "").contains("最优算法：</strong>（0.00% 命中率）"));
}

#[test]
fn web_answers_by_what_the_store_said() {
    let mut c = ObjectCache::new(CacheAlgorithmType::Fifo, 2);
    let r = web_stored(Err(MiniOsError::NoSpace), vec![1], &mut c, V);
    assert!(text(&r).contains("上传失败：存储空间不足"));
    let mut m = MetricsServer::new(0);
    assert!(!m.start() && !m.running);
    let mut m = MetricsServer::new(80);
    assert!(m.start() && m.running);
    m.stop();
    assert!(!m.running);
}
