//! The client.
use minios::client::{
    already_running, benchmark_reply, cache_reply, check_tags, daemon_args, delete_reply,
    done_message, end_process, ended_process, fetched_reply, get_message, is_showable, is_stdout,
    judge_tags, list_reply, no_file, output_path, parse_pid, put_message, ready_reply, search_reply,
    status_reply, stop_failed, stop_reply, stored_reply, unreadable_file, unwritable_file, Client,
    Ending, Outcome, Plan, Stopping, Transfer,
};
use minios::client_texts::{downloaded, downloading, uploading, wrote};
use minios::config::{CliArgs, ClientCommand};
use minios::error::MiniOsError;
use minios::ipc::{
    error_message, ok_message, CacheBenchmarkEntry, CacheSweepRow, ClientMessage, ServerMessage,
    StatusReport,
};
use minios::metadata::ObjectInfo;

fn client() -> Client {
    Client::new(CliArgs::default())
}

fn ask(c: ClientCommand) -> (String, ClientMessage) {
    match client().execute(&c) {
        Plan::Ask { notice, message } => (notice, message),
        _ => panic!("nothing to ask"),
    }
}

fn printed(o: Outcome) -> String {
    match o {
        Outcome::Print(t) => t,
        other => panic!("{:?}", other),
    }
}

fn complaint(o: Outcome) -> String {
    match o {
        Outcome::Complain(t) => t,
        other => panic!("{:?}", other),
    }
}

fn object(name: &str) -> ObjectInfo {
    ObjectInfo {
        uuid: "0b1c".to_string(),
        name: name.to_string(),
        size: 2048,
        content_type: "t/p".to_string(),
        created_at: "2024-01-02 03:04:05".to_string(),
        tags: "{}".to_string(),
        block_count: 3,
    }
}

#[test]
fn commands_become_requests() {
    assert_eq!(client().ipc.socket_path, "/tmp/minios.sock");
    let (n, m) = ask(ClientCommand::Delete { key: "k".to_string() });
    assert_eq!(n, "Deleting 'k'...\n");
    assert!(matches!(m, ClientMessage::Delete { key } if key == "k"));
    let (n, m) = ask(ClientCommand::List { long_format: true });
    assert!(n.is_empty() && matches!(m, ClientMessage::List));
    let (_, m) = ask(ClientCommand::Status);
    assert!(matches!(m, ClientMessage::Status));
    let (n, m) = ask(ClientCommand::CacheResize { capacity: 12 });
    assert_eq!(n, "Resizing cache to 12 entries...\n");
    assert!(matches!(m, ClientMessage::CacheResize { capacity: 12 }));
    let (n, m) = ask(ClientCommand::CacheSwitch { algorithm: "lfu".to_string() });
    assert_eq!(n, "Switching cache algorithm to lfu...\n");
    assert!(matches!(m, ClientMessage::CacheSwitch { algorithm } if algorithm == "lfu"));
    let (n, m) = ask(ClientCommand::CacheBenchmark { iterations: 5, sweep: true });
    assert_eq!(n, "Running cache benchmark (5 iterations, sweep mode)...\n\n");
    assert!(matches!(m, ClientMessage::CacheBenchmark { iterations: 5, sweep: true }));
    let (n, _) = ask(ClientCommand::CacheBenchmark { iterations: 5, sweep: false });
    assert!(n.contains("standard mode"));
    let (_, m) = ask(ClientCommand::Search {
        name: Some("n".to_string()),
        tag: None,
        content_type: None,
        after: None,
        before: Some("b".to_string()),
    });
    match m {
        ClientMessage::Search { name, tag, before, .. } => {
            assert_eq!((name.as_deref(), tag, before.as_deref()), (Some("n"), None, Some("b")));
        }
        other => panic!("{:?}", other),
    }
    assert!(matches!(client().execute(&ClientCommand::Start { daemon: true }), Plan::Start { daemon: true }));
    assert!(matches!(client().execute(&ClientCommand::Stop), Plan::Stop));
    let put = ClientCommand::Put {
        name: "n".to_string(),
        file: "f".to_string(),
        content_type: "c".to_string(),
        tags: "{}".to_string(),
    };
    assert!(matches!(client().execute(&put), Plan::Upload { file, .. } if file == "f"));
    let get = ClientCommand::Get { key: "k".to_string(), output: None };
    assert!(matches!(client().execute(&get), Plan::Download { output: None, .. }));
}

#[test]
fn simple_replies() {
    assert_eq!(printed(delete_reply(&ok_message("gone".to_string()))), "✓ gone\n");
    assert_eq!(printed(delete_reply(&ServerMessage::Done { message: None })), "✓ Deleted\n");
    assert_eq!(printed(cache_reply(&ServerMessage::Done { message: None })), "✓ \n");
    let e = error_message("CODE", "text".to_string());
    assert_eq!(complaint(delete_reply(&e)), "Error [CODE]: text\n");
    assert_eq!(complaint(search_reply(&e)), "错误 [CODE]: text\n");
    assert!(matches!(
        delete_reply(&ServerMessage::ObjectList { objects: vec![] }),
        Outcome::Unexpected
    ));
    assert!(matches!(search_reply(&ok_message("x".to_string())), Outcome::Unexpected));
}

#[test]
fn lists_are_tables() {
    let none = ServerMessage::ObjectList { objects: vec![] };
    assert_eq!(printed(list_reply(&none, true)), "No objects stored.\n");
    assert_eq!(printed(search_reply(&none)), "没有匹配的对象。\n");
    let long_name = "a-rather-long-name-of-a-file";
    let m = ServerMessage::ObjectList { objects: vec![object("n"), object(long_name)] };
    assert!(is_showable(&m));
    let row = |name: &str| {
        format!("{:<38} {:<24} {:<12} {:<20} {:<16}\n", "0b1c", name, "2.00 KB",
            "2024-01-02 03:04:05", "t/p")
    };
    let head = format!("{:<38} {:<24} {:<12} {:<20} {:<16}\n", "UUID", "Name", "Size", "Created", "Type");
    let cut = format!("{}...", &long_name[..20]);
    assert_eq!(
        printed(list_reply(&m, true)),
        format!("Objects: 2\n\n{}{}\n{}{}", head, "-".repeat(120), row("n"), row(&cut))
    );
    let short = printed(list_reply(&m, false));
    assert!(short.contains(&format!("{:<38} {:<24} {:<12}\n{}\n", "UUID", "Name", "Size", "-".repeat(80))));
    let head = format!("{:<38} {:<24} {:<12} {:<20} {:<16}\n", "UUID", "名称", "大小", "创建时间", "类型");
    assert_eq!(
        printed(search_reply(&m)),
        format!("找到 2 个对象:\n\n{}{}\n{}{}", head, "-".repeat(120), row("n"), row(&cut))
    );
    let odd = ServerMessage::ObjectList { objects: vec![object("中中中中中中中中中中")] };
    assert!(!is_showable(&odd));
    let fine = ServerMessage::ObjectList { objects: vec![object("中中中中中中中")] };
    assert!(is_showable(&fine));
    assert!(is_showable(&ok_message("x".to_string())));
}

#[test]
fn figures_are_shown() {
    let t = StatusReport {
        total_blocks: 100,
        free_blocks: 40,
        used_blocks: 60,
        block_size: 4096,
        object_count: 7,
        max_objects: 10,
        total_capacity: 409600,
        used_capacity: 245760,
        free_capacity: 163840,
        cache_hits: 1,
        cache_misses: 2,
        cache_evictions: 3,
        cache_size: 4,
        cache_capacity: 5,
        cache_algorithm: "lru".to_string(),
        shm_pages_total: 6,
        shm_pages_free: 5,
        uptime_seconds: 125,
    };
    assert!(already_running("/s", &None).ends_with("(socket /s exists).\n"));
    let text = printed(status_reply(&ServerMessage::Status(t), "33.33"));
    assert!(text.starts_with("=== MiniOS Server Status ===\n\n  Uptime:           2m 5s\n\n"));
    assert!(text.contains("  Objects:          7 / 10\n"));
    assert!(text.contains("  Capacity:         240.00 KB / 400.00 KB (160.00 KB free)\n"));
    assert!(text.contains("  Data blocks:      60 used / 40 free / 100 total (4.00 KB each)\n"));
    assert!(text.contains("  Hit rate:         33.33%\n"));
    assert!(text.ends_with("  Pages:            5 free / 6 total\n"));
    assert_eq!(complaint(status_reply(&error_message("C", "t".to_string()), "")), "Error [C]: t\n");
}

#[test]
fn trials_are_shown() {
    let entry = |a: &str, h: u64| CacheBenchmarkEntry {
        algorithm: a.to_string(),
        hits: h,
        misses: 10 - h,
        evictions: 0,
    };
    let m = ServerMessage::CacheBenchmarkResult {
        benchmarks: vec![entry("lru", 9), entry("fifo", 8), entry("lfu", 7), entry("x", 6)],
        workload_keys: 3,
        iterations: 10,
    };
    let rates: Vec<String> = ["90.00", "80.00", "70.00", "60.00"].iter().map(|s| s.to_string()).collect();
    let text = printed(benchmark_reply(&m, &rates));
    let line = |r: &str, a: &str, h: u64, p: &str| {
        format!("  {:<6} {:<12} {:<12} {:<12} {}%\n", r, a, h, 10 - h, p)
    };
    let mut expected = "  Workload:  3 unique objects, 10 iterations\n\n".to_string();
    expected.push_str(&format!("  {:<6} {:<12} {:<12} {:<12} {:<12}\n", "Rank", "Algorithm", "Hits", "Misses", "Hit Rate"));
    expected.push_str(&format!("  {:-<60}\n", ""));
    expected.push_str(&line("1st", "lru", 9, "90.00"));
    expected.push_str(&line("2nd", "fifo", 8, "80.00"));
    expected.push_str(&line("3rd", "lfu", 7, "70.00"));
    expected.push_str(&line("4.", "x", 6, "60.00"));
    expected.push_str("\n  Best algorithm: lru (90.00% hit rate)\n");
    assert_eq!(text, expected);
    let row = |a: &str, c: usize, h: u64| CacheSweepRow {
        algorithm: a.to_string(),
        capacity: c,
        hits: h,
        misses: 10 - h,
    };
    let m = ServerMessage::CacheBenchmarkSweep {
        rows: vec![row("lru", 8, 9), row("lfu", 4, 5)],
        workload_keys: 3,
        iterations: 10,
    };
    let rates: Vec<String> = ["90.00", "50.00"].iter().map(|s| s.to_string()).collect();
    let text = printed(benchmark_reply(&m, &rates));
    assert!(text.contains(&format!("  {:<8} {:<8} {:<10} {:<10} {}%\n", 8, "lru", 9, 1, "90.00")));
    assert!(text.ends_with(
        "\n  Top 3 (algorithm, capacity) configurations:\n    1. lru @ cap=8 → 90.00% hit rate\n    \
         2. lfu @ cap=4 → 50.00% hit rate\n"
    ));
    let e = error_message("NO_OBJECTS", "t".to_string());
    assert_eq!(complaint(benchmark_reply(&e, &Vec::new())), "Error [NO_OBJECTS]: t\n");
}

#[test]
fn tags_have_to_be_json() {
    assert!(check_tags("{}").is_ok());
    assert!(check_tags("{\"a\":\"b\"}").is_ok());
    assert!(check_tags("[1, 2]").is_ok());
    match check_tags("{oops") {
        Err(MiniOsError::InvalidArgument(m)) => {
            let e = serde_json::from_str::<serde_json::Value>("{oops").unwrap_err();
            assert_eq!(m, format!("Invalid tags JSON: {}", e));
        }
        other => panic!("{:?}", other),
    }
    assert!(judge_tags("{}", Some("e".to_string())).is_ok());
    assert!(judge_tags("x", None).is_ok());
    assert!(judge_tags("x", Some("e".to_string())).is_err());
}

#[test]
fn exchanges_of_data() {
    let ready = ServerMessage::DataReady {
        uuid: "u".to_string(),
        start_page: 3,
        page_count: 2,
        page_size: 64,
        data_size: 100,
    };
    match ready_reply(&ready) {
        Transfer::Pages { uuid, start, count, size } => {
            assert_eq!((uuid.as_str(), start, count, size), ("u", 3, 2, 100));
        }
        other => panic!("{:?}", other),
    }
    let e = error_message("C", "t".to_string());
    assert!(matches!(ready_reply(&e), Transfer::Over(Outcome::Complain(_))));
    assert!(matches!(ready_reply(&ok_message(String::new())), Transfer::Over(Outcome::Unexpected)));
    assert!(matches!(done_message("u", 2), ClientMessage::DataDone { pages_used: 2, .. }));
    assert!(matches!(put_message("n", 5, "c", "{}"), ClientMessage::Put { size: 5, .. }));
    assert!(matches!(get_message("k"), ClientMessage::Get { key } if key == "k"));
    let text = printed(stored_reply(&ServerMessage::ObjectInfo(object("n"))));
    assert_eq!(
        text,
        "\n✓ Object stored successfully!\n  UUID:        0b1c\n  Name:        n\n  \
         Size:        2048 (2.00 KB)\n  Type:        t/p\n  Created:     2024-01-02 03:04:05\n  \
         Tags:        {}\n  Data blocks: 3\n"
    );
    assert_eq!(fetched_reply(&ServerMessage::ObjectInfo(object("n"))).unwrap().name, "n");
    assert!(fetched_reply(&e).is_err());
    assert_eq!(uploading("f", 9, "t", "n"), "Uploading 'f' (9 bytes, type=t) as 'n'...\n");
    assert_eq!(wrote(9, 3, 2), "  Wrote 9 bytes to shared memory (pages 3-4)\n");
    assert_eq!(downloading("k"), "Downloading 'k'...\n");
    assert_eq!(downloaded("k", "p", 9, "t"), "✓ Downloaded 'k' -> 'p' (9 bytes, type=t)\n");
    assert_eq!(output_path(&None, "n"), "n");
    assert_eq!(output_path(&Some("-".to_string()), "n"), "-");
    assert!(is_stdout("-") && !is_stdout("x"));
    assert_eq!(no_file("p").message(), "客户端错误: File not found: p");
    assert_eq!(unreadable_file("p", "e").message(), "客户端错误: Cannot read file 'p': e");
    assert_eq!(unwritable_file("p", "e").message(), "客户端错误: Cannot write output file 'p': e");
}

#[test]
fn starting_and_stopping() {
    let args = daemon_args(&CliArgs::default());
    assert_eq!(args.len(), 23);
    assert_eq!(args[0], "--server");
    assert_eq!((args[5].as_str(), args[6].as_str()), ("--shm-size", "16777216"));
    assert_eq!((args[21].as_str(), args[22].as_str()), ("--log-level", "info"));
    assert!(matches!(stop_reply(&ServerMessage::Done { message: None }), Stopping::Stopped(t) if t == "✓ Server stopped\n"));
    assert!(matches!(stop_reply(&error_message("C", "t".to_string())), Stopping::Force(t) if t == "Error [C]: t\n"));
    assert!(matches!(stop_reply(&ServerMessage::ObjectList { objects: vec![] }), Stopping::Nothing));
    assert!(matches!(stop_failed("e"), Stopping::Force(t) if t == "Could not connect to server: e\n"));
    assert_eq!(parse_pid(" 123\n"), Some(123));
    assert_eq!(parse_pid("-1"), None);
    assert_eq!(parse_pid("4294967296"), None);
    assert!(matches!(end_process(None, true), Ending::Unknown));
    assert!(matches!(end_process(Some(5), false), Ending::Gone(t) if t == "Server process 5 is not running.\n"));
    assert!(matches!(end_process(Some(5), true), Ending::Terminate { pid: 5, .. }));
    let (kill, text) = ended_process(5, true);
    assert!(kill.is_some());
    assert_eq!(text, "✓ Server process 5 terminated.\n");
    assert!(ended_process(5, false).0.is_none());
}
