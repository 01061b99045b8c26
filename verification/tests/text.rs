//! Texts, sizes, messages and the access log.
use minios::access_log::{escape_json, AccessLog, AccessRecord};
use minios::config::{CliArgs, LogLevel};
use minios::ipc::{frame_message, frame_response, message_len, request_len, IpcClient, IpcServer};
use minios::search::{object_meets, pair_pattern, search, Query};
use minios::rates::{show_exact_percent, show_percent};
use minios::sizes::{fmt_bytes, fmt_uptime, human_readable_size};
use minios::metadata::ObjectInfo;
use minios::text::{chars_of, same_text, string_of};
use minios::words::{less, parse_unsigned, split_lines, split_on, split_words, strip, trim};

fn strings(v: Vec<Vec<char>>) -> Vec<String> {
    v.into_iter().map(|c| c.into_iter().collect()).collect()
}

#[test]
fn text_of_characters() {
    assert_eq!(string_of(&chars_of("héllo")), "héllo");
    assert!(same_text("a", "a") && !same_text("a", "b") && !same_text("a", "ab"));
}

#[test]
fn splitting_as_the_standard_library_does() {
    for s in ["", "a", "a:b::c", ":", "a\r\nb\n\nc", "x\r", "\n", " a  b\tc ", "\u{3000}z"] {
        let c = chars_of(s);
        assert_eq!(strings(split_on(&c, ':')), s.split(':').collect::<Vec<_>>());
        assert_eq!(strings(split_lines(&c)), s.lines().collect::<Vec<_>>());
        assert_eq!(strings(split_words(&c)), s.split_whitespace().collect::<Vec<_>>());
        assert_eq!(string_of(&trim(&c)), s.trim());
        assert_eq!(string_of(&strip(&c, ':')), s.trim_matches(':'));
    }
}

#[test]
fn numbers_as_the_standard_library_reads_them() {
    for s in ["0", "7", "+7", "-7", "", "+", "007", "18446744073709551615",
        "18446744073709551616", "4294967295", "4294967296", "1 ", "9x"]
    {
        let c = chars_of(s);
        assert_eq!(parse_unsigned(&c, u64::MAX), s.parse::<u64>().ok(), "{}", s);
        assert_eq!(parse_unsigned(&c, u32::MAX as u64), s.parse::<u32>().ok().map(|n| n as u64));
    }
}

#[test]
fn order_as_the_standard_library_has_it() {
    for a in ["", "a", "ab", "b", "é", "中"] {
        for b in ["", "a", "ab", "b", "é", "中"] {
            assert_eq!(less(&chars_of(a), &chars_of(b)), a < b);
        }
    }
}

fn by_floats(bytes: u64, units: &[&str], whole: bool) -> String {
    let mut size = bytes as f64;
    let mut k = 0;
    while size >= 1024.0 && k < units.len() - 1 {
        size /= 1024.0;
        k += 1;
    }
    if k == 0 && whole {
        format!("{} {}", bytes, units[k])
    } else {
        format!("{:.2} {}", size, units[k])
    }
}

#[test]
fn sizes_as_floats_show_them() {
    let mut n: u64 = 1;
    let mut list = vec![0, 1, 512, 1023, 1024, 1536, 1048575, 1048576, 10240 + 5, 123456789,
        u64::MAX, u64::MAX - 1, 1 << 53, (1 << 53) + 1, 999 << 40];
    for i in 0..200u64 {
        n = n.wrapping_mul(6364136223846793005).wrapping_add(i);
        list.push(n >> (i % 64));
    }
    for b in list {
        assert_eq!(human_readable_size(b), by_floats(b, &["B", "KB", "MB", "GB", "TB"], true));
        assert_eq!(fmt_bytes(b), by_floats(b, &["B", "KB", "MB", "GB"], false));
    }
    assert_eq!(human_readable_size(0), "0 B");
    assert_eq!(human_readable_size(1024), "1.00 KB");
    assert_eq!(human_readable_size(1048576), "1.00 MB");
    assert_eq!(fmt_bytes(1536), "1.50 KB");
}

#[test]
fn uptimes() {
    assert_eq!(fmt_uptime(30), "30 秒");
    assert_eq!(fmt_uptime(330), "5 分 30 秒");
    assert_eq!(fmt_uptime(8100), "2 时 15 分");
}

#[test]
fn frames() {
    let f = frame_message(b"hello").unwrap();
    assert_eq!(f, [0, 0, 0, 5, b'h', b'e', b'l', b'l', b'o']);
    assert_eq!(message_len(&f[..4]).unwrap(), 5);
    assert_eq!(request_len(&frame_response(b"").unwrap()).unwrap(), 0);
    let long = vec![0u8; 65537];
    let e = frame_message(&long).unwrap_err().message();
    assert!(e.contains("65537") && e.contains("65536"), "{}", e);
    assert!(frame_response(&long).is_err());
    assert!(frame_message(&long[..65536]).is_ok());
    assert!(message_len(&[0, 1, 0, 1]).is_err());
    assert_eq!(message_len(&[0, 1, 0, 0]).unwrap(), 65536);
    assert!(request_len(&[255, 0, 0, 0]).is_err());
}

#[test]
fn ends_of_the_connection() {
    assert_eq!(IpcClient::new("/tmp/s").socket_path, "/tmp/s");
    let mut s = IpcServer::new("/tmp/s");
    assert!(!s.is_running());
    assert_eq!(s.start(0), 1);
    assert_eq!(s.start(4), 4);
    assert!(s.is_running());
    assert_eq!(s.socket_path(), "/tmp/s");
    s.stop();
    assert!(!s.is_running());
}

#[test]
fn the_log_is_json() {
    let a = AccessRecord {
        op: "PUT".to_string(),
        name: "a \"b\" \\ c".to_string(),
        uuid: "u".to_string(),
        size: 12,
        content_type: "t/p".to_string(),
        tags: "{\"k\":\"v\"}".to_string(),
    };
    let log = AccessLog::new("x.log", true);
    let line = log.record("2024-01-02 03:04:05", &a).unwrap();
    let v: serde_json::Value = serde_json::from_str(&line).unwrap();
    assert_eq!(v["ts"], "2024-01-02 03:04:05");
    assert_eq!(v["op"], "PUT");
    assert_eq!(v["name"], "a \"b\" \\ c");
    assert_eq!(v["size"], 12);
    assert_eq!(v["tags"]["k"], "v");
    assert_eq!(AccessLog::new("", true).record("", &a), None);
    assert_eq!(AccessLog::new("x", false).record("", &a), None);
    assert!(AccessLog::wants_file("x") && !AccessLog::wants_file(""));
    assert_eq!(escape_json("a\"b\\c"), "a\\\"b\\\\c");
    assert_eq!(escape_json("a\nb\u{1f}中"), "a\\u000Ab\\u001F中");
    for text in ["", "plain", "\t\"\\\r\n\u{0}", "\\u000a"] {
        let json = format!("\"{}\"", escape_json(text));
        assert_eq!(serde_json::from_str::<String>(&json).unwrap(), text);
    }
}

#[test]
fn settings_and_levels() {
    let c = CliArgs::default();
    assert_eq!(c.block_size, 4096);
    assert_eq!(c.socket_path, "/tmp/minios.sock");
    assert_eq!(LogLevel::named("WARN"), LogLevel::Warn);
    assert_eq!(LogLevel::named("trace"), LogLevel::Trace);
    assert_eq!(LogLevel::named("Debug"), LogLevel::Debug);
    assert_eq!(LogLevel::named("error"), LogLevel::Error);
    assert_eq!(LogLevel::named("info"), LogLevel::Info);
    assert_eq!(LogLevel::named("loud"), LogLevel::Info);
}

fn object(name: &str, created: &str, tags: &str, kind: &str) -> ObjectInfo {
    ObjectInfo {
        uuid: "u".to_string(),
        name: name.to_string(),
        size: 1,
        content_type: kind.to_string(),
        created_at: created.to_string(),
        tags: tags.to_string(),
        block_count: 1,
    }
}

fn query() -> Query {
    Query { name: None, tag: None, content_type: None, after: None, before: None }
}

#[test]
fn searches() {
    let all = vec![
        object("Photo.PNG", "2024-05-01 10:00:00", "{\"who\":\"me\"}", "image/png"),
        object("notes", "2024-05-02 00:00:00", "{}", "text/plain"),
    ];
    let names = |q: &Query| -> Vec<String> {
        search(&all, q).into_iter().map(|o| o.name).collect()
    };
    assert_eq!(names(&query()).len(), 2);
    assert_eq!(names(&Query { name: Some("pHOTO".to_string()), ..query() }), ["Photo.PNG"]);
    assert_eq!(names(&Query { tag: Some(" who = me ".to_string()), ..query() }), ["Photo.PNG"]);
    assert!(names(&Query { tag: Some("who=ME".to_string()), ..query() }).is_empty());
    assert_eq!(names(&Query { tag: Some("WHO".to_string()), ..query() }), ["Photo.PNG"]);
    assert_eq!(names(&Query { content_type: Some("TEXT".to_string()), ..query() }), ["notes"]);
    assert_eq!(names(&Query { after: Some("2024-05-02".to_string()), ..query() }), ["notes"]);
    assert_eq!(names(&Query { before: Some("2024-05-01".to_string()), ..query() }), ["Photo.PNG"]);
    assert_eq!(names(&Query { after: Some("soon".to_string()), ..query() }).len(), 2);
    assert_eq!(pair_pattern("a=b").unwrap(), "\"a\":\"b\"");
    assert_eq!(pair_pattern("ab"), None);
    let odd = object("x", "never", "{}", "t");
    assert!(object_meets(&odd, &Query { before: Some("1970-01-01".to_string()), ..query() }));
    assert!(!object_meets(&odd, &Query { after: Some("1970-01-02".to_string()), ..query() }));
}

#[test]
fn percentages_as_floats_show_them() {
    let mut seed: u64 = 7;
    let mut next = |bits: u32| {
        seed = seed.wrapping_mul(6364136223846793005).wrapping_add(1442695040888963407);
        seed >> (64 - bits)
    };
    for bits in [4, 8, 12, 20, 33, 52, 53, 54, 60, 63] {
        for _ in 0..300 {
            let whole = next(bits).max(1);
            let part = next(bits) % (whole + 1);
            let rate = part as f64 / whole as f64 * 100.0;
            assert_eq!(show_percent(part, whole as u128), format!("{:.1}", rate));
            assert_eq!(show_exact_percent(part, whole as u128), format!("{:.2}", rate));
        }
    }
    assert_eq!(show_percent(0, 0), "0.0");
    assert_eq!(show_exact_percent(1, 3), "33.33");
    assert_eq!(show_exact_percent(187, 200), "93.50");
    assert_eq!(show_percent(1, 16), "6.2");
    assert_eq!(show_percent(u64::MAX, u64::MAX as u128), "100.0");
    assert_eq!(show_exact_percent(1, u64::MAX as u128), "0.00");
}

#[test]
fn white_space_is_that_of_unicode() {
    let white = [
        0x9u32, 0xa, 0xb, 0xc, 0xd, 0x20, 0x85, 0xa0, 0x1680, 0x2000, 0x2001, 0x2002, 0x2003,
        0x2004, 0x2005, 0x2006, 0x2007, 0x2008, 0x2009, 0x200a, 0x2028, 0x2029, 0x202f, 0x205f,
        0x3000,
    ];
    for n in 0..=0x10ffffu32 {
        if let Some(c) = char::from_u32(n) {
            assert_eq!(trim(&[c]).is_empty(), white.contains(&n), "{:x}", n);
        }
    }
}
