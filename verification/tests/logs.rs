use campus_auto_login::json::read_json;
use campus_auto_login::logger::{
    archive_name, expired_files, is_log_name, log_files, normalize_level, sanitize_token,
    should_rotate, surplus_files, LogFile, Logger, MAX_SHARD_BYTES,
};
use campus_auto_login::logs::{
    export_logs, export_name, files_to_show, get_logs, lines, read_entry,
};
use campus_auto_login::redact::redact;

const DAY: i128 = 86_400 * 1_000_000_000;
const MIB: u64 = 1024 * 1024;

fn file(name: &str, modified: Option<i128>, size: Option<u64>) -> LogFile {
    LogFile {
        name: name.into(),
        modified,
        size,
    }
}

fn texts(list: &[&str]) -> Vec<String> {
    list.iter().map(|s| s.to_string()).collect()
}

#[test]
fn redact_secrets_and_newlines() {
    let value = redact("uid=abc token=secret\nnormal=yes");
    assert!(value.contains("uid=<redacted>"));
    assert!(value.contains("token=<redacted>"));
    assert!(!value.contains("secret"));
    assert!(!value.contains('\n'));
}

#[test]
fn redaction_finds_every_spelling() {
    assert_eq!(redact("Password : x y"), "password=<redacted> y");
    assert_eq!(redact("myuid=1 x-uid=2 z"), "myuid=1 x-uid=<redacted> z");
    assert_eq!(redact("code token"), "code token");
    assert_eq!(redact("ends with phone=138"), "ends with phone=<redacted>");
    assert_eq!(redact("a\tb\rc"), "a b c");
    assert_eq!(redact("set-cookie: A=1; Path=/"), "set-cookie=<redacted> Path=/");
}

#[test]
fn control_characters_become_spaces() {
    assert_eq!(redact("\u{7}"), " ");
    assert_eq!(redact("a\0b\u{1b}[1mc"), "a b [1mc");
    assert_eq!(redact("x\u{7f}y\u{85}z\u{9f}"), "x y z ");
    // What stands next to them is kept.
    assert_eq!(redact("\u{1f} ~\u{a0}"), "  ~\u{a0}");
    let all: String = (0..0x200).filter_map(char::from_u32).collect();
    assert!(!redact(&all).chars().any(char::is_control));
    assert_eq!(redact("uid=1\u{1}2"), "uid=<redacted> 2");
}

#[test]
fn redacted_details_are_bounded_in_bytes() {
    assert_eq!(redact(&"x".repeat(5000)).len(), 1003);
    assert_eq!(redact(&"网".repeat(5000)).len(), 1002);
    assert_eq!(redact(&"\u{85}".repeat(1000)).len(), 1000);
    assert!(redact(&"token=1 ".repeat(500)).len() <= 1003);
}

#[test]
fn secrets_leave_no_trace() {
    let keys = [
        "password",
        "passwd",
        "uid",
        "token",
        "code",
        "cookie",
        "phone",
        "satoken",
        "authorization",
        "set-cookie",
        "apartmentid",
        "roomid",
    ];
    for key in keys {
        for before in ["", "seen ", "token= ", "x uid=3 code: "] {
            for after in ["", "rest", "= 5", "phone=7 y"] {
                assert_eq!(
                    redact(&format!("{before}{key}=1 {after}")),
                    redact(&format!("{before}{key}=20260731 {after}")),
                );
            }
        }
        assert_eq!(redact(&format!("{key}=42 z")).find("42"), None);
    }
    assert_eq!(redact("set-cookie=1 z"), "set-cookie=<redacted> z");
    assert_eq!(redact("?Uid:AB-9\tz"), redact("?Uid:zzz\tz"));
    assert_eq!(redact("?Uid:AB-9\tz"), "?uid=<redacted> z");
}

#[test]
fn harmless_details_stay_as_they_are() {
    assert_eq!(redact("latency_ms=12 kind=Dns"), "latency_ms=12 kind=Dns");
    assert_eq!(redact(""), "");
}

#[test]
fn long_details_are_clipped() {
    assert_eq!(redact(&"x".repeat(1000)), "x".repeat(1000));
    assert_eq!(redact(&"x".repeat(1001)), format!("{}…", "x".repeat(1000)));
    // No character is cut in two.
    let wide = redact(&"网".repeat(334));
    assert_eq!(wide, format!("{}…", "网".repeat(333)));
}

#[test]
fn records_are_one_line_of_json() {
    let logger = Logger::new(1700000000, 42);
    assert_eq!(logger.session_id, "1700000000-42");
    let line = logger.event(123, "warning", "auth attempt!", "uid=1 say \"hi\"\u{1}");
    assert_eq!(
        line,
        "{\"detail\":\"uid=<redacted> say \\\"hi\\\" \",\"event\":\"authattempt\",\
         \"level\":\"WARN\",\"session_id\":\"1700000000-42\",\"ts\":123,\"version\":\"0.1.5\"}"
    );
    assert!(read_json(&line.into_bytes()).is_ok());
}

#[test]
fn records_fit_a_shard() {
    let logger = Logger::new(u64::MAX, u32::MAX);
    assert_eq!(logger.session_id, "18446744073709551615-4294967295");
    let longest = logger.event(u64::MAX, "WARNING", &"e".repeat(500), &"\"".repeat(5000));
    // Each quotation mark of the detail is escaped.
    assert_eq!(longest.len(), 2213);
    for detail in ["\u{1}", "\\", "网", "\u{10ffff}", "uid=1 "] {
        let line = logger.event(0, "", "", &detail.repeat(100_000));
        assert!(line.len() as u64 + 1 <= MAX_SHARD_BYTES);
        assert!(!line.contains('\n'));
    }
}

#[test]
fn texts_are_escaped_in_records() {
    let logger = Logger {
        session_id: "\u{8}\t\n\u{c}\r\u{1f}\u{7f}\"\\/é".into(),
    };
    let line = logger.event(0, "debug", "e", "d");
    assert_eq!(
        line,
        "{\"detail\":\"d\",\"event\":\"e\",\"level\":\"DEBUG\",\
         \"session_id\":\"\\b\\t\\n\\f\\r\\u001f\u{7f}\\\"\\\\/é\",\"ts\":0,\"version\":\"0.1.5\"}"
    );
}

#[test]
fn levels_and_tokens_are_normalised() {
    assert_eq!(normalize_level("Error"), "ERROR");
    assert_eq!(normalize_level("warn"), "WARN");
    assert_eq!(normalize_level("WARNING"), "WARN");
    assert_eq!(normalize_level("debug"), "DEBUG");
    assert_eq!(normalize_level("anything"), "INFO");
    assert_eq!(sanitize_token("a b/c_d-e.f网"), "abc_d-e.f");
    assert_eq!(sanitize_token(&"x".repeat(100)).len(), 80);
}

#[test]
fn logged_events_are_shown_again() {
    let logger = Logger::new(1, 2);
    let first = logger.event(10, "INFO", "auth_success", "verified=true");
    let second = logger.event(11, "error", "probe_failed", "token=abc rest");
    let third = logger.event(12, "INFO", "probe_online", "latency_ms=3");
    let content = format!("{first}\n{second}\n{third}\n");
    let entries = get_logs(&vec![None, Some(content)]);
    let shown: Vec<(&str, &str, &str, &str)> = entries
        .iter()
        .map(|e| (e.time.as_str(), e.kind.as_str(), e.label.as_str(), e.message.as_str()))
        .collect();
    assert_eq!(
        shown,
        [
            ("10", "auth", "auth_success", "verified=true"),
            ("11", "error", "probe_failed", "token=<redacted> rest"),
            ("12", "network", "probe_online", "latency_ms=3"),
        ]
    );
}

#[test]
fn other_lines_are_read_as_far_as_they_go() {
    let plain = read_entry("ts=5 level=ERROR event=x a message with spaces");
    assert_eq!(
        (plain.time, plain.kind, plain.label, plain.message),
        (
            "5".to_string(),
            "error".to_string(),
            "x".to_string(),
            "a message with spaces".to_string()
        )
    );
    let odd = read_entry("nothing");
    assert_eq!(
        (odd.time, odd.kind, odd.label, odd.message),
        (
            String::new(),
            "network".to_string(),
            "event".to_string(),
            String::new()
        )
    );
    // JSON without the usual members, and a time that is a text.
    let text_time = read_entry(r#"{"ts":"2024","event":"authx"}"#);
    assert_eq!(text_time.time, "2024");
    assert_eq!(text_time.kind, "auth");
    let list_time = read_entry(r#"{"ts":[1, 2],"level":3}"#);
    assert_eq!(list_time.time, "[1,2]");
    assert_eq!(list_time.label, "event");
    let number = read_entry("7");
    assert_eq!((number.time, number.label), (String::new(), "event".to_string()));
}

#[test]
fn lines_end_as_the_standard_library_ends_them() {
    for content in [
        "", "\n", "a", "a\n", "a\nb", "a\r\nb\r\n", "a\r", "\r\n", "a\n\nb\n", "x\ry\n", "\r\r\n",
    ] {
        let expected: Vec<String> = content.lines().map(|s| s.to_string()).collect();
        assert_eq!(lines(content), expected, "{content:?}");
    }
}

#[test]
fn files_are_shown_in_order() {
    assert_eq!(
        files_to_show(&texts(&[
            "archive-2-1.jsonl",
            "current.log",
            "archive-10-1.jsonl",
            "archive-1.log",
            "other.jsonl",
        ])),
        texts(&["archive-10-1.jsonl", "archive-2-1.jsonl", "current.log"])
    );
    assert_eq!(files_to_show(&Vec::new()), texts(&["current.log"]));
}

#[test]
fn exports_take_every_shard() {
    let logger = Logger::new(1, 2);
    assert_eq!(
        logger.export_to(&texts(&[
            "current.log",
            "notes.txt",
            "archive-b",
            "archive-a",
            "archive",
        ])),
        texts(&["archive-a", "archive-b", "current.log"])
    );
    assert_eq!(
        export_logs(Some("old".into()), Some("new\n".into())),
        "old\nnew\n\n"
    );
    assert_eq!(export_logs(None, Some("x".into())), "x\n");
    assert_eq!(export_logs(None, None), "");
    assert_eq!(export_name(1700), "diagnostics-1700.log");
}

#[test]
fn tails_are_counted_in_bytes() {
    let logger = Logger::new(1, 2);
    assert_eq!(logger.read(b"hello".to_vec(), 10), "hello");
    assert_eq!(logger.read(b"hello".to_vec(), 3), "llo");
    assert_eq!(logger.read("网x".as_bytes().to_vec(), 2), "\u{fffd}x");
    assert_eq!(logger.read(b"hello".to_vec(), 0), "");
}

#[test]
fn full_shards_are_rotated_under_a_log_name() {
    assert!(!should_rotate(None, 100));
    assert!(!should_rotate(Some(MAX_SHARD_BYTES - 100), 100));
    assert!(should_rotate(Some(MAX_SHARD_BYTES - 99), 100));
    assert!(should_rotate(Some(MAX_SHARD_BYTES - 1), 2));
    assert!(should_rotate(Some(MAX_SHARD_BYTES), 1));
    assert!(should_rotate(Some(u64::MAX), u64::MAX));
    // An empty shard has nothing to move away.
    assert!(!should_rotate(Some(0), MAX_SHARD_BYTES + 1));
    let name = archive_name(1700000000123, 77);
    assert_eq!(name, "archive-1700000000123-77.jsonl");
    assert!(is_log_name(&name));
    assert!(is_log_name("current.log"));
    assert!(!is_log_name("previous.log"));
    assert_eq!(files_to_show(&vec![name.clone()]), vec![name, "current.log".to_string()]);
}

#[test]
fn shards_stay_within_their_limit() {
    let record = 3 * MIB / 2;
    let mut current: Option<u64> = None;
    let mut archived: Vec<u64> = Vec::new();
    for _ in 0..10 {
        if should_rotate(current, record) {
            archived.extend(current.take());
        }
        current = Some(current.unwrap_or(0) + record);
        assert!(current <= Some(MAX_SHARD_BYTES));
    }
    assert_eq!(archived, [9 * MIB / 2; 3]);
    assert_eq!(current, Some(record));
}

#[test]
fn archives_expire_after_seven_days() {
    let now: u64 = 100 * 86_400;
    let week = 93 * DAY;
    let files = vec![
        file("current.log", Some(0), Some(1)),
        file("archive-old", Some(week - 1_000_000_000), Some(1)),
        file("archive-edge", Some(week), Some(1)),
        file("archive-unknown", None, Some(1)),
        file("archive-before", Some(-1), Some(1)),
        file("archive-future", Some(200 * DAY), Some(1)),
        file("foreign", Some(0), Some(1)),
    ];
    assert_eq!(expired_files(&files, now), texts(&["archive-old"]));
    assert_eq!(log_files(&files).len(), 6);
}

#[test]
fn what_is_left_is_within_the_total() {
    let files = vec![
        file("current.log", Some(99), Some(35 * MIB)),
        file("archive-a", Some(1), Some(1)),
        file("archive-b", Some(2), Some(30 * MIB)),
        file("archive-c", Some(3), Some(30 * MIB)),
    ];
    let gone = surplus_files(&files);
    assert_eq!(gone, texts(&["archive-a", "archive-b", "archive-c"]));
    let left: u64 = files
        .iter()
        .filter(|f| !gone.contains(&f.name))
        .filter_map(|f| f.size)
        .sum();
    assert_eq!(left, 35 * MIB);
}

#[test]
fn oldest_archives_go_when_the_log_is_too_large() {
    let files = vec![
        file("archive-c", Some(30), Some(10 * MIB)),
        file("current.log", Some(5), Some(4 * MIB)),
        file("archive-a", Some(10), Some(12 * MIB)),
        file("archive-b", Some(20), None),
        file("archive-d", Some(20), Some(12 * MIB)),
        file("archive-e", None, Some(2 * MIB)),
        file("foreign", Some(1), Some(100 * MIB)),
    ];
    // 40 MiB together: the two oldest go, the foreign file does not count.
    assert_eq!(surplus_files(&files), texts(&["archive-e", "archive-a"]));
    let small = vec![
        file("archive-a", Some(1), Some(35 * MIB)),
        file("current.log", Some(1), Some(0)),
    ];
    assert_eq!(surplus_files(&small), Vec::<String>::new());
    // The current shard stays, however large it is.
    let large = vec![
        file("current.log", Some(1), Some(90 * MIB)),
        file("archive-a", Some(2), Some(1)),
    ];
    assert_eq!(surplus_files(&large), texts(&["archive-a"]));
}
