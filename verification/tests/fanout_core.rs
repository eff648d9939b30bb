//! Tests of the registry, the queue, the counters, and the per-session
//! delivery rules.

use fanout::auth::{auth_token, find_auth_key};
use fanout::conns::Conns;
use fanout::msg::{Frame, FrameAction, GroupMsg, QueueItem, WsConn};
use fanout::queue::{Queue, INGEST_CAPACITY};
use fanout::stat::Stat;
use fanout::strutil::{contains_sub, parse_i64, str_eq, strip_leading};
use fanout::util::{uniqid, unix_time, IdGen};

fn text_msg(group: &str, data: &str) -> GroupMsg {
    GroupMsg {
        group: group.to_string(),
        data: data.to_string(),
        bytes: Vec::new(),
    }
}

#[test]
fn broadcast_reaches_matching_groups_only() {
    let mut registry: Conns<WsConn> = Conns::new();
    let mut gen = IdGen::new();
    let n = 10u64;
    for i in 0..n {
        let id = uniqid(&mut gen);
        let group = if i % 2 == 0 { "g" } else { "other" };
        registry.insert(
            id,
            WsConn {
                id,
                group: group.to_string(),
            },
        );
    }
    let msg = text_msg("g", "hello");
    let mut delivered = Vec::new();
    for id in registry.stat() {
        let conn = registry.get(id).expect("registered id");
        let d = conn.accept(&msg);
        if d.send_text || d.send_binary {
            delivered.push(id);
        }
    }
    delivered.sort();
    assert_eq!(delivered, vec![1, 3, 5, 7, 9]);
}

#[test]
fn registry_insert_remove_and_snapshot() {
    let mut registry: Conns<&str> = Conns::new();
    registry.insert(1, "a");
    registry.insert(2, "b");
    registry.insert(1, "c");
    let mut ids = registry.stat();
    ids.sort();
    assert_eq!(ids, vec![1, 2]);
    assert_eq!(registry.len(), 2);
    assert_eq!(registry.get(1), Some(&"c"));
    registry.remove(1);
    registry.remove(1);
    assert_eq!(registry.get(1), None);
    assert_eq!(registry.stat(), vec![2]);
}

#[test]
fn queue_is_fifo() {
    let mut q: Queue<u32> = Queue::new();
    assert!(q.is_empty());
    for i in 0..100 {
        q.push(i);
    }
    assert_eq!(q.len(), 100);
    for i in 0..100 {
        assert_eq!(q.pop(), Some(i));
    }
    assert_eq!(q.pop(), None);
}

#[test]
fn queue_offer_refuses_beyond_capacity() {
    let mut q: Queue<u64> = Queue::new();
    let mut accepted = 0u64;
    for i in 0..(INGEST_CAPACITY as u64 + 50) {
        if q.offer(i, INGEST_CAPACITY) {
            accepted += 1;
        }
    }
    assert_eq!(accepted, INGEST_CAPACITY as u64);
    assert_eq!(q.len(), INGEST_CAPACITY);
    assert_eq!(q.pop(), Some(0));
    assert!(q.offer(9999, INGEST_CAPACITY));
    assert_eq!(q.len(), INGEST_CAPACITY);
    let mut last = 0;
    while let Some(v) = q.pop() {
        last = v;
    }
    assert_eq!(last, 9999);
}

#[test]
fn stat_counts_and_wraps_like_an_atomic() {
    let mut s = Stat::new();
    assert_eq!(s.count(), 0);
    assert_eq!(s.add(3), 0);
    assert_eq!(s.add(2), 3);
    assert_eq!(s.sub(1), 5);
    assert_eq!(s.count(), 4);
    assert_eq!(s.sub(5), 4);
    assert_eq!(s.count(), usize::MAX);
    assert_eq!(s.add(1), usize::MAX);
    assert_eq!(s.count(), 0);
}

#[test]
fn uniqid_is_monotonic_and_starts_above_zero() {
    let mut gen = IdGen::new();
    let a = uniqid(&mut gen);
    let b = uniqid(&mut gen);
    let c = uniqid(&mut gen);
    assert_eq!((a, b, c), (1, 2, 3));
    assert!(a >= 1);
}

#[test]
fn unix_time_is_after_2020() {
    assert!(unix_time() > 1_577_836_800);
}

#[test]
fn delivery_sends_only_populated_forms() {
    let conn = WsConn {
        id: 1,
        group: "g".to_string(),
    };
    let d = conn.accept(&text_msg("g", "hi"));
    assert!(d.send_text && !d.send_binary);
    let d = conn.accept(&text_msg("other", "hi"));
    assert!(!d.send_text && !d.send_binary);
    let bin = GroupMsg {
        group: "g".to_string(),
        data: String::new(),
        bytes: vec![1, 2, 3],
    };
    let d = conn.accept(&bin);
    assert!(!d.send_text && d.send_binary);
    let empty = text_msg("g", "");
    let d = conn.accept(&empty);
    assert!(!d.send_text && !d.send_binary);
}

#[test]
fn inbound_text_frame_publishes_trimmed_to_own_group() {
    let conn = WsConn {
        id: 7,
        group: "click".to_string(),
    };
    match conn.frame_reaction(Frame::Text("  {\"x\":1}  ".to_string())) {
        FrameAction::Publish(m) => {
            assert_eq!(m.group, "click");
            assert_eq!(m.data, "{\"x\":1}");
            assert!(m.bytes.is_empty());
        }
        _ => panic!("a text frame must publish"),
    }
}

#[test]
fn inbound_binary_ping_and_close_frames() {
    let conn = WsConn {
        id: 7,
        group: "g".to_string(),
    };
    match conn.frame_reaction(Frame::Binary(vec![9, 8])) {
        FrameAction::Publish(m) => {
            assert_eq!(m.group, "g");
            assert!(m.data.is_empty());
            assert_eq!(m.bytes, vec![9, 8]);
        }
        _ => panic!("a binary frame must publish"),
    }
    match conn.frame_reaction(Frame::Ping(vec![1])) {
        FrameAction::Pong(p) => assert_eq!(p, vec![1]),
        _ => panic!("a ping must be answered"),
    }
    assert!(matches!(conn.frame_reaction(Frame::Close), FrameAction::CloseReply));
    assert!(matches!(conn.frame_reaction(Frame::Other), FrameAction::Ignore));
}

#[test]
fn queue_item_carries_metadata_and_message() {
    let item = QueueItem {
        ua: "agent".to_string(),
        ip: "10.0.0.1".to_string(),
        refer: "ref".to_string(),
        data: text_msg("g", "x"),
    };
    assert_eq!(item.data.group, "g");
    assert_eq!(item.ua, "agent");
}

#[test]
fn auth_key_is_found_in_query_strings() {
    assert_eq!(find_auth_key("a=1&auth_key=s3cret&b=2"), Some("s3cret".to_string()));
    assert_eq!(find_auth_key("auth_key=tok"), Some("tok".to_string()));
    assert_eq!(find_auth_key("auth_key="), Some(String::new()));
    assert_eq!(find_auth_key("auth_key=a=b"), Some("a=b".to_string()));
    assert_eq!(find_auth_key("auth_key"), None);
    assert_eq!(find_auth_key("x=1&y=2"), None);
    assert_eq!(find_auth_key(""), None);
    assert_eq!(find_auth_key("auth_key=first&auth_key=second"), Some("first".to_string()));
    assert_eq!(find_auth_key("a&auth_key=x"), Some("x".to_string()));
    assert_eq!(find_auth_key("xauth_key=1"), None);
    assert_eq!(find_auth_key("&&auth_key=v&&"), Some("v".to_string()));
}

#[test]
fn auth_token_prefers_header_then_cookie_then_query() {
    let q = "auth_key=fromquery";
    assert_eq!(
        auth_token(Some("h".to_string()), Some("c".to_string()), q),
        Some("h".to_string())
    );
    assert_eq!(auth_token(None, Some("c".to_string()), q), Some("c".to_string()));
    assert_eq!(auth_token(None, None, q), Some("fromquery".to_string()));
    assert_eq!(auth_token(None, None, "x=1"), None);
}

#[test]
fn parse_i64_matches_decimal_syntax() {
    assert_eq!(parse_i64("0"), Some(0));
    assert_eq!(parse_i64("+17"), Some(17));
    assert_eq!(parse_i64("-17"), Some(-17));
    assert_eq!(parse_i64("9223372036854775807"), Some(i64::MAX));
    assert_eq!(parse_i64("-9223372036854775808"), Some(i64::MIN));
    assert_eq!(parse_i64("9223372036854775808"), None);
    assert_eq!(parse_i64("-9223372036854775809"), None);
    assert_eq!(parse_i64(""), None);
    assert_eq!(parse_i64("+"), None);
    assert_eq!(parse_i64("--4"), None);
    assert_eq!(parse_i64(" 4"), None);
    assert_eq!(parse_i64("4 "), None);
    assert_eq!(parse_i64("12a"), None);
    assert_eq!(parse_i64("99999999999999999999999"), None);
}

#[test]
fn string_helpers_behave() {
    assert!(str_eq("abc", "abc"));
    assert!(!str_eq("abc", "abd"));
    assert!(!str_eq("abc", "ab"));
    assert!(contains_sub("application/json", "json"));
    assert!(contains_sub("x", ""));
    assert!(!contains_sub("text", "texts"));
    assert_eq!(strip_leading("$$x", '$'), "x");
    assert_eq!(strip_leading("x$", '$'), "x$");
    assert_eq!(strip_leading("", '$'), "");
}
