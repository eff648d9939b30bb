//! Tests of the ingestion edge and the dispatcher's persistence decisions.

use fanout::dispatch::{
    build_record_from_bytes, build_record_from_text, plan_item, refer_value, ReferState,
    PERSIST_CEILING,
};
use fanout::ingest::{content_is_textual, ingest_message, IngestError};
use fanout::msg::{GroupMsg, QueueItem};

fn item_with_text(data: &str) -> QueueItem {
    QueueItem {
        ua: "agent".to_string(),
        ip: "10.0.0.1".to_string(),
        refer: "https://ref".to_string(),
        data: GroupMsg {
            group: "click".to_string(),
            data: data.to_string(),
            bytes: Vec::new(),
        },
    }
}

fn item_with_bytes(bytes: Vec<u8>) -> QueueItem {
    QueueItem {
        ua: "agent".to_string(),
        ip: "10.0.0.1".to_string(),
        refer: String::new(),
        data: GroupMsg {
            group: "click".to_string(),
            data: String::new(),
            bytes,
        },
    }
}

#[test]
fn content_type_classification() {
    assert!(content_is_textual("application/json"));
    assert!(content_is_textual("text/plain; charset=utf-8"));
    assert!(!content_is_textual("application/octet-stream"));
    assert!(!content_is_textual(""));
}

#[test]
fn textual_body_is_decoded_and_trimmed() {
    let r = ingest_message("click".to_string(), "application/json", b"  {\"x\":1} \n".to_vec());
    let m = r.expect("valid UTF-8 must be accepted");
    assert_eq!(m.group, "click");
    assert_eq!(m.data, "{\"x\":1}");
    assert!(m.bytes.is_empty());
}

#[test]
fn invalid_utf8_text_is_rejected() {
    let r = ingest_message("g".to_string(), "text/plain", vec![0xff, 0xfe]);
    assert!(matches!(r, Err(IngestError::BadEncoding)));
}

#[test]
fn multibyte_text_is_decoded_faithfully() {
    let body = "caf\u{e9} \u{4e2d}\u{6587}".as_bytes().to_vec();
    let r = ingest_message("g".to_string(), "text/plain", body);
    let m = r.expect("valid multibyte UTF-8 must be accepted");
    assert_eq!(m.data, "caf\u{e9} \u{4e2d}\u{6587}");
}

#[test]
fn binary_body_is_kept_whole() {
    let body = vec![0xff, 0x00, 0x10];
    let r = ingest_message("g".to_string(), "application/octet-stream", body.clone());
    let m = r.expect("binary bodies are always accepted");
    assert!(m.data.is_empty());
    assert_eq!(m.bytes, body);
}

#[test]
fn oversize_payload_is_never_persisted() {
    let big = "x".repeat(PERSIST_CEILING);
    let plan = plan_item(&item_with_text(&big), true);
    assert!(!plan.persist_text && !plan.persist_binary);
    let plan = plan_item(&item_with_bytes(vec![7; PERSIST_CEILING]), true);
    assert!(!plan.persist_text && !plan.persist_binary);
}

#[test]
fn small_payload_is_persisted_when_store_ready() {
    let plan = plan_item(&item_with_text("{\"x\":1}"), true);
    assert!(plan.persist_text && !plan.persist_binary);
    let plan = plan_item(&item_with_text("{\"x\":1}"), false);
    assert!(!plan.persist_text && !plan.persist_binary);
    let plan = plan_item(&item_with_bytes(vec![1, 2]), true);
    assert!(!plan.persist_text && plan.persist_binary);
    let plan = plan_item(&item_with_text(""), true);
    assert!(!plan.persist_text);
}

#[test]
fn boundary_just_below_ceiling_is_persisted() {
    let almost = "x".repeat(PERSIST_CEILING - 1);
    let plan = plan_item(&item_with_text(&almost), true);
    assert!(plan.persist_text);
}

#[test]
fn refer_policy_fills_absent_or_empty_only() {
    let fallback = "https://ref".to_string();
    assert_eq!(refer_value(&ReferState::Absent, &fallback), Some(fallback.clone()));
    assert_eq!(refer_value(&ReferState::NotText, &fallback), Some(fallback.clone()));
    assert_eq!(refer_value(&ReferState::Text(String::new()), &fallback), Some(fallback.clone()));
    assert_eq!(refer_value(&ReferState::Text("kept".to_string()), &fallback), None);
}

#[test]
fn ingested_record_is_enriched() {
    let item = item_with_text("{\"x\":1}");
    let rec = build_record_from_text("{\"x\":1}", &item, 1_700_000_123)
        .expect("an object must be persisted");
    assert_eq!(rec.get("x").and_then(|v| v.as_u64()), Some(1));
    assert_eq!(rec.get("time").and_then(|v| v.as_u64()), Some(1_700_000_123));
    assert_eq!(rec.get("ip").and_then(|v| v.as_str()), Some("10.0.0.1"));
    assert_eq!(rec.get("ua").and_then(|v| v.as_str()), Some("agent"));
    assert_eq!(rec.get("refer").and_then(|v| v.as_str()), Some("https://ref"));
}

#[test]
fn record_with_empty_refer_gets_metadata() {
    let item = item_with_text("ignored");
    let rec = build_record_from_text("{\"refer\":\"\"}", &item, 1).unwrap();
    assert_eq!(rec.get("refer").and_then(|v| v.as_str()), Some("https://ref"));
}

#[test]
fn record_with_own_refer_keeps_it() {
    let item = item_with_text("ignored");
    let rec = build_record_from_text("{\"refer\":\"mine\"}", &item, 1).unwrap();
    assert_eq!(rec.get("refer").and_then(|v| v.as_str()), Some("mine"));
}

#[test]
fn record_with_non_text_refer_gets_metadata() {
    let item = item_with_text("ignored");
    let rec = build_record_from_text("{\"refer\":7}", &item, 1).unwrap();
    assert_eq!(rec.get("refer").and_then(|v| v.as_str()), Some("https://ref"));
}

#[test]
fn empty_metadata_refer_is_written_as_empty_string() {
    let item = item_with_bytes(b"{\"x\":1}".to_vec());
    let rec = build_record_from_bytes(&b"{\"x\":1}".to_vec(), &item, 9).unwrap();
    assert_eq!(rec.get("refer").and_then(|v| v.as_str()), Some(""));
    assert_eq!(rec.get("x").and_then(|v| v.as_u64()), Some(1));
}

#[test]
fn undecodable_bytes_are_not_persisted() {
    let item = item_with_bytes(vec![0xff, 0xfe]);
    assert!(build_record_from_bytes(&vec![0xff, 0xfe], &item, 1).is_none());
}

#[test]
fn non_object_or_malformed_payload_is_not_persisted() {
    let item = item_with_text("ignored");
    assert!(build_record_from_text("[1,2,3]", &item, 1).is_none());
    assert!(build_record_from_text("42", &item, 1).is_none());
    assert!(build_record_from_text("{broken", &item, 1).is_none());
}

#[test]
fn posted_click_event_round_trip() {
    let body = b"{\"x\":1}".to_vec();
    let msg = ingest_message("click".to_string(), "application/json", body)
        .expect("the scenario body is valid");
    let subscriber = fanout::msg::WsConn {
        id: 1,
        group: "click".to_string(),
    };
    let delivery = subscriber.accept(&msg);
    assert!(delivery.send_text);
    assert_eq!(msg.data, "{\"x\":1}");
    let item = QueueItem {
        ua: "agent".to_string(),
        ip: "10.0.0.1".to_string(),
        refer: String::new(),
        data: msg,
    };
    let plan = plan_item(&item, true);
    assert!(plan.persist_text);
    let rec = build_record_from_text(item.data.data.as_str(), &item, 1_700_000_000).unwrap();
    assert_eq!(rec.get("x").and_then(|v| v.as_u64()), Some(1));
    assert!(rec.get("time").is_some());
    assert!(rec.get("ip").is_some());
    assert!(rec.get("ua").is_some());
    assert_eq!(rec.get("refer").and_then(|v| v.as_str()), Some(""));
}
