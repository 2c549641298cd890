use reqlog::ingest::{assemble, build_record, decode_body, ingest};
use reqlog::session::{step, Action, Event, Phase};
use reqlog::store::Store;

#[test]
fn hello_body_is_five_bytes_and_base64() {
    let r = build_record(
        "id-1".to_string(),
        1_700_000_000_000,
        "POST".to_string(),
        "/hook".to_string(),
        &Vec::new(),
        b"hello",
    );
    assert_eq!(r.body_size, 5);
    assert_eq!(r.body, "aGVsbG8=");
    assert_eq!(r.headers, "[]");
    assert_eq!(r.method, "POST");
    assert_eq!(r.url, "/hook");
    assert_eq!(r.id, "id-1");
    assert_eq!(r.timestamp, 1_700_000_000_000);
}

#[test]
fn empty_body_is_empty_text() {
    let r = build_record("i".to_string(), 0, "GET".to_string(), "/".to_string(), &Vec::new(), b"");
    assert_eq!(r.body, "");
    assert_eq!(r.body_size, 0);
    assert_eq!(decode_body(&r), Some(Vec::new()));
}

#[test]
fn headers_keep_order_and_duplicates() {
    let headers = vec![
        ("x-b".to_string(), "2".to_string()),
        ("x-a".to_string(), "1".to_string()),
        ("x-b".to_string(), "say \"hi\"".to_string()),
    ];
    let r = build_record("i".to_string(), 0, "GET".to_string(), "/".to_string(), &headers, b"");
    assert_eq!(r.headers, r#"[["x-b","2"],["x-a","1"],["x-b","say \"hi\""]]"#);
    let back: Vec<(String, String)> = serde_json::from_str(&r.headers).unwrap();
    assert_eq!(back, headers);
}

#[test]
fn assemble_falls_back_to_empty_array() {
    let r = assemble(
        "i".to_string(),
        3,
        "GET".to_string(),
        "/u".to_string(),
        None,
        "Zg==".to_string(),
        1,
    );
    assert_eq!(r.headers, "[]");
    assert_eq!(r.body, "Zg==");
    assert_eq!(r.body_size, 1);
    let r = assemble(
        "i".to_string(),
        3,
        "GET".to_string(),
        "/u".to_string(),
        Some("[[\"a\",\"b\"]]".to_string()),
        String::new(),
        0,
    );
    assert_eq!(r.headers, "[[\"a\",\"b\"]]");
}

#[test]
fn binary_body_round_trips_through_the_store() {
    let mut bytes: Vec<u8> = Vec::new();
    for round in 0..3 {
        for b in 0..=255u8 {
            bytes.push(b.wrapping_mul(7).wrapping_add(round));
        }
    }
    bytes.push(0);
    let mut store = Store::new();
    let r = build_record(
        "bin".to_string(),
        9,
        "POST".to_string(),
        "/hook".to_string(),
        &Vec::new(),
        &bytes,
    );
    assert_eq!(r.body_size, 769);
    assert!(r.body.len() > bytes.len());
    assert_ne!(r.body.as_bytes(), &bytes[..]);
    store.insert(r).unwrap();
    let page = store.page(None, 1);
    assert_eq!(page[0].body_size, 769);
    assert_eq!(decode_body(&page[0]), Some(bytes));
}

#[test]
fn decode_body_rejects_text_that_is_no_encoding() {
    let mut r = build_record("i".to_string(), 0, "GET".to_string(), "/".to_string(), &Vec::new(), b"hi");
    assert_eq!(decode_body(&r), Some(b"hi".to_vec()));
    r.body = "not base64!".to_string();
    assert_eq!(decode_body(&r), None);
    r.body = "aGk".to_string();
    assert_eq!(decode_body(&r), None);
}

#[test]
fn ingest_stores_and_returns_the_record() {
    let mut store = Store::new();
    let headers = vec![("content-type".to_string(), "text/plain".to_string())];
    let event = ingest(&mut store, 10, "POST".to_string(), "/hook?a=1".to_string(), &headers, b"hello");
    assert_eq!(event.method, "POST");
    assert_eq!(event.url, "/hook?a=1");
    assert_eq!(event.headers, r#"[["content-type","text/plain"]]"#);
    assert_eq!(event.body, "aGVsbG8=");
    assert_eq!(event.body_size, 5);
    assert_eq!(event.id.len(), 36);
    assert!(event.timestamp > 1_600_000_000_000);
    assert_eq!(store.count(), 1);
    let page = store.page(None, 10);
    assert_eq!(page[0], event);
}

#[test]
fn ingest_gives_each_record_its_own_id() {
    let mut store = Store::new();
    let a = ingest(&mut store, 10, "GET".to_string(), "/1".to_string(), &Vec::new(), b"");
    let b = ingest(&mut store, 10, "GET".to_string(), "/2".to_string(), &Vec::new(), b"");
    assert_ne!(a.id, b.id);
    assert!(b.timestamp >= a.timestamp);
    assert_eq!(store.count(), 2);
    assert_eq!(store.page(None, 1)[0].id, b.id);
}

#[test]
fn ingest_never_exceeds_the_limit() {
    let mut store = Store::new();
    for i in 0..25 {
        ingest(&mut store, 7, "GET".to_string(), format!("/{}", i), &Vec::new(), b"x");
        assert!(store.count() <= 7);
    }
    assert_eq!(store.count(), 7);
}

#[test]
fn post_is_announced_then_deleted() {
    let mut store = Store::new();
    let event = ingest(&mut store, 1000, "POST".to_string(), "/hook".to_string(), &Vec::new(), b"hello");
    assert_eq!(event.body_size, 5);
    let message = format!("{{\"type\":\"new\",\"request\":{{\"id\":\"{}\"}}}}", event.id);
    let (phase, action) = step(Phase::Streaming, Event::Broadcast(message.clone()));
    assert_eq!(phase, Phase::Streaming);
    assert_eq!(action, Action::Forward(message));
    assert!(store.contains_id(&event.id));
    store.delete_by_id(&event.id);
    let page = store.page(None, 100);
    assert!(page.iter().all(|r| r.id != event.id));
    assert_eq!(store.count(), 0);
}
