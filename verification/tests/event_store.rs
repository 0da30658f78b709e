use ai_proxy::store::{append_log_line, decode_event_line, encode_event, read_events, read_since};

const TS_A: i64 = 1_704_067_200_000; // 2024-01-01T00:00:00Z
const TS_B: i64 = 1_704_067_260_000; // one minute later
const TS_C: i64 = 1_704_067_320_000; // two minutes later

#[test]
fn encoded_line_has_the_documented_shape() {
    let line = encode_event(&b"http://a".to_vec(), TS_A);
    assert_eq!(
        line,
        b"{\"url\":\"http://a\",\"ts\":\"2024-01-01T00:00:00+00:00\"}".to_vec()
    );
}

#[test]
fn encoded_line_decodes_to_the_same_event() {
    let line = encode_event(&b"https://example.com/?q=\"x\"".to_vec(), TS_B);
    let ev = decode_event_line(&line).expect("own encoding should decode");
    assert_eq!(ev.url, b"https://example.com/?q=\"x\"".to_vec());
    assert_eq!(ev.ts_ms, TS_B);
}

#[test]
fn append_then_read_preserves_order_and_content() {
    let mut log: Vec<u8> = Vec::new();
    append_log_line(&mut log, &b"http://one".to_vec(), TS_A);
    append_log_line(&mut log, &b"http://two".to_vec(), TS_B);
    append_log_line(&mut log, &b"http://three".to_vec(), TS_C);
    let events = read_events(&log);
    assert_eq!(events.len(), 3);
    assert_eq!(events[0].url, b"http://one".to_vec());
    assert_eq!(events[1].url, b"http://two".to_vec());
    assert_eq!(events[2].url, b"http://three".to_vec());
    assert_eq!(events[0].ts_ms, TS_A);
    assert_eq!(events[2].ts_ms, TS_C);
}

#[test]
fn read_since_keeps_only_events_at_or_after_cutoff_in_order() {
    let mut log: Vec<u8> = Vec::new();
    append_log_line(&mut log, &b"http://old".to_vec(), TS_A);
    append_log_line(&mut log, &b"http://mid".to_vec(), TS_B);
    append_log_line(&mut log, &b"http://new".to_vec(), TS_C);
    let events = read_events(&log);
    let urls = read_since(&events, TS_B, 1000);
    assert_eq!(urls, vec![b"http://mid".to_vec(), b"http://new".to_vec()]);
}

#[test]
fn read_since_never_exceeds_its_limit() {
    let mut log: Vec<u8> = Vec::new();
    append_log_line(&mut log, &b"http://one".to_vec(), TS_A);
    append_log_line(&mut log, &b"http://two".to_vec(), TS_B);
    append_log_line(&mut log, &b"http://three".to_vec(), TS_C);
    let events = read_events(&log);
    let urls = read_since(&events, 0, 2);
    assert_eq!(urls, vec![b"http://one".to_vec(), b"http://two".to_vec()]);
    assert_eq!(read_since(&events, 0, 0), Vec::<Vec<u8>>::new());
}

#[test]
fn malformed_lines_are_skipped_not_fatal() {
    let mut log: Vec<u8> = Vec::new();
    append_log_line(&mut log, &b"http://good".to_vec(), TS_A);
    log.extend_from_slice(b"this is not a record\n");
    log.extend_from_slice(b"{\"url\":\"http://bad-ts\",\"ts\":\"not a time\"}\n");
    append_log_line(&mut log, &b"http://also-good".to_vec(), TS_B);
    let events = read_events(&log);
    assert_eq!(events.len(), 2);
    assert_eq!(events[0].url, b"http://good".to_vec());
    assert_eq!(events[1].url, b"http://also-good".to_vec());
}

#[test]
fn urls_with_framing_bytes_round_trip() {
    let tricky = b"http://e/\"quote\"\\back\nslash\rcr".to_vec();
    let mut log: Vec<u8> = Vec::new();
    append_log_line(&mut log, &tricky, TS_A);
    let events = read_events(&log);
    assert_eq!(events.len(), 1);
    assert_eq!(events[0].url, tricky);
}

#[test]
fn decode_rejects_torn_lines() {
    assert!(decode_event_line(b"{\"url\":\"http://a\",\"ts\":\"2024-01-").is_none());
    assert!(decode_event_line(b"{\"url\":\"http://a\"}").is_none());
    assert!(decode_event_line(b"").is_none());
}
