use ai_proxy::store::{append_log_line, read_events};
use ai_proxy::tailer::TailCursor;

const TS: i64 = 1_704_067_200_000;

#[test]
fn one_poll_surfaces_both_urls_in_order() {
    let mut bytes: Vec<u8> = Vec::new();
    bytes.extend_from_slice(
        b"1234567890.123   456 192.168.1.1 TCP_MISS/200 1234 GET http://example.com/ example.com - DIRECT/93.184.216.34 text/html\n",
    );
    bytes.extend_from_slice(
        b"1234567890.456   789 192.168.1.1 TCP_TUNNEL/200 5678 CONNECT example.org:443 example.org:443 - DIRECT/93.184.216.34 -\n",
    );
    let mut cursor = TailCursor::new();
    let urls = cursor.poll_step(bytes.len() as u64, &bytes);
    assert_eq!(
        urls,
        vec![
            b"http://example.com/".to_vec(),
            b"https://example.org:443".to_vec()
        ]
    );
    assert_eq!(cursor.offset, bytes.len() as u64);

    // Feed the two URLs to the event store, as the tailing loop does.
    let mut log: Vec<u8> = Vec::new();
    for (i, url) in urls.iter().enumerate() {
        append_log_line(&mut log, url, TS + i as i64);
    }
    let events = read_events(&log);
    assert_eq!(events.len(), 2);
    assert_eq!(events[0].url, b"http://example.com/".to_vec());
    assert_eq!(events[1].url, b"https://example.org:443".to_vec());
}

#[test]
fn partial_trailing_line_is_left_for_a_later_poll() {
    let complete: &[u8] = b"1.0 2 3 TCP/200 5 GET http://first/ first - D/1 t\n";
    let partial: &[u8] = b"1.0 2 3 TCP/200 5 GET http://second/ seco";
    let mut bytes = complete.to_vec();
    bytes.extend_from_slice(partial);
    let mut cursor = TailCursor::new();
    let urls = cursor.poll_step(bytes.len() as u64, &bytes);
    assert_eq!(urls, vec![b"http://first/".to_vec()]);
    assert_eq!(cursor.offset, complete.len() as u64);

    // The rest of the second line arrives; the next poll reads it whole.
    let arrived = b"nd - D/1 t\n";
    let mut newly = partial.to_vec();
    newly.extend_from_slice(arrived);
    let total = (complete.len() + partial.len() + arrived.len()) as u64;
    let urls = cursor.poll_step(total, &newly);
    assert_eq!(urls, vec![b"http://second/".to_vec()]);
    assert_eq!(cursor.offset, total);
}

#[test]
fn cursor_never_decreases_without_truncation() {
    let mut cursor = TailCursor::new();
    let bytes = b"no newline yet".to_vec();
    let urls = cursor.poll_step(bytes.len() as u64, &bytes);
    assert!(urls.is_empty());
    assert_eq!(cursor.offset, 0);
}

#[test]
fn truncation_resets_the_cursor_to_the_new_size() {
    let mut cursor = TailCursor::new();
    let bytes = b"1.0 2 3 TCP/200 5 GET http://x/ x - D/1 t\n".to_vec();
    cursor.poll_step(bytes.len() as u64, &bytes);
    assert_eq!(cursor.offset, bytes.len() as u64);

    // The file shrank: the source was rotated. The cursor resets to the new
    // size and consumes nothing, replaying no earlier bytes.
    let urls = cursor.poll_step(4, &[]);
    assert!(urls.is_empty());
    assert_eq!(cursor.offset, 4);
}
