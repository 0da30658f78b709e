use ai_proxy::logline::parse_squid_log_line;

#[test]
fn http_target_is_returned_verbatim() {
    let line = b"1234567890.123   456 192.168.1.1 TCP_MISS/200 1234 GET http://example.com/ example.com - DIRECT/93.184.216.34 text/html";
    let url = parse_squid_log_line(line).expect("line should parse");
    assert_eq!(url, b"http://example.com/".to_vec());
}

#[test]
fn https_target_is_returned_verbatim() {
    let line = b"1.0 2 3 TCP_MISS/200 5 GET https://secure.example.net/path?q=1 secure.example.net - D/1 t";
    let url = parse_squid_log_line(line).expect("line should parse");
    assert_eq!(url, b"https://secure.example.net/path?q=1".to_vec());
}

#[test]
fn connect_line_synthesizes_https_from_host() {
    let line = b"1234567890.456   789 192.168.1.1 TCP_TUNNEL/200 5678 CONNECT example.org:443 example.org:443 - DIRECT/93.184.216.34 -";
    let url = parse_squid_log_line(line).expect("line should parse");
    assert_eq!(url, b"https://example.org:443".to_vec());
}

#[test]
fn other_method_synthesizes_http_from_host() {
    let line = b"1.0 2 3 TCP_MISS/200 5 GET /relative/path example.com - D/1 t";
    let url = parse_squid_log_line(line).expect("line should parse");
    assert_eq!(url, b"http://example.com".to_vec());
}

#[test]
fn short_line_yields_nothing() {
    let line = b"1.0 2 3 TCP_MISS/200 5 GET http://example.com/";
    assert_eq!(parse_squid_log_line(line), None);
}

#[test]
fn empty_line_yields_nothing() {
    assert_eq!(parse_squid_log_line(b""), None);
    assert_eq!(parse_squid_log_line(b"   \t  "), None);
}

#[test]
fn repeated_whitespace_separates_fields_once() {
    let line = b"  1.0\t2   3 TCP/200 5 CONNECT db.example.io:5432 db.example.io:5432 - D/1 -";
    let url = parse_squid_log_line(line).expect("line should parse");
    assert_eq!(url, b"https://db.example.io:5432".to_vec());
}
