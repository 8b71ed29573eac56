use swagos::net::ipv4::http::client::{
    connection, encode_request, header_end, parse_ip, read_step, response_framing, send_wait_step, timed_out, ReadAction,
    ReadState,
};
use swagos::net::ipv4::http::constants::{HttpError, METHOD};
use swagos::net::ipv4::http::decimal::{parse_unsigned_str, parse_usize_str, push_decimal};
use swagos::net::ipv4::http::http::request;
use swagos::net::ipv4::http::request::Request;
use swagos::net::ipv4::http::response::{parse_response, str_from_utf8};
use swagos::net::ipv4::http::url_parser::{parse_url, url_port_ok};

#[test]
fn url_full() {
    let r = parse_url("http://192.168.1.100:8080/benchmark").unwrap();
    assert_eq!(r.scheme, "http");
    assert_eq!(r.host, "192.168.1.100");
    assert_eq!(r.port, 8080);
    assert_eq!(r.path, "/benchmark");
}

#[test]
fn url_no_port() {
    let r = parse_url("http://192.168.1.100/benchmark").unwrap();
    assert_eq!(r.port, 80);
    assert_eq!(r.path, "/benchmark");
    assert_eq!(r.host, "192.168.1.100");
}

#[test]
fn url_no_path() {
    let r = parse_url("http://192.168.1.100:8080").unwrap();
    assert_eq!(r.path, "/");
    assert_eq!(r.port, 8080);
}

#[test]
fn url_no_port_no_path() {
    let r = parse_url("http://192.168.1.100").unwrap();
    assert_eq!(r.port, 80);
    assert_eq!(r.path, "/");
    assert_eq!(r.host, "192.168.1.100");
}

#[test]
fn url_missing_scheme() {
    assert!(parse_url("192.168.1.100/benchmark").is_none());
}

#[test]
fn url_empty() {
    assert!(parse_url("").is_none());
}

#[test]
fn url_two_separators() {
    assert!(parse_url("http://a://b").is_none());
}

#[test]
fn url_port_then_path_keeps_rest() {
    let r = parse_url("https://example.com:443/a/b?c=d").unwrap();
    assert_eq!(r.scheme, "https");
    assert_eq!(r.host, "example.com");
    assert_eq!(r.port, 443);
    assert_eq!(r.path, "/a/b?c=d");
}

#[test]
fn url_port_check() {
    assert!(url_port_ok("http://h:80/x"));
    assert!(url_port_ok("http://h/x"));
    assert!(url_port_ok("nothing"));
    assert!(!url_port_ok("http://h:99999/x"));
    assert!(!url_port_ok("http://h:/x"));
    assert!(!url_port_ok("http://h:8a"));
    assert!(url_port_ok("http://h:+8"));
}

#[test]
fn request_get_with_path_and_headers() {
    let result = Request::new(
        METHOD::GET,
        "http://192.168.1.100:8080/benchmark".to_string(),
        vec![("Connection".to_string(), "close".to_string())],
        b"",
    )
    .build();
    let expected: &[u8] = b"GET /benchmark HTTP/1.1\r\nHost: 192.168.1.100:8080\r\nConnection: close\r\n\r\n";
    assert_eq!(result.as_deref(), Some(expected));
}

#[test]
fn request_get_root_path() {
    let result = Request::new(METHOD::GET, "http://192.168.1.100/".to_string(), vec![], b"").build();
    let expected: &[u8] = b"GET / HTTP/1.1\r\nHost: 192.168.1.100\r\n\r\n";
    assert_eq!(result.as_deref(), Some(expected));
}

#[test]
fn request_get_no_body() {
    let result = Request::new(METHOD::GET, "http://192.168.1.100/test".to_string(), vec![], b"").build();
    let expected: &[u8] = b"GET /test HTTP/1.1\r\nHost: 192.168.1.100\r\n\r\n";
    assert_eq!(result.as_deref(), Some(expected));
}

#[test]
fn request_invalid_url() {
    let result = Request::new(METHOD::GET, "not-a-url".to_string(), vec![], b"").build();
    assert!(result.is_none());
}

#[test]
fn request_post_with_body() {
    let result = Request::new(
        METHOD::POST,
        "http://192.168.1.100/api".to_string(),
        vec![("Content-Type".to_string(), "application/x-www-form-urlencoded".to_string())],
        b"hello=world",
    )
    .build();
    let expected: &[u8] = b"POST /api HTTP/1.1\r\nHost: 192.168.1.100\r\nContent-Type: application/x-www-form-urlencoded\r\nContent-Length: 11\r\n\r\nhello=world";
    assert_eq!(result.as_deref(), Some(expected));
}

#[test]
fn request_post_empty_body() {
    let result = Request::new(METHOD::POST, "http://192.168.1.100/api".to_string(), vec![], b"").build();
    let expected: &[u8] = b"POST /api HTTP/1.1\r\nHost: 192.168.1.100\r\n\r\n";
    assert_eq!(result.as_deref(), Some(expected));
}

#[test]
fn request_host_header_is_replaced() {
    let result = Request::new(
        METHOD::DELETE,
        "http://h/x".to_string(),
        vec![("Host".to_string(), "other".to_string()), ("A".to_string(), "b".to_string())],
        b"",
    )
    .build();
    let expected: &[u8] = b"DELETE /x HTTP/1.1\r\nHost: h\r\nA: b\r\n\r\n";
    assert_eq!(result.as_deref(), Some(expected));
}

#[test]
fn request_timeout_default() {
    let r = Request::new(METHOD::GET, "http://h/".to_string(), vec![], b"");
    assert_eq!(r.timeout, 200);
}

#[test]
fn method_names() {
    assert_eq!(METHOD::GET.to_string(), "GET");
    assert_eq!(METHOD::POST.to_string(), "POST");
    assert_eq!(METHOD::HEAD.to_string(), "HEAD");
    assert_eq!(METHOD::OPTIONS.to_string(), "OPTIONS");
    assert_eq!(METHOD::DELETE.to_string(), "DELETE");
    assert_eq!(METHOD::PUT.to_string(), "PUT");
    assert_eq!(METHOD::PATCH.to_string(), "PATCH");
}

#[test]
fn bare_request_line() {
    let r = request {}.build(METHOD::HEAD, "http://h/", vec![("a", "b")]);
    assert_eq!(r, b"HEAD HTTP/1.1\r\n".to_vec());
}

#[test]
fn response_200_ok() {
    let raw = b"HTTP/1.1 200 OK\r\nContent-Type: text/plain\r\nContent-Length: 5\r\n\r\nhello";
    let r = parse_response(raw).unwrap();
    assert_eq!(r.status_code, 200);
    assert!(r.headers.iter().any(|&(k, v)| k == "Content-Type" && v == "text/plain"));
    assert!(r.headers.iter().any(|&(k, v)| k == "Content-Length" && v == "5"));
    assert_eq!(r.body, b"hello");
}

#[test]
fn response_200_no_body() {
    let r = parse_response(b"HTTP/1.1 200 OK\r\n\r\n").unwrap();
    assert_eq!(r.status_code, 200);
    assert!(r.body.is_empty());
}

#[test]
fn response_404() {
    let r = parse_response(b"HTTP/1.1 404 Not Found\r\nContent-Length: 0\r\n\r\n").unwrap();
    assert_eq!(r.status_code, 404);
}

#[test]
fn response_500() {
    let r = parse_response(b"HTTP/1.1 500 Internal Server Error\r\n\r\n").unwrap();
    assert_eq!(r.status_code, 500);
}

#[test]
fn response_301_location() {
    let r = parse_response(b"HTTP/1.1 301 Moved Permanently\r\nLocation: http://example.com/\r\n\r\n").unwrap();
    assert!(r.headers.iter().any(|&(k, v)| k == "Location" && v == "http://example.com/"));
}

#[test]
fn response_multiple_headers() {
    let raw = b"HTTP/1.1 200 OK\r\nContent-Type: application/json\r\nContent-Length: 13\r\nConnection: close\r\n\r\n{\"ok\":\"true\"}";
    let r = parse_response(raw).unwrap();
    assert_eq!(r.headers.len(), 3);
    assert_eq!(r.body, b"{\"ok\":\"true\"}");
}

#[test]
fn response_malformed_status_line() {
    assert!(parse_response(b"GARBAGE\r\n\r\n").is_none());
}

#[test]
fn response_empty_input() {
    assert!(parse_response(b"").is_none());
}

#[test]
fn response_body_length() {
    let r = parse_response(b"HTTP/1.1 200 OK\r\nContent-Length: 3\r\n\r\nabc").unwrap();
    assert_eq!(r.body.len(), 3);
}

#[test]
fn response_bad_code() {
    assert!(parse_response(b"HTTP/1.1 70000 Big\r\n\r\n").is_none());
    assert!(parse_response(b"HTTP/1.1 2x0 OK\r\n\r\n").is_none());
}

#[test]
fn response_header_without_colon_space() {
    assert!(parse_response(b"HTTP/1.1 200 OK\r\nBad:header\r\n\r\n").is_none());
}

#[test]
fn response_body_is_last_line_after_blank() {
    let r = parse_response(b"HTTP/1.1 200 OK\r\n\r\nfirst\r\nsecond").unwrap();
    assert_eq!(r.body, b"second");
}

#[test]
fn response_invalid_utf8() {
    assert!(parse_response(b"HTTP/1.1 200 OK\r\n\xff\r\n\r\n").is_none());
}

#[test]
fn utf8_wrapper_converts() {
    assert_eq!(str_from_utf8(b"abc"), Some("abc"));
    assert_eq!(str_from_utf8(b"\xc3\xa9"), Some("\u{e9}"));
    assert_eq!(str_from_utf8(b"\xc3"), None);
}

#[test]
fn ip_parsing() {
    assert_eq!(parse_ip("192.168.1.100"), Some([192, 168, 1, 100]));
    assert_eq!(parse_ip("0.0.0.0"), Some([0, 0, 0, 0]));
    assert_eq!(parse_ip("+1.2.3.4"), Some([1, 2, 3, 4]));
    assert_eq!(parse_ip("256.1.1.1"), None);
    assert_eq!(parse_ip("1.2.3"), None);
    assert_eq!(parse_ip("1.2.3.4.5"), None);
    assert_eq!(parse_ip("1..3.4"), None);
    assert_eq!(parse_ip("example.com"), None);
    assert_eq!(parse_ip(""), None);
}

#[test]
fn decimal_parsing() {
    assert_eq!(parse_unsigned_str("65535", 0xffff), Some(65535));
    assert_eq!(parse_unsigned_str("65536", 0xffff), None);
    assert_eq!(parse_unsigned_str("+7", 255), Some(7));
    assert_eq!(parse_unsigned_str("+", 255), None);
    assert_eq!(parse_unsigned_str("-1", 255), None);
    assert_eq!(parse_unsigned_str("007", 255), Some(7));
    assert_eq!(parse_unsigned_str("", 255), None);
    assert_eq!(parse_usize_str("18446744073709551615"), Some(usize::MAX));
    assert_eq!(parse_usize_str("18446744073709551616"), None);
    assert_eq!(parse_usize_str("12a"), None);
    assert_eq!(parse_usize_str("42"), Some(42));
}

#[test]
fn decimal_formatting() {
    let mut out = Vec::new();
    push_decimal(&mut out, 0);
    push_decimal(&mut out, 1234567);
    assert_eq!(out, b"01234567".to_vec());
}

#[test]
fn framing_reads_length_and_keep_alive() {
    let raw = b"HTTP/1.1 200 OK\r\nContent-Length: 12\r\nConnection: keep-alive\r\n\r\nhello";
    assert_eq!(header_end(raw), Some(raw.len() - 5));
    assert_eq!(response_framing(raw), Ok((raw.len() - 5, 12, true)));
}

#[test]
fn framing_defaults() {
    let raw = b"HTTP/1.1 204 No Content\r\nConnection: close\r\n\r\n";
    assert_eq!(response_framing(raw), Ok((raw.len(), 0, false)));
}

#[test]
fn framing_errors() {
    assert_eq!(header_end(b"HTTP/1.1 200 OK\r\n"), None);
    assert_eq!(response_framing(b"HTTP/1.1 200 OK\r\n"), Err(HttpError::ParseError));
    assert_eq!(response_framing(b"HTTP/1.1 200 OK\r\nContent-Length: x\r\n\r\n"), Err(HttpError::ParseError));
    assert_eq!(response_framing(b"HTTP/1.1 200 OK\r\nContent-Length 5\r\n\r\n"), Err(HttpError::ParseError));
}

#[test]
fn connection_new_uses_ip_or_dns() {
    let c = connection::new("10.0.0.1", 80, false, None).ok().unwrap();
    assert_eq!(c.remote_ip, [10, 0, 0, 1]);
    assert_eq!(c.local_port, 0);
    let c = connection::new("example.com", 8080, true, Some([1, 2, 3, 4])).ok().unwrap();
    assert_eq!(c.remote_ip, [1, 2, 3, 4]);
    assert_eq!(c.remote_port, 8080);
    assert!(c.force_keep_alive);
    assert!(matches!(connection::new("example.com", 80, false, None), Err(HttpError::DnsError)));
    let c = connection::new_with_ip("h", [9, 9, 9, 9], 81, false);
    let t = c.tuple();
    assert_eq!(t.remote_ip, [9, 9, 9, 9]);
    assert_eq!(t.remote_port, 81);
    assert_eq!(t.local_port, 0);
}

#[test]
fn read_step_waits_for_header_block() {
    let (st, a) = read_step(ReadState::Headers, b"HTTP/1.1 200 OK\r\nContent-Length: 4", false);
    assert_eq!(st, ReadState::Headers);
    assert!(matches!(a, ReadAction::Read));
}

#[test]
fn read_step_enters_body_then_completes() {
    let head: &[u8] = b"HTTP/1.1 200 OK\r\nContent-Length: 4\r\nConnection: keep-alive\r\n\r\n";
    let (st, a) = read_step(ReadState::Headers, head, false);
    assert_eq!(st, ReadState::Body { total: head.len() + 4, keep_alive: true });
    assert!(matches!(a, ReadAction::Read));
    let mut full = head.to_vec();
    full.extend_from_slice(b"abcd");
    let (st2, a2) = read_step(st, &full, false);
    assert_eq!(st2, st);
    assert!(matches!(a2, ReadAction::Done { close: false }));
}

#[test]
fn read_step_closes_without_keep_alive() {
    let raw: &[u8] = b"HTTP/1.1 200 OK\r\nContent-Length: 2\r\n\r\nhi";
    let (_, a) = read_step(ReadState::Headers, raw, false);
    assert!(matches!(a, ReadAction::Done { close: true }));
    let (_, forced) = read_step(ReadState::Headers, raw, true);
    assert!(matches!(forced, ReadAction::Done { close: false }));
}

#[test]
fn read_step_fails_on_bad_length() {
    let raw: &[u8] = b"HTTP/1.1 200 OK\r\nContent-Length: x\r\n\r\n";
    let (_, a) = read_step(ReadState::Headers, raw, false);
    assert!(matches!(a, ReadAction::Fail(HttpError::ParseError)));
}

#[test]
fn timeout_is_strictly_more_than_limit() {
    assert!(!timed_out(100, 150, 50));
    assert!(timed_out(100, 151, 50));
    assert!(!timed_out(7, 7, 0));
}

#[test]
fn send_wait_gives_up_on_twentieth_wait() {
    assert_eq!(send_wait_step(true, 19), Some(Ok(())));
    assert_eq!(send_wait_step(false, 0), None);
    assert_eq!(send_wait_step(false, 18), None);
    assert_eq!(send_wait_step(false, 19), Some(Err(HttpError::ConnectionFailed)));
}

#[test]
fn encode_request_gives_bytes_or_parse_error() {
    let ok = Request::new(METHOD::GET, "http://10.0.0.1/x".to_string(), Vec::new(), b"");
    assert_eq!(encode_request(&ok).unwrap(), ok.build().unwrap());
    let bad = Request::new(METHOD::GET, "no scheme here".to_string(), Vec::new(), b"");
    assert_eq!(encode_request(&bad), Err(HttpError::ParseError));
}
