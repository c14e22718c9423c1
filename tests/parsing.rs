use simple_http::method::Method;
use simple_http::request::{parse, ParseErrorKind};

fn kind_of(buf: &[u8]) -> ParseErrorKind {
    match parse(buf) {
        Ok(_) => panic!("expected a parse error"),
        Err(e) => e.kind,
    }
}

#[test]
fn get_hello_parses() {
    let req = parse(b"GET /hello HTTP/1.1\r\n\r\n").unwrap();
    assert_eq!(req.method(), Method::Get);
    assert_eq!(req.path(), "/hello");
    assert_eq!(req.version(), "HTTP/1.1");
    assert!(req.headers().is_empty());
    assert!(req.body().is_none());
}

#[test]
fn every_method_is_recognized() {
    let cases = [
        ("GET", Method::Get),
        ("POST", Method::Post),
        ("PUT", Method::Put),
        ("DELETE", Method::Delete),
        ("HEAD", Method::Head),
        ("CONNECT", Method::Connect),
        ("OPTIONS", Method::Options),
        ("TRACE", Method::Trace),
        ("PATCH", Method::Patch),
    ];
    for (tok, m) in cases {
        let text = format!("{} /a/b?c=d HTTP/1.0\r\n\r\n", tok);
        let req = parse(text.as_bytes()).unwrap();
        assert_eq!(req.method(), m);
        assert_eq!(req.path(), "/a/b?c=d");
        assert_eq!(req.version(), "HTTP/1.0");
        assert!(req.headers().is_empty());
        assert!(req.body().is_none());
    }
}

#[test]
fn unknown_method_is_rejected() {
    let e = parse(b"FOO /x HTTP/1.1\r\n\r\n").unwrap_err();
    assert_eq!(e.kind, ParseErrorKind::InvalidMethod);
    assert_eq!(e.context, b"FOO".to_vec());
}

#[test]
fn method_match_is_case_sensitive() {
    assert_eq!(kind_of(b"get / HTTP/1.1\r\n\r\n"), ParseErrorKind::InvalidMethod);
    assert_eq!(kind_of(b"Get / HTTP/1.1\r\n\r\n"), ParseErrorKind::InvalidMethod);
}

#[test]
fn unknown_method_wins_over_a_bad_rest_of_line() {
    assert_eq!(kind_of(b"BREW \xff\xfe garbage\r\nno colon\r\n"), ParseErrorKind::InvalidMethod);
}

#[test]
fn header_is_found_case_insensitively_and_trimmed() {
    let req = parse(b"GET / HTTP/1.1\r\nContent-Type: \t text/plain  \r\n\r\n").unwrap();
    assert_eq!(req.headers().len(), 1);
    assert_eq!(req.headers()[0].name, b"Content-Type".to_vec());
    assert_eq!(req.headers()[0].value, b"text/plain".to_vec());
    assert_eq!(req.header(b"content-type"), Some(&b"text/plain".to_vec()));
    assert_eq!(req.header(b"CONTENT-TYPE"), Some(&b"text/plain".to_vec()));
    assert_eq!(req.header(b"Content-Length"), None);
}

#[test]
fn headers_keep_their_order_and_first_match_wins() {
    let req = parse(b"GET / HTTP/1.1\r\nHost: a\r\nX-Tag: one\r\nx-tag: two\r\n\r\n").unwrap();
    let names: Vec<Vec<u8>> = req.headers().iter().map(|h| h.name.clone()).collect();
    assert_eq!(names, vec![b"Host".to_vec(), b"X-Tag".to_vec(), b"x-tag".to_vec()]);
    assert_eq!(req.header(b"X-TAG"), Some(&b"one".to_vec()));
}

#[test]
fn empty_header_value_is_kept() {
    let req = parse(b"GET / HTTP/1.1\r\nX-Empty:   \r\n\r\n").unwrap();
    assert_eq!(req.header(b"x-empty"), Some(&Vec::new()));
}

#[test]
fn header_value_may_hold_invalid_utf8() {
    let req = parse(b"GET / HTTP/1.1\r\nX-Bin: \xff\xfe\r\n\r\n").unwrap();
    assert_eq!(req.header(b"x-bin"), Some(&vec![0xffu8, 0xfe]));
}

#[test]
fn header_without_colon_is_rejected() {
    let e = parse(b"GET / HTTP/1.1\r\nNoColonHere\r\n\r\n").unwrap_err();
    assert_eq!(e.kind, ParseErrorKind::InvalidHeader);
    assert_eq!(e.context, b"NoColonHere".to_vec());
}

#[test]
fn header_with_empty_name_is_rejected() {
    assert_eq!(kind_of(b"GET / HTTP/1.1\r\n: value\r\n\r\n"), ParseErrorKind::InvalidHeader);
}

#[test]
fn body_follows_the_blank_line() {
    let req = parse(b"POST /submit HTTP/1.1\r\nContent-Length: 5\r\n\r\nhello").unwrap();
    assert_eq!(req.method(), Method::Post);
    assert_eq!(req.body(), &Some(b"hello".to_vec()));
}

#[test]
fn padding_does_not_change_the_request() {
    let plain = b"POST /p HTTP/1.1\r\nA: b\r\n\r\nbody".to_vec();
    let mut padded = plain.clone();
    padded.resize(1024, 0);
    let a = parse(&plain).unwrap();
    let b = parse(&padded).unwrap();
    assert_eq!(a.method(), b.method());
    assert_eq!(a.path(), b.path());
    assert_eq!(a.version(), b.version());
    assert_eq!(a.headers().len(), b.headers().len());
    assert_eq!(a.headers()[0].value, b.headers()[0].value);
    assert_eq!(a.body(), b.body());
    assert_eq!(b.body(), &Some(b"body".to_vec()));
}

#[test]
fn padding_right_after_the_blank_line_means_no_body() {
    let mut buf = b"GET /hello HTTP/1.1\r\n\r\n".to_vec();
    buf.resize(1024, 0);
    let req = parse(&buf).unwrap();
    assert_eq!(req.path(), "/hello");
    assert!(req.body().is_none());
}

#[test]
fn missing_line_end_is_incomplete() {
    assert_eq!(kind_of(b"GET / HTTP/1.1"), ParseErrorKind::IncompleteData);
    assert_eq!(kind_of(b""), ParseErrorKind::IncompleteData);
    assert_eq!(kind_of(&[0u8; 16]), ParseErrorKind::IncompleteData);
}

#[test]
fn missing_blank_line_is_incomplete() {
    let e = parse(b"GET / HTTP/1.1\r\nHost: x").unwrap_err();
    assert_eq!(e.kind, ParseErrorKind::IncompleteData);
    assert_eq!(e.context, b"Host: x".to_vec());
    assert_eq!(kind_of(b"GET / HTTP/1.1\r\n"), ParseErrorKind::IncompleteData);
}

#[test]
fn truncated_by_padding_is_incomplete() {
    assert_eq!(kind_of(b"GET / HT\0TP/1.1\r\n\r\n"), ParseErrorKind::IncompleteData);
}

#[test]
fn malformed_request_lines_are_rejected() {
    assert_eq!(kind_of(b"GET\r\n\r\n"), ParseErrorKind::InvalidRequestLine);
    assert_eq!(kind_of(b"GET /\r\n\r\n"), ParseErrorKind::InvalidRequestLine);
    assert_eq!(kind_of(b"GET  / HTTP/1.1\r\n\r\n"), ParseErrorKind::InvalidRequestLine);
    assert_eq!(kind_of(b"GET / HTTP/1.1 extra\r\n\r\n"), ParseErrorKind::InvalidRequestLine);
    assert_eq!(kind_of(b"GET /a\tb HTTP/1.1\r\n\r\n"), ParseErrorKind::InvalidRequestLine);
    let e = parse(b"GET /\r\n\r\n").unwrap_err();
    assert_eq!(e.context, b"GET /".to_vec());
}

#[test]
fn wrong_protocol_is_rejected() {
    let e = parse(b"GET / HTTP/2\r\n\r\n").unwrap_err();
    assert_eq!(e.kind, ParseErrorKind::InvalidProtocol);
    assert_eq!(e.context, b"HTTP/2".to_vec());
    assert_eq!(kind_of(b"GET / http/1.1\r\n\r\n"), ParseErrorKind::InvalidProtocol);
    assert_eq!(kind_of(b"GET / HTTP/1x1\r\n\r\n"), ParseErrorKind::InvalidProtocol);
}

#[test]
fn invalid_utf8_path_is_an_encoding_error() {
    let e = parse(b"GET /\xc3\x28 HTTP/1.1\r\n\r\n").unwrap_err();
    assert_eq!(e.kind, ParseErrorKind::EncodingError);
    assert_eq!(e.context, b"/\xc3\x28".to_vec());
}

#[test]
fn utf8_path_is_decoded() {
    let req = parse("GET /caf\u{e9} HTTP/1.1\r\n\r\n".as_bytes()).unwrap();
    assert_eq!(req.path(), "/caf\u{e9}");
    assert_eq!(req.path().chars().count(), 5);
}

#[test]
fn error_kinds_have_descriptions() {
    assert_eq!(ParseErrorKind::InvalidMethod.description(), "invalid method");
    assert_eq!(ParseErrorKind::IncompleteData.description(), "incomplete data");
    assert_eq!(ParseErrorKind::EncodingError.description(), "invalid encoding");
}

#[test]
fn method_tokens() {
    assert_eq!(Method::Delete.token(), b"DELETE".to_vec());
    assert_eq!(Method::from_token(b"xxOPTIONSyy", 2, 9), Some(Method::Options));
    assert_eq!(Method::from_token(b"OPTION", 0, 6), None);
}
