use simple_http::request::{parse, ParseError, ParseErrorKind, Request};
use simple_http::response::{Response, StatusCode};
use simple_http::server::{bad_request_response, respond, Handler, Server};

#[test]
fn bad_request_serializes_without_body() {
    let r = Response::new(StatusCode::BadRequest, None);
    assert_eq!(r.serialize(), b"HTTP/1.1 400 Bad Request\r\n\r\n".to_vec());
}

#[test]
fn ok_with_body_has_content_length() {
    let r = Response::new(StatusCode::Success, Some(b"hello world".to_vec()));
    let out = r.serialize();
    assert_eq!(out, b"HTTP/1.1 200 OK\r\nContent-Length: 11\r\n\r\nhello world".to_vec());
    let blank = out.windows(4).position(|w| w == b"\r\n\r\n").unwrap();
    assert_eq!(&out[blank + 4..], b"hello world");
}

#[test]
fn empty_body_still_gets_content_length() {
    let r = Response::new(StatusCode::Success, Some(Vec::new()));
    assert_eq!(r.serialize(), b"HTTP/1.1 200 OK\r\nContent-Length: 0\r\n\r\n".to_vec());
}

#[test]
fn long_body_length_has_several_digits() {
    let body = vec![b'x'; 12345];
    let out = Response::new(StatusCode::Success, Some(body.clone())).serialize();
    let head = b"HTTP/1.1 200 OK\r\nContent-Length: 12345\r\n\r\n";
    assert_eq!(&out[..head.len()], &head[..]);
    assert_eq!(&out[head.len()..], &body[..]);
}

#[test]
fn other_statuses() {
    assert_eq!(
        Response::new(StatusCode::NotFound, None).serialize(),
        b"HTTP/1.1 404 Not Found\r\n\r\n".to_vec()
    );
    assert_eq!(
        Response::new(StatusCode::InternalServerError, None).serialize(),
        b"HTTP/1.1 500 Internal Server Error\r\n\r\n".to_vec()
    );
    assert_eq!(StatusCode::NotFound.code(), 404);
    assert_eq!(StatusCode::Success.reason_phrase(), b"OK".to_vec());
}

#[test]
fn serialize_is_deterministic() {
    let r = Response::new(StatusCode::Success, Some(b"same".to_vec()));
    assert_eq!(r.serialize(), r.serialize());
    let n = Response::new(StatusCode::NotFound, None);
    assert_eq!(n.serialize(), n.serialize());
}

struct Echo {
    logged: Vec<String>,
}

impl Handler for Echo {
    fn handle_request(&mut self, request: &Request) -> Response {
        Response::new(StatusCode::Success, Some(request.path().as_bytes().to_vec()))
    }

    fn log(&mut self, message: &str) {
        self.logged.push(message.to_string());
    }
}

struct Strict;

impl Handler for Strict {
    fn handle_request(&mut self, _request: &Request) -> Response {
        Response::new(StatusCode::Success, None)
    }

    fn handle_bad_request(&mut self, e: &ParseError) -> Response {
        match e.kind {
            ParseErrorKind::InvalidMethod => Response::new(StatusCode::NotFound, None),
            _ => Response::new(StatusCode::InternalServerError, None),
        }
    }
}

#[test]
fn unknown_method_gets_default_bad_request() {
    let e = parse(b"FOO /x HTTP/1.1\r\n\r\n").unwrap_err();
    assert_eq!(e.kind, ParseErrorKind::InvalidMethod);
    let mut h = Echo { logged: Vec::new() };
    let r = h.handle_bad_request(&e);
    assert_eq!(r.serialize(), b"HTTP/1.1 400 Bad Request\r\n\r\n".to_vec());
    assert_eq!(h.logged, vec!["invalid method".to_string()]);
    assert_eq!(bad_request_response().serialize(), b"HTTP/1.1 400 Bad Request\r\n\r\n".to_vec());
}

#[test]
fn respond_dispatches_good_and_bad_requests() {
    let mut h = Echo { logged: Vec::new() };
    let good = respond(&mut h, b"GET /echo HTTP/1.1\r\n\r\n\0\0\0");
    assert_eq!(good.serialize(), b"HTTP/1.1 200 OK\r\nContent-Length: 5\r\n\r\n/echo".to_vec());
    let bad = respond(&mut h, b"FOO /x HTTP/1.1\r\n\r\n");
    assert_eq!(bad.serialize(), b"HTTP/1.1 400 Bad Request\r\n\r\n".to_vec());
    assert_eq!(h.logged.len(), 1);
}

#[test]
fn overridden_bad_request_handler_is_used() {
    let mut h = Strict;
    let r = respond(&mut h, b"FOO /x HTTP/1.1\r\n\r\n");
    assert_eq!(r.serialize(), b"HTTP/1.1 404 Not Found\r\n\r\n".to_vec());
    let r = respond(&mut h, b"GET / HTTP/9\r\n\r\n");
    assert_eq!(r.serialize(), b"HTTP/1.1 500 Internal Server Error\r\n\r\n".to_vec());
}

#[test]
fn server_keeps_its_address() {
    let s = Server::new("127.0.0.1:8080".to_string());
    assert_eq!(s.addr(), "127.0.0.1:8080");
}
