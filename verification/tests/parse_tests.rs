use hyper::headers::Headers;
use hyper::http::{ClientMessage, MessageHead, RequestLine, ServerMessage};
use hyper::method::Method;
use hyper::status::RawStatus;
use hyper::version::HttpVersion;
use hyper::Error;

#[test]
fn test_parse_request() {
    let raw = b"GET /echo HTTP/1.1\r\nHost: hyper.rs\r\n\r\n";
    let (head, len) = ServerMessage::parse(raw).unwrap().unwrap();
    assert_eq!(len, raw.len());
    assert!(matches!(head.subject.0, Method::Get));
    assert_eq!(head.subject.1, b"/echo".to_vec());
    assert_eq!(head.version, HttpVersion::Http11);
    assert_eq!(head.headers.len(), 1);
    assert_eq!(head.headers.name_at(0), b"Host".to_vec());
    assert_eq!(head.headers.value_at(0), b"hyper.rs".to_vec());
}

#[test]
fn test_parse_raw_status() {
    let raw = b"HTTP/1.1 200 OK\r\n\r\n";
    let (res, _) = ClientMessage::parse(raw).unwrap().unwrap();
    assert_eq!(res.subject.1, b"OK".to_vec());

    let raw = b"HTTP/1.1 200 Howdy\r\n\r\n";
    let (res, _) = ClientMessage::parse(raw).unwrap().unwrap();
    assert_eq!(res.subject.1, b"Howdy".to_vec());
}

#[test]
fn test_parse_partial() {
    assert!(ServerMessage::parse(b"").unwrap().is_none());
    assert!(ServerMessage::parse(b"GET / HTTP/1.1\r\nHost: a\r\n").unwrap().is_none());
    assert!(ServerMessage::parse(b"GET / HT").unwrap().is_none());
}

#[test]
fn test_parse_bad_request_line() {
    assert_eq!(ServerMessage::parse(b"GET\r\n\r\n").unwrap_err(), Error::Method);
    assert_eq!(ServerMessage::parse(b"GET  HTTP/1.1\r\n\r\n").unwrap_err(), Error::Uri);
    assert_eq!(
        ServerMessage::parse(b"GET / HTTP/2.0\r\n\r\n").unwrap_err(),
        Error::Version
    );
}

#[test]
fn test_parse_bad_header() {
    assert_eq!(
        ServerMessage::parse(b"GET / HTTP/1.1\r\nno-colon-here\r\n\r\n").unwrap_err(),
        Error::Header
    );
}

#[test]
fn test_parse_too_many_headers() {
    let mut raw = b"GET / HTTP/1.1\r\n".to_vec();
    for i in 0..101 {
        raw.extend_from_slice(format!("X-H{}: v\r\n", i).as_bytes());
    }
    raw.extend_from_slice(b"\r\n");
    assert_eq!(ServerMessage::parse(&raw).unwrap_err(), Error::TooLarge);
}

#[test]
fn test_parse_bad_status_line() {
    assert_eq!(ClientMessage::parse(b"HTTP/1.1 2x0 OK\r\n\r\n").unwrap_err(), Error::Status);
    assert_eq!(ClientMessage::parse(b"HTTPS/1.1 200 OK\r\n\r\n").unwrap_err(), Error::Version);
}

#[test]
fn test_parse_keeps_pipelined_bytes() {
    let raw = b"GET / HTTP/1.1\r\nHost: a\r\n\r\nGET /2 HTTP/1.1\r\n\r\n";
    let (_, len) = ServerMessage::parse(raw).unwrap().unwrap();
    assert_eq!(&raw[len..], b"GET /2 HTTP/1.1\r\n\r\n");
}

#[test]
fn test_serialize_then_parse_response() {
    let mut headers = Headers::new();
    headers.push(b"Content-Length".to_vec(), b"4".to_vec());
    let head = MessageHead {
        version: HttpVersion::Http11,
        subject: RawStatus(404, b"Not Found".to_vec()),
        headers,
    };
    let bytes = hyper::parse::serialize_response_head(&head);
    let (back, len) = ClientMessage::parse(&bytes).unwrap().unwrap();
    assert_eq!(len, bytes.len());
    assert_eq!(back.subject.0, 404);
    assert_eq!(back.subject.1, b"Not Found".to_vec());
    assert_eq!(back.headers.len(), 1);
    assert_eq!(back.headers.value_at(0), b"4".to_vec());
}

#[test]
fn test_serialize_then_parse_request() {
    let mut headers = Headers::new();
    headers.push(b"Host".to_vec(), b"example.test".to_vec());
    headers.push(b"Accept".to_vec(), b"*/*".to_vec());
    let head = MessageHead {
        version: HttpVersion::Http11,
        subject: RequestLine(Method::Post, b"/submit".to_vec()),
        headers,
    };
    let bytes = hyper::parse::serialize_request_head(&head);
    let (back, len) = ServerMessage::parse(&bytes).unwrap().unwrap();
    assert_eq!(len, bytes.len());
    assert!(matches!(back.subject.0, Method::Post));
    assert_eq!(back.subject.1, b"/submit".to_vec());
    assert_eq!(back.headers.len(), 2);
    assert_eq!(back.headers.name_at(0), b"Host".to_vec());
    assert_eq!(back.headers.value_at(0), b"example.test".to_vec());
    assert_eq!(back.headers.name_at(1), b"Accept".to_vec());
    assert_eq!(back.headers.value_at(1), b"*/*".to_vec());
}
