use hyper::decode::{ChunkedState, Decoder};
use hyper::headers::Headers;
use hyper::http::{
    should_keep_alive, server_decoder, MessageHead, RequestLine, ServerMessage,
};
use hyper::method::Method;
use hyper::status::RawStatus;
use hyper::version::HttpVersion::{Http10, Http11};
use hyper::Error;

#[test]
fn test_should_keep_alive() {
    let mut headers = Headers::new();

    assert!(!should_keep_alive(Http10, &headers));
    assert!(should_keep_alive(Http11, &headers));

    headers.set(b"Connection".to_vec(), b"close".to_vec());
    assert!(!should_keep_alive(Http10, &headers));
    assert!(!should_keep_alive(Http11, &headers));

    headers.set(b"Connection".to_vec(), b"keep-alive".to_vec());
    assert!(should_keep_alive(Http10, &headers));
    assert!(should_keep_alive(Http11, &headers));
}

#[test]
fn test_keep_alive_token_lists() {
    let mut headers = Headers::new();
    headers.set(b"Connection".to_vec(), b"Upgrade, Keep-Alive".to_vec());
    assert!(should_keep_alive(Http10, &headers));
    headers.set(b"Connection".to_vec(), b"keep-alive, Close".to_vec());
    assert!(!should_keep_alive(Http11, &headers));
}

fn req(method: Method, header_lines: &[(&[u8], &[u8])]) -> MessageHead<RequestLine> {
    let mut headers = Headers::new();
    for (n, v) in header_lines {
        headers.push(n.to_vec(), v.to_vec());
    }
    MessageHead { version: Http11, subject: RequestLine(method, b"/".to_vec()), headers }
}

#[test]
fn test_server_decoder_get_is_empty() {
    let d = server_decoder(&req(Method::Get, &[(b"Content-Length", b"5")])).unwrap();
    assert_eq!(d, Decoder::Empty);
}

#[test]
fn test_server_decoder_content_length() {
    let d = server_decoder(&req(Method::Post, &[(b"Content-Length", b"5")])).unwrap();
    assert_eq!(d, Decoder::Length(5));
}

#[test]
fn test_server_decoder_chunked() {
    let d = server_decoder(&req(Method::Post, &[(b"Transfer-Encoding", b"chunked")])).unwrap();
    assert_eq!(d, Decoder::Chunked(ChunkedState::SizeFirst, 0));
}

#[test]
fn test_server_decoder_differing_lengths() {
    let e = server_decoder(&req(
        Method::Post,
        &[(b"Content-Length", b"5"), (b"Content-Length", b"6")],
    ))
    .unwrap_err();
    assert_eq!(e, Error::Header);
}

#[test]
fn test_server_decoder_duplicate_same_length() {
    let d = server_decoder(&req(
        Method::Post,
        &[(b"Content-Length", b"5"), (b"content-length", b"5")],
    ))
    .unwrap();
    assert_eq!(d, Decoder::Length(5));
}

#[test]
fn test_server_decoder_invalid_length() {
    let e = server_decoder(&req(Method::Post, &[(b"Content-Length", b"5x")])).unwrap_err();
    assert_eq!(e, Error::Header);
    let e = server_decoder(&req(
        Method::Post,
        &[(b"Content-Length", b"99999999999999999999999")],
    ))
    .unwrap_err();
    assert_eq!(e, Error::Header);
}

#[test]
fn test_server_decoder_both_framings() {
    let e = server_decoder(&req(
        Method::Post,
        &[(b"Content-Length", b"5"), (b"Transfer-Encoding", b"chunked")],
    ))
    .unwrap_err();
    assert_eq!(e, Error::Header);
}

#[test]
fn test_server_encode_adds_date_and_chunked() {
    let mut headers = Headers::new();
    headers.push(b"X-Test".to_vec(), b"1".to_vec());
    let head = MessageHead {
        version: Http11,
        subject: RawStatus(200, b"OK".to_vec()),
        headers,
    };
    let (bytes, encoder) = ServerMessage::encode(head, false, 784111777);
    let text = String::from_utf8(bytes).unwrap();
    assert!(text.starts_with("HTTP/1.1 200 OK\r\n"));
    assert!(text.contains("Date: Sun, 06 Nov 1994 08:49:37 GMT\r\n"));
    assert!(text.contains("Transfer-Encoding: chunked\r\n"));
    assert!(text.ends_with("\r\n\r\n"));
    assert!(!encoder.is_eof());
}

#[test]
fn test_server_encode_honours_content_length() {
    let mut headers = Headers::new();
    headers.push(b"Content-Length".to_vec(), b"0".to_vec());
    let head = MessageHead {
        version: Http11,
        subject: RawStatus(200, b"OK".to_vec()),
        headers,
    };
    let (bytes, encoder) = ServerMessage::encode(head, false, 0);
    let text = String::from_utf8(bytes).unwrap();
    assert!(text.contains("Content-Length: 0\r\n"));
    assert!(!text.contains("Transfer-Encoding"));
    assert!(text.contains("Date: Thu, 01 Jan 1970 00:00:00 GMT\r\n"));
    // A zero-length body is immediately done.
    assert!(encoder.is_eof());
}

#[test]
fn test_date_rendering() {
    assert_eq!(
        hyper::date::http_date(0),
        b"Thu, 01 Jan 1970 00:00:00 GMT".to_vec()
    );
    assert_eq!(
        hyper::date::http_date(784111777),
        b"Sun, 06 Nov 1994 08:49:37 GMT".to_vec()
    );
    assert_eq!(
        hyper::date::http_date(951827696),
        b"Tue, 29 Feb 2000 12:34:56 GMT".to_vec()
    );
}
