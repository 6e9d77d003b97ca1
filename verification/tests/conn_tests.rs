use hyper::buffer::Buffer;
use hyper::conn::{read_body, BodyOutcome, Conn, MessageHandler, MessageHandlerFactory};
use hyper::decode::Decoder;
use hyper::encode::{Buf, Encoder};
use hyper::http::{MessageHead, RequestLine};
use hyper::next::{Next, Reg};
use hyper::status::RawStatus;

const NOW: u64 = 784111777;

/// Answers every request with a `Content-Length: 0` response.
struct OkHandler;

impl MessageHandler<Buf> for OkHandler {
    fn on_incoming(&mut self, _head: MessageHead<RequestLine>) -> Next {
        Next::write()
    }

    fn on_outgoing(&mut self, head: &mut MessageHead<RawStatus>) -> Next {
        head.subject = RawStatus(200, b"OK".to_vec());
        head.headers.set(b"Content-Length".to_vec(), b"0".to_vec());
        Next::write()
    }

    fn on_decode(&mut self, _decoder: &mut Decoder, _buf: &mut Buffer, _eof: bool) -> Next {
        Next::wait()
    }

    fn on_encode(&mut self, encoder: &mut Encoder, transport: &mut Buf) -> Next {
        let _ = encoder.encode(transport, b"");
        Next::end()
    }
}

struct OkFactory;

impl MessageHandlerFactory<Buf> for OkFactory {
    type Output = OkHandler;

    fn create(&mut self) -> OkHandler {
        OkHandler
    }
}

/// Collects the request body, then answers with `Content-Length: 0`.
struct BodyHandler {
    got: std::rc::Rc<std::cell::RefCell<Vec<u8>>>,
}

impl MessageHandler<Buf> for BodyHandler {
    fn on_incoming(&mut self, _head: MessageHead<RequestLine>) -> Next {
        Next::read()
    }

    fn on_outgoing(&mut self, head: &mut MessageHead<RawStatus>) -> Next {
        head.subject = RawStatus(200, b"OK".to_vec());
        head.headers.set(b"Content-Length".to_vec(), b"0".to_vec());
        Next::write()
    }

    fn on_decode(&mut self, decoder: &mut Decoder, buf: &mut Buffer, eof: bool) -> Next {
        match read_body(decoder, buf, eof) {
            BodyOutcome::Data(d) => {
                self.got.borrow_mut().extend_from_slice(&d);
                Next::read()
            }
            BodyOutcome::End => Next::write(),
            BodyOutcome::WouldBlock => Next::read(),
            BodyOutcome::Failed(_) => Next::remove(),
        }
    }

    fn on_encode(&mut self, encoder: &mut Encoder, transport: &mut Buf) -> Next {
        let _ = encoder.encode(transport, b"");
        Next::end()
    }
}

struct BodyFactory {
    got: std::rc::Rc<std::cell::RefCell<Vec<u8>>>,
}

impl MessageHandlerFactory<Buf> for BodyFactory {
    type Output = BodyHandler;

    fn create(&mut self) -> BodyHandler {
        BodyHandler { got: self.got.clone() }
    }
}

fn drive_response(conn: &mut Conn<Buf, OkHandler>) {
    // Head, then body/flush, until the write half rests.
    for _ in 0..4 {
        if conn.interest() == Reg::Write || conn.interest() == Reg::ReadWrite {
            conn.on_writable(NOW);
        }
    }
}

#[test]
fn get_with_no_body_recycles() {
    let mut conn: Conn<Buf, OkHandler> = Conn::new(Buf::new());
    let mut factory = OkFactory;
    conn.on_readable(&mut factory, b"GET / HTTP/1.1\r\nHost: x.y\r\n\r\n\r\n", false);
    assert_eq!(conn.interest(), Reg::Write);
    drive_response(&mut conn);
    // Both halves finished and keep-alive held: a fresh exchange.
    assert_eq!(conn.interest(), Reg::Read);
    let text = String::from_utf8(conn.transport_ref().contents()).unwrap();
    assert!(text.starts_with("HTTP/1.1 200 OK\r\n"), "got: {text}");
    assert!(text.contains("Content-Length: 0\r\n"));
    assert!(text.contains("Date: "));
    assert!(text.ends_with("\r\n\r\n"));
}

#[test]
fn post_content_length_body() {
    let got = std::rc::Rc::new(std::cell::RefCell::new(Vec::new()));
    let mut conn: Conn<Buf, BodyHandler> = Conn::new(Buf::new());
    let mut factory = BodyFactory { got: got.clone() };
    conn.on_readable(
        &mut factory,
        b"POST /e HTTP/1.1\r\nHost: a\r\nContent-Length: 5\r\n\r\nhello",
        false,
    );
    assert_eq!(&*got.borrow(), b"hello");
    assert_eq!(conn.interest(), Reg::Write);
    for _ in 0..4 {
        conn.on_writable(NOW);
    }
    assert_eq!(conn.interest(), Reg::Read);
}

#[test]
fn post_chunked_body() {
    let got = std::rc::Rc::new(std::cell::RefCell::new(Vec::new()));
    let mut conn: Conn<Buf, BodyHandler> = Conn::new(Buf::new());
    let mut factory = BodyFactory { got: got.clone() };
    conn.on_readable(
        &mut factory,
        b"POST / HTTP/1.1\r\nHost: a\r\nTransfer-Encoding: chunked\r\n\r\n1\r\nq\r\n2\r\nwe\r\n2\r\nrt\r\n0\r\n\r\n",
        false,
    );
    assert_eq!(&*got.borrow(), b"qwert");
    assert_eq!(conn.interest(), Reg::Write);
}

#[test]
fn get_ignores_stray_body_bytes() {
    // A GET carries no body: nothing past the head is decoded as one.
    let got = std::rc::Rc::new(std::cell::RefCell::new(Vec::new()));
    let mut conn: Conn<Buf, BodyHandler> = Conn::new(Buf::new());
    let mut factory = BodyFactory { got: got.clone() };
    conn.on_readable(
        &mut factory,
        b"GET / HTTP/1.1\r\nHost: example.domain\r\n\r\nI shouldn't be read.\r\n",
        false,
    );
    assert_eq!(&*got.borrow(), b"");
}

#[test]
fn keep_alive_pipelining_in_one_read() {
    let mut conn: Conn<Buf, OkHandler> = Conn::new(Buf::new());
    let mut factory = OkFactory;
    conn.on_readable(
        &mut factory,
        b"GET / HTTP/1.1\r\nHost: a\r\n\r\nGET /two HTTP/1.1\r\nHost: a\r\n\r\n",
        false,
    );
    drive_response(&mut conn);
    assert_eq!(conn.interest(), Reg::Read);
    // The second exchange parses from the retained buffer alone.
    conn.on_readable(&mut factory, b"", false);
    assert_eq!(conn.interest(), Reg::Write);
    drive_response(&mut conn);
    assert_eq!(conn.interest(), Reg::Read);
    let text = String::from_utf8(conn.transport_ref().contents()).unwrap();
    assert_eq!(text.matches("HTTP/1.1 200 OK\r\n").count(), 2);
}

#[test]
fn malformed_content_length_closes_without_response() {
    let mut conn: Conn<Buf, OkHandler> = Conn::new(Buf::new());
    let mut factory = OkFactory;
    conn.on_readable(
        &mut factory,
        b"POST / HTTP/1.1\r\nHost: a\r\nContent-Length: 5\r\nContent-Length: 6\r\n\r\nhello",
        false,
    );
    assert_eq!(conn.interest(), Reg::Remove);
    assert_eq!(conn.transport_ref().contents(), b"".to_vec());
}

/// Returns 200 with `Content-Length: 42` to a HEAD request.
struct HeadHandler;

impl MessageHandler<Buf> for HeadHandler {
    fn on_incoming(&mut self, _head: MessageHead<RequestLine>) -> Next {
        Next::write()
    }

    fn on_outgoing(&mut self, head: &mut MessageHead<RawStatus>) -> Next {
        head.subject = RawStatus(200, b"OK".to_vec());
        head.headers.set(b"Content-Length".to_vec(), b"42".to_vec());
        Next::write()
    }

    fn on_decode(&mut self, _decoder: &mut Decoder, _buf: &mut Buffer, _eof: bool) -> Next {
        Next::wait()
    }

    fn on_encode(&mut self, encoder: &mut Encoder, transport: &mut Buf) -> Next {
        // Body bytes are refused outright; only the head goes out.
        let refused = encoder.encode(transport, b"forty-two bytes of body that never appear");
        assert_eq!(refused, hyper::encode::EncodeOutcome::WriteZero);
        let _ = encoder.encode(transport, b"");
        Next::end()
    }
}

struct HeadFactory;

impl MessageHandlerFactory<Buf> for HeadFactory {
    type Output = HeadHandler;

    fn create(&mut self) -> HeadHandler {
        HeadHandler
    }
}

#[test]
fn head_response_has_no_body() {
    let mut conn: Conn<Buf, HeadHandler> = Conn::new(Buf::new());
    let mut factory = HeadFactory;
    conn.on_readable(&mut factory, b"HEAD / HTTP/1.1\r\nHost: a\r\n\r\n", false);
    for _ in 0..4 {
        conn.on_writable(NOW);
    }
    let text = String::from_utf8(conn.transport_ref().contents()).unwrap();
    assert!(text.contains("Content-Length: 42\r\n"));
    // Outbound bytes are the head alone.
    assert!(text.ends_with("\r\n\r\n"));
    assert!(!text.contains("forty-two"));
    assert_eq!(conn.interest(), Reg::Read);
}

/// Answers with contradictory Content-Length lines.
struct BadClHandler;

impl MessageHandler<Buf> for BadClHandler {
    fn on_incoming(&mut self, _head: MessageHead<RequestLine>) -> Next {
        Next::write()
    }

    fn on_outgoing(&mut self, head: &mut MessageHead<RawStatus>) -> Next {
        head.subject = RawStatus(200, b"OK".to_vec());
        head.headers.push(b"Content-Length".to_vec(), b"5".to_vec());
        head.headers.push(b"Content-Length".to_vec(), b"6".to_vec());
        Next::write()
    }

    fn on_decode(&mut self, _decoder: &mut Decoder, _buf: &mut Buffer, _eof: bool) -> Next {
        Next::wait()
    }

    fn on_encode(&mut self, _encoder: &mut Encoder, _transport: &mut Buf) -> Next {
        Next::end()
    }
}

struct BadClFactory;

impl MessageHandlerFactory<Buf> for BadClFactory {
    type Output = BadClHandler;

    fn create(&mut self) -> BadClHandler {
        BadClHandler
    }
}

#[test]
fn contradictory_outgoing_framing_closes() {
    // A head the wire grammar cannot carry is never written.
    let mut conn: Conn<Buf, BadClHandler> = Conn::new(Buf::new());
    let mut factory = BadClFactory;
    conn.on_readable(&mut factory, b"GET / HTTP/1.1\r\nHost: a\r\n\r\n", false);
    conn.on_writable(NOW);
    assert_eq!(conn.interest(), Reg::Remove);
    assert_eq!(conn.transport_ref().contents(), b"".to_vec());
}

/// Answers with a status the wire grammar cannot carry.
struct BadStatusHandler;

impl MessageHandler<Buf> for BadStatusHandler {
    fn on_incoming(&mut self, _head: MessageHead<RequestLine>) -> Next {
        Next::write()
    }

    fn on_outgoing(&mut self, head: &mut MessageHead<RawStatus>) -> Next {
        head.subject = RawStatus(99, b"Sub-Minimal".to_vec());
        Next::write()
    }

    fn on_decode(&mut self, _decoder: &mut Decoder, _buf: &mut Buffer, _eof: bool) -> Next {
        Next::wait()
    }

    fn on_encode(&mut self, _encoder: &mut Encoder, _transport: &mut Buf) -> Next {
        Next::end()
    }
}

struct BadStatusFactory;

impl MessageHandlerFactory<Buf> for BadStatusFactory {
    type Output = BadStatusHandler;

    fn create(&mut self) -> BadStatusHandler {
        BadStatusHandler
    }
}

#[test]
fn out_of_range_status_closes() {
    let mut conn: Conn<Buf, BadStatusHandler> = Conn::new(Buf::new());
    let mut factory = BadStatusFactory;
    conn.on_readable(&mut factory, b"GET / HTTP/1.1\r\nHost: a\r\n\r\n", false);
    conn.on_writable(NOW);
    assert_eq!(conn.interest(), Reg::Remove);
    assert_eq!(conn.transport_ref().contents(), b"".to_vec());
}

#[test]
fn oversized_head_closes() {
    let mut conn: Conn<Buf, OkHandler> = Conn::new(Buf::new());
    let mut factory = OkFactory;
    // A head that never completes and exceeds the buffer cap.
    let huge = vec![b'a'; 8192 + 4096 * 100];
    conn.on_readable(&mut factory, &huge, false);
    assert_eq!(conn.interest(), Reg::Remove);
    assert_eq!(conn.transport_ref().contents(), b"".to_vec());
}

#[test]
fn timeout_closes() {
    let mut conn: Conn<Buf, OkHandler> = Conn::new(Buf::new());
    let mut factory = OkFactory;
    conn.on_readable(&mut factory, b"GET / HTTP", false);
    conn.on_timeout();
    assert_eq!(conn.interest(), Reg::Remove);
}

#[test]
fn eof_before_head_closes() {
    let mut conn: Conn<Buf, OkHandler> = Conn::new(Buf::new());
    let mut factory = OkFactory;
    conn.on_readable(&mut factory, b"GET / HTTP/1.1\r\nHo", true);
    assert_eq!(conn.interest(), Reg::Remove);
}
