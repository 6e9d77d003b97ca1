use hyper::buffer::Buffer;
use hyper::client::{Conn, Handler, HandlerFactory};
use hyper::conn::{read_body, BodyOutcome};
use hyper::decode::Decoder;
use hyper::encode::{Buf, Encoder};
use hyper::http::{MessageHead, RequestLine};
use hyper::method::Method;
use hyper::next::{Next, Reg};
use hyper::status::RawStatus;

/// Sends `GET /` (or `HEAD /`) and collects the response status and
/// body.
struct GetHandler {
    use_head: bool,
    status: std::rc::Rc<std::cell::Cell<u16>>,
    body: std::rc::Rc<std::cell::RefCell<Vec<u8>>>,
}

impl Handler<Buf> for GetHandler {
    fn on_request(&mut self, head: &mut MessageHead<RequestLine>) -> Next {
        let method = if self.use_head { Method::Head } else { Method::Get };
        head.subject = RequestLine(method, b"/".to_vec());
        head.headers.push(b"Host".to_vec(), b"example.test".to_vec());
        Next::write()
    }

    fn on_request_writable(&mut self, encoder: &mut Encoder, transport: &mut Buf) -> Next {
        // A GET has no body: flush the head and turn to reading.
        let _ = encoder.encode(transport, b"");
        Next::read()
    }

    fn on_response(&mut self, head: MessageHead<RawStatus>) -> Next {
        self.status.set(head.subject.0);
        Next::read()
    }

    fn on_response_readable(&mut self, decoder: &mut Decoder, buf: &mut Buffer, eof: bool) -> Next {
        match read_body(decoder, buf, eof) {
            BodyOutcome::Data(d) => {
                self.body.borrow_mut().extend_from_slice(&d);
                Next::read()
            }
            BodyOutcome::End => Next::end(),
            BodyOutcome::WouldBlock => Next::read(),
            BodyOutcome::Failed(_) => Next::remove(),
        }
    }
}

struct GetFactory {
    use_head: bool,
    status: std::rc::Rc<std::cell::Cell<u16>>,
    body: std::rc::Rc<std::cell::RefCell<Vec<u8>>>,
}

impl HandlerFactory<Buf> for GetFactory {
    type Output = GetHandler;

    fn create(&mut self) -> GetHandler {
        GetHandler {
            use_head: self.use_head,
            status: self.status.clone(),
            body: self.body.clone(),
        }
    }
}

fn fresh() -> (Conn<Buf, GetHandler>, GetFactory) {
    let status = std::rc::Rc::new(std::cell::Cell::new(0));
    let body = std::rc::Rc::new(std::cell::RefCell::new(Vec::new()));
    (Conn::new(Buf::new()), GetFactory { use_head: false, status, body })
}

fn fresh_head() -> (Conn<Buf, GetHandler>, GetFactory) {
    let status = std::rc::Rc::new(std::cell::Cell::new(0));
    let body = std::rc::Rc::new(std::cell::RefCell::new(Vec::new()));
    (Conn::new(Buf::new()), GetFactory { use_head: true, status, body })
}

#[test]
fn client_sends_request_then_reads_response() {
    let (mut conn, mut factory) = fresh();
    assert_eq!(conn.interest(), Reg::Write);
    conn.on_writable(&mut factory); // builds and flushes the head
    conn.on_writable(&mut factory); // handler flushes, turns to read
    let sent = String::from_utf8(conn.transport_ref().contents()).unwrap();
    assert!(sent.starts_with("GET / HTTP/1.1\r\n"), "sent: {sent}");
    assert!(sent.contains("Host: example.test\r\n"));
    assert!(sent.ends_with("\r\n\r\n"));
    assert_eq!(conn.interest(), Reg::Read);

    conn.on_readable(
        &mut factory,
        b"HTTP/1.1 200 OK\r\nContent-Length: 5\r\n\r\nhello",
        false,
    );
    assert_eq!(factory.status.get(), 200);
    assert_eq!(&*factory.body.borrow(), b"hello");
    // Both halves finished and keep-alive held: ready for the next
    // request.
    assert_eq!(conn.interest(), Reg::Write);
}

#[test]
fn client_close_delimited_response_ends_connection() {
    let (mut conn, mut factory) = fresh();
    conn.on_writable(&mut factory);
    conn.on_writable(&mut factory);
    conn.on_readable(&mut factory, b"HTTP/1.1 200 OK\r\n\r\nsome bytes", false);
    assert_eq!(&*factory.body.borrow(), b"some bytes");
    // The body runs to EOF; the handler keeps reading.
    conn.on_readable(&mut factory, b" more", true);
    assert_eq!(&*factory.body.borrow(), b"some bytes more");
    // Close-delimited rules out keep-alive: the exchange's end closes
    // the connection.
    assert_eq!(conn.interest(), Reg::Remove);
}

#[test]
fn client_chunked_response_body() {
    let (mut conn, mut factory) = fresh();
    conn.on_writable(&mut factory);
    conn.on_writable(&mut factory);
    conn.on_readable(
        &mut factory,
        b"HTTP/1.1 200 OK\r\nTransfer-Encoding: chunked\r\n\r\n5\r\nhello\r\n0\r\n\r\n",
        false,
    );
    assert_eq!(&*factory.body.borrow(), b"hello");
    assert_eq!(conn.interest(), Reg::Write);
}

#[test]
fn client_head_response_has_no_body() {
    // The answer to a HEAD carries framing headers but no body: the
    // engine must not wait for 42 bytes that never come.
    let (mut conn, mut factory) = fresh_head();
    conn.on_writable(&mut factory);
    conn.on_writable(&mut factory);
    let sent = String::from_utf8(conn.transport_ref().contents()).unwrap();
    assert!(sent.starts_with("HEAD / HTTP/1.1\r\n"), "sent: {sent}");
    conn.on_readable(
        &mut factory,
        b"HTTP/1.1 200 OK\r\nContent-Length: 42\r\n\r\n",
        false,
    );
    assert_eq!(factory.status.get(), 200);
    assert_eq!(&*factory.body.borrow(), b"");
    assert_eq!(conn.interest(), Reg::Write);
}

#[test]
fn client_bodiless_status_recycles_at_once() {
    let (mut conn, mut factory) = fresh();
    conn.on_writable(&mut factory);
    conn.on_writable(&mut factory);
    conn.on_readable(&mut factory, b"HTTP/1.1 304 Not Modified\r\n\r\n", false);
    assert_eq!(factory.status.get(), 304);
    assert_eq!(&*factory.body.borrow(), b"");
    assert_eq!(conn.interest(), Reg::Write);
}
