//! The client side of the engine: the same per-connection state
//! machine with the roles turned around. The connection writes its
//! request first, then reads the response; close-delimited response
//! bodies force the connection to end with the exchange.

use vstd::prelude::*;
use crate::buffer::Buffer;
use crate::buffer::MAX_BUFFER_SIZE;
use crate::conn::Http1;
use crate::conn::Reading;
use crate::conn::State;
use crate::conn::Writing;
use crate::conn::client_phase;
use crate::conn::state_view;
use crate::conn::view_update;
use crate::conn::lemma_view_update;
use crate::conn::spec_chunk_flush;
use crate::conn::ConnView;
use crate::conn::Http1View;
use crate::conn::ReadingView;
use crate::conn::WritingView;
use crate::conn::lemma_suffix_refl;
use crate::conn::lemma_suffix_trans;
use crate::conn::reading_wants_read;
use crate::conn::seq_suffix_of;
use crate::conn::state_wf;
use crate::conn::update_state;
use crate::conn::writing_wants_write;
use crate::decode::Decoder;
use crate::encode::AtomicWrite;
use crate::encode::Encoder;
use crate::encode::WriteOutcome;
use crate::headers::Headers;
use crate::http::MessageHead;
use crate::http::RequestLine;
use crate::http::WriteBuf;
use crate::method::Method;
use crate::next::Next;
use crate::next::NextKind;
use crate::next::Reg;
use crate::parse::parse_response;
use crate::parse::spec_parse_response;
use crate::parse::RespOut;
use crate::status::RawStatus;
use crate::version::HttpVersion;

verus! {

/// The client's callbacks: fill in the request, write its body, take
/// the response head, read its body.
pub trait Handler<T: AtomicWrite> {
    /// The engine is about to send the request head; fill it in.
    fn on_request(&mut self, head: &mut MessageHead<RequestLine>) -> Next;

    /// The transport is writable: write request body bytes.
    fn on_request_writable(&mut self, encoder: &mut Encoder, transport: &mut T) -> (r: Next)
        requires
            old(encoder).wf(),
        ensures
            final(encoder).wf(),
            old(transport).written().is_prefix_of(final(transport).written()),
    ;

    /// A complete response head has been parsed.
    fn on_response(&mut self, head: MessageHead<RawStatus>) -> Next;

    /// Response body bytes may be available. An implementation leaves
    /// the decoder and buffer alone, or consumes exactly what the body
    /// framing claims (what `read_body` does), or stops at the
    /// framing's own error: bytes past the body stay.
    fn on_response_readable(&mut self, decoder: &mut Decoder, buf: &mut Buffer, eof: bool) -> (r:
        Next)
        ensures
            seq_suffix_of(final(buf)@, old(buf)@),
            ({
                ||| (*final(decoder) == *old(decoder) && final(buf)@ == old(buf)@)
                ||| (crate::decode::spec_decode(*old(decoder), old(buf)@, eof).0 == Ok::<
                    Decoder,
                    crate::Error,
                >(*final(decoder)) && final(buf)@ == old(buf)@.skip(
                    crate::decode::spec_decode(*old(decoder), old(buf)@, eof).1,
                ))
                ||| (crate::decode::spec_decode(*old(decoder), old(buf)@, eof).0 is Err && final(buf)@ == old(buf)@)
            }),
    ;
}

/// Creates one handler per exchange.
pub trait HandlerFactory<T: AtomicWrite> {
    type Output: Handler<T>;

    fn create(&mut self) -> Self::Output;
}

/// The registration a client state asks the reactor for: a fresh
/// connection writes first.
pub open spec fn spec_client_interest<H>(s: State<H>) -> Reg {
    match s {
        State::Closed => Reg::Remove,
        State::Init => Reg::Write,
        State::Http1(h) => if h.reading is Closed && h.writing is Closed {
            Reg::Remove
        } else {
            if reading_wants_read(h.reading) {
                if writing_wants_write(h.writing) {
                    Reg::ReadWrite
                } else {
                    Reg::Read
                }
            } else {
                if writing_wants_write(h.writing) {
                    Reg::Write
                } else {
                    Reg::Wait
                }
            }
        },
    }
}

/// The state after a fresh exchange's request head `hv` was built:
/// the head renders per the codec, becomes the encoder's prefix (or a
/// buffered flush), keep-alive comes from the head, and the handler's
/// directive applies.
pub open spec fn spec_request_built(hv: crate::parse::ReqHeadView, nx: Next) -> ConnView {
    let bytes = crate::parse::render_request_head(crate::http::spec_client_head_out(hv));
    let kind = crate::http::spec_client_encoder_kind(hv);
    let ka = crate::http::spec_should_keep_alive(hv.version, hv.headers);
    let hr = hv.method == crate::method::head_token();
    let wv = if nx.interest is Write || nx.interest is ReadWrite {
        WritingView::Ready(crate::encode::EncView { prefix_rem: bytes, kind })
    } else {
        WritingView::Chunk(bytes, crate::encode::EncView { prefix_rem: Seq::empty(), kind }, nx)
    };
    view_update(
        ConnView::Http1(
            Http1View { reading: ReadingView::Init, writing: wv, keep_alive: ka, head_request: hr },
        ),
        nx,
    )
}

/// Everything one writable event may do on a client connection: a
/// fresh exchange builds its request per the codec (or closes on
/// framing the wire cannot carry), a pending head flush advances by
/// exactly what the transport took, a live encoder moves only by the
/// handler's directive, and every other half leaves it untouched.
pub open spec fn spec_client_writable_post(
    pre: ConnView,
    post: ConnView,
    w0: Seq<u8>,
    w1: Seq<u8>,
) -> bool {
    match pre {
        ConnView::Init => w1 == w0 && (post is Closed || exists|hv: crate::parse::ReqHeadView, nx: Next|
            post == #[trigger] spec_request_built(hv, nx)),
        ConnView::Http1(h) => match h.writing {
            WritingView::Chunk(rem, ev, stored) => exists|n: int|
                0 <= n <= rem.len() && w1 == w0 + #[trigger] rem.take(n) && (post
                    == spec_chunk_flush(h, n) || (n == 0 && post is Closed)),
            WritingView::Ready(_) => exists|ev2: crate::encode::EncView, nx: Next|
                post == #[trigger] view_update(
                    ConnView::Http1(Http1View { writing: WritingView::Ready(ev2), ..h }),
                    nx,
                ),
            _ => post == pre && w1 == w0,
        },
        ConnView::Closed => post is Closed && w1 == w0,
    }
}

/// The state after the response head `v` arrived for an exchange: its
/// decoder is selected per the codec, keep-alive narrows by the head
/// and vanishes for a close-delimited body, and the handler's
/// directive applies. Framing the codec rejects closes instead.
pub open spec fn spec_response_received(
    h: Http1View,
    v: crate::parse::RespHeadView,
    req_connect: bool,
    nx: Next,
) -> ConnView {
    match crate::http::spec_client_decoder(v, h.head_request, req_connect) {
        Err(_) => ConnView::Closed,
        Ok(dec) => {
            let ka1 = h.keep_alive && crate::http::spec_should_keep_alive(v.version, v.headers);
            let ka2 = if dec is CloseDelimited {
                false
            } else {
                ka1
            };
            view_update(
                ConnView::Http1(
                    Http1View { reading: ReadingView::Wait(dec), keep_alive: ka2, ..h },
                ),
                nx,
            )
        },
    }
}

/// Everything one readable event does on a client connection before a
/// handler can steer it: bytes are only ever consumed from the front;
/// before the request is sent nothing is read; while the response head
/// is awaited, a malformed or oversized head and EOF all close the
/// connection, an incomplete head leaves everything in place, and a
/// parsed head is consumed exactly.
pub open spec fn spec_client_readable_post(
    pre: ConnView,
    base: Seq<u8>,
    eof: bool,
    req_connect: bool,
    post: ConnView,
    buf1: Seq<u8>,
) -> bool {
    &&& crate::conn::seq_suffix_of(buf1, base)
    &&& (pre is Closed ==> post is Closed && buf1 == base)
    &&& (pre is Init ==> (eof ==> post is Closed) && (!eof ==> post is Init) && buf1 == base)
    &&& ((match pre {
        ConnView::Http1(h) => h.reading is Parse,
        _ => false,
    }) ==> match spec_parse_response(base) {
        RespOut::Bad(_) => post is Closed && buf1 == base,
        RespOut::Pending => ((base.len() >= MAX_BUFFER_SIZE || eof) ==> post is Closed && buf1
            == base) && ((base.len() < MAX_BUFFER_SIZE && !eof) ==> post == pre && buf1 == base),
        RespOut::Done(v, len) => crate::conn::seq_suffix_of(buf1, base.skip(len)) && (match pre {
            ConnView::Http1(h) => crate::http::spec_client_decoder(v, h.head_request, req_connect)
                is Err ==> post is Closed && buf1 == base.skip(len),
            _ => true,
        }),
    })
}

/// A client connection: its inbound buffer, its state, and the
/// transport it writes to.
pub struct Conn<T: AtomicWrite, H: Handler<T>> {
    buf: Buffer,
    state: State<H>,
    transport: T,
    // Whether the in-flight request was CONNECT: it shapes the
    // response's framing alongside the `HEAD` flag the exchange holds.
    request_connect: bool,
}

impl<T: AtomicWrite, H: Handler<T>> Conn<T, H> {
    /// The connection's abstract state: the machine with the handler
    /// dropped.
    pub closed spec fn view(&self) -> ConnView {
        state_view(self.state)
    }

    /// Whether the in-flight request was `CONNECT`.
    pub closed spec fn spec_request_connect(&self) -> bool {
        self.request_connect
    }

    /// The unconsumed inbound bytes.
    pub closed spec fn buf_view(&self) -> Seq<u8> {
        self.buf@
    }

    /// Everything written to the transport so far.
    pub closed spec fn written(&self) -> Seq<u8> {
        self.transport.written()
    }

    /// Cursors sit inside their buffers, and the client's phase
    /// discipline holds: an exchange exists only with its request
    /// head built.
    pub closed spec fn wf(&self) -> bool {
        state_wf(self.state) && client_phase(self.state)
    }

    /// Whether the connection is closed for good.
    pub closed spec fn spec_is_closed(&self) -> bool {
        self.state is Closed
    }

    /// Whether the connection awaits a fresh exchange.
    pub closed spec fn spec_is_init(&self) -> bool {
        self.state is Init
    }

    /// The reactor registration the current state asks for.
    pub closed spec fn spec_state_interest(&self) -> Reg {
        spec_client_interest(self.state)
    }

    /// A fresh client connection around a transport.
    pub fn new(transport: T) -> (r: Conn<T, H>)
        ensures
            r.wf(),
            r.spec_is_init(),
            r.buf_view() == Seq::<u8>::empty(),
            r.written() == transport.written(),
    {
        Conn { buf: Buffer::new(), state: State::Init, transport, request_connect: false }
    }

    /// The transport, for inspection.
    pub fn transport_ref(&self) -> (r: &T)
        ensures
            r.written() == self.written(),
    {
        &self.transport
    }

    /// The registration to hand the reactor after the last event.
    pub fn interest(&self) -> (r: Reg)
        ensures
            r == self.spec_state_interest(),
    {
        match &self.state {
            State::Closed => Reg::Remove,
            State::Init => Reg::Write,
            State::Http1(h) => {
                if matches!(h.reading, Reading::Closed) && matches!(h.writing, Writing::Closed) {
                    Reg::Remove
                } else {
                    let wants_read = matches!(h.reading, Reading::Parse | Reading::Body(_));
                    let wants_write = matches!(
                        h.writing,
                        Writing::Head | Writing::Chunk(_, _, _) | Writing::Ready(_)
                    );
                    if wants_read {
                        if wants_write {
                            Reg::ReadWrite
                        } else {
                            Reg::Read
                        }
                    } else {
                        if wants_write {
                            Reg::Write
                        } else {
                            Reg::Wait
                        }
                    }
                }
            },
        }
    }

    /// A timeout fired with no recovery: the connection closes.
    pub fn on_timeout(&mut self)
        ensures
            final(self).wf(),
            final(self).spec_is_closed(),
            final(self).written() == old(self).written(),
            final(self).buf_view() == old(self).buf_view(),
    {
        self.state = State::Closed;
    }

    /// Tries to parse a response head from the buffer.
    fn try_parse(&mut self) -> (r: Result<Option<MessageHead<RawStatus>>, crate::Error>)
        ensures
            final(self).written() == old(self).written(),
            final(self).state == old(self).state,
            final(self).spec_request_connect() == old(self).spec_request_connect(),
            seq_suffix_of(final(self).buf_view(), old(self).buf_view()),
            match r {
                Ok(Some(h)) => match spec_parse_response(old(self).buf_view()) {
                    RespOut::Done(v, len) => v == crate::parse::resp_view(h) && final(self).buf_view() == old(self).buf_view().skip(len),
                    _ => false,
                },
                Ok(None) => spec_parse_response(old(self).buf_view()) is Pending && final(self).buf_view() == old(self).buf_view() && old(self).buf_view().len()
                    < MAX_BUFFER_SIZE,
                Err(e) => final(self).buf_view() == old(self).buf_view() && match
                    spec_parse_response(old(self).buf_view()) {
                    RespOut::Bad(e2) => e == e2,
                    RespOut::Pending => e == crate::Error::TooLarge && old(self).buf_view().len()
                        >= MAX_BUFFER_SIZE,
                    RespOut::Done(_, _) => false,
                },
            },
    {
        let bytes = self.buf.bytes();
        proof {
            lemma_suffix_refl(self.buf@);
        }
        match parse_response(bytes.as_slice()) {
            Err(e) => Err(e),
            Ok(Some((head, len))) => {
                proof {
                    match spec_parse_response(self.buf@) {
                        RespOut::Done(v, l) => {
                            assert(l == len as int);
                        },
                        _ => {
                            assert(false);
                        },
                    }
                }
                self.buf.consume(len);
                proof {
                    assert(seq_suffix_of(self.buf@, old(self).buf@));
                }
                Ok(Some(head))
            },
            Ok(None) => {
                if self.buf.len() >= MAX_BUFFER_SIZE {
                    Err(crate::Error::TooLarge)
                } else {
                    Ok(None)
                }
            },
        }
    }

    /// One pass of the read path. Never writes to the transport.
    fn read_once<F: HandlerFactory<T, Output = H>>(
        &mut self,
        _factory: &mut F,
        st: State<H>,
        eof: bool,
    ) -> (r: State<H>)
        requires
            state_wf(st),
        ensures
            state_wf(r),
            client_phase(st) ==> client_phase(r),
            final(self).written() == old(self).written(),
            seq_suffix_of(final(self).buf_view(), old(self).buf_view()),
            final(self).state == old(self).state,
            final(self).spec_request_connect() == old(self).spec_request_connect(),
            state_view(st) is Closed ==> state_view(r) is Closed && final(self).buf_view() == old(self).buf_view(),
            state_view(st) is Init ==> (eof ==> state_view(r) is Closed) && (!eof ==> state_view(
                r,
            ) is Init) && final(self).buf_view() == old(self).buf_view(),
            (match state_view(st) {
                ConnView::Http1(h) => h.reading is Parse,
                _ => false,
            }) ==> match spec_parse_response(old(self).buf_view()) {
                RespOut::Bad(_) => state_view(r) is Closed && final(self).buf_view() == old(self).buf_view(),
                RespOut::Pending => ((old(self).buf_view().len() >= MAX_BUFFER_SIZE || eof)
                    ==> state_view(r) is Closed && final(self).buf_view() == old(self).buf_view())
                    && ((old(self).buf_view().len() < MAX_BUFFER_SIZE && !eof) ==> r == st
                    && final(self).buf_view() == old(self).buf_view()),
                RespOut::Done(v, len) => final(self).buf_view() == old(self).buf_view().skip(len)
                    && match state_view(st) {
                    ConnView::Http1(h) => (crate::http::spec_client_decoder(
                        v,
                        h.head_request,
                        old(self).spec_request_connect(),
                    ) is Err ==> state_view(r) is Closed) && (crate::http::spec_client_decoder(
                        v,
                        h.head_request,
                        old(self).spec_request_connect(),
                    ) is Ok ==> exists|nx: Next|
                        state_view(r) == #[trigger] spec_response_received(
                            h,
                            v,
                            old(self).spec_request_connect(),
                            nx,
                        )),
                    _ => true,
                },
            },
            (match state_view(st) {
                ConnView::Http1(h) => h.reading is Wait || h.reading is KeepAlive || h.reading
                    is Closed || h.reading is Init,
                _ => false,
            }) ==> r == st && final(self).buf_view() == old(self).buf_view(),
    {
        let ghost sv0 = state_view(st);
        proof {
            lemma_suffix_refl(self.buf@);
        }
        match st {
            State::Closed => State::Closed,
            // A client in `Init` has not sent its request yet; there
            // is nothing to read for it.
            State::Init => {
                if eof {
                    State::Closed
                } else {
                    State::Init
                }
            },
            State::Http1(h) => {
                let Http1 { mut handler, reading, writing, mut keep_alive, head_request } = h;
                let ghost hv0 = Http1View {
                    reading: crate::conn::reading_view(reading),
                    writing: crate::conn::writing_view(writing),
                    keep_alive,
                    head_request,
                };
                proof {
                    assert(sv0 == ConnView::Http1(hv0));
                }
                match reading {
                    Reading::Init => {
                        // The request is on its way out; the response
                        // has not been asked for yet.
                        State::Http1(
                            Http1 {
                                handler,
                                reading: Reading::Init,
                                writing,
                                keep_alive,
                                head_request,
                            },
                        )
                    },
                    Reading::Parse => {
                        match self.try_parse() {
                            Ok(None) => {
                                if eof {
                                    State::Closed
                                } else {
                                    State::Http1(
                                        Http1 {
                                            handler,
                                            reading: Reading::Parse,
                                            writing,
                                            keep_alive,
                                            head_request,
                                        },
                                    )
                                }
                            },
                            Err(_) => State::Closed,
                            Ok(Some(head)) => {
                                let ghost v = crate::parse::resp_view(head);
                                match crate::http::client_decoder(
                                    &head,
                                    head_request,
                                    self.request_connect,
                                ) {
                                    Err(_) => State::Closed,
                                    Ok(decoder) => {
                                        // The server agrees to keep-alive
                                        // only through its own head; a
                                        // close-delimited body rules it
                                        // out entirely.
                                        if keep_alive {
                                            keep_alive = head.should_keep_alive();
                                        }
                                        if matches!(decoder, Decoder::CloseDelimited(_)) {
                                            keep_alive = false;
                                        }
                                        let next = handler.on_response(head);
                                        let st2 = State::Http1(
                                            Http1 {
                                                handler,
                                                reading: Reading::Wait(decoder),
                                                writing,
                                                keep_alive,
                                                head_request,
                                            },
                                        );
                                        proof {
                                            assert(state_view(st2) =~= ConnView::Http1(
                                                Http1View {
                                                    reading: ReadingView::Wait(decoder),
                                                    keep_alive,
                                                    ..hv0
                                                },
                                            ));
                                        }
                                        let r2 = update_state(st2, next);
                                        proof {
                                            lemma_view_update(st2, next);
                                            assert(state_view(r2) == spec_response_received(
                                                hv0,
                                                v,
                                                self.request_connect,
                                                next,
                                            ));
                                        }
                                        r2
                                    },
                                }
                            },
                        }
                    },
                    Reading::Body(decoder) => {
                        let mut decoder = decoder;
                        let next = handler.on_response_readable(&mut decoder, &mut self.buf, eof);
                        let st2 = State::Http1(
                            Http1 {
                                handler,
                                reading: Reading::Body(decoder),
                                writing,
                                keep_alive,
                                head_request,
                            },
                        );
                        update_state(st2, next)
                    },
                    other => State::Http1(
                        Http1 { handler, reading: other, writing, keep_alive, head_request },
                    ),
                }
            },
        }
    }

    /// A readable event: response bytes from the reactor, `eof` when
    /// the transport ended after them. Never writes to the transport.
    pub fn on_readable<F: HandlerFactory<T, Output = H>>(
        &mut self,
        factory: &mut F,
        input: &[u8],
        eof: bool,
    )
        requires
            old(self).wf(),
            old(self).buf_view().len() + input@.len() <= usize::MAX,
        ensures
            final(self).wf(),
            final(self).written() == old(self).written(),
            final(self).spec_request_connect() == old(self).spec_request_connect(),
            spec_client_readable_post(
                old(self)@,
                old(self).buf_view() + input@,
                eof,
                old(self).spec_request_connect(),
                final(self)@,
                final(self).buf_view(),
            ),
    {
        let ghost pre = self@;
        let ghost base = old(self).buf_view() + input@;
        let ghost rc = self.spec_request_connect();
        self.buf.append(input);
        proof {
            lemma_suffix_refl(self.buf@);
        }
        // The first pass: while the response head is owed, the engine
        // alone decides, and the contract pins each outcome.
        let len_before0 = self.buf.len();
        let mut st = State::Closed;
        core::mem::swap(&mut self.state, &mut st);
        let st2 = self.read_once(factory, st, eof);
        self.state = st2;
        let again0 = match &self.state {
            State::Http1(h) => match &h.reading {
                Reading::Body(d) => d.is_eof() || (!self.buf.is_empty() && self.buf.len()
                    < len_before0),
                _ => false,
            },
            _ => false,
        };
        if !again0 {
            proof {
                lemma_suffix_refl(self.buf_view());
            }
            return ;
        }
        // Further passes walk the body as far as the buffered bytes
        // carry it.
        proof {
            lemma_suffix_refl(self.buf_view());
        }
        let start_len = self.buf.len();
        let mut fuel: usize = if start_len >= usize::MAX - 4 {
            usize::MAX
        } else {
            start_len + 4
        };
        loop
            invariant
                state_wf(self.state),
                client_phase(self.state),
                self.written() == old(self).written(),
                self.spec_request_connect() == rc,
                seq_suffix_of(self.buf_view(), base),
                pre is Closed ==> self@ is Closed && self.buf_view() == base,
                pre is Init ==> (eof ==> self@ is Closed) && (!eof ==> self@ is Init)
                    && self.buf_view() == base,
                (match pre {
                    ConnView::Http1(h) => h.reading is Parse,
                    _ => false,
                }) ==> match spec_parse_response(base) {
                    RespOut::Bad(_) => self@ is Closed && self.buf_view() == base,
                    RespOut::Pending => ((base.len() >= MAX_BUFFER_SIZE || eof) ==> self@
                        is Closed && self.buf_view() == base) && ((base.len() < MAX_BUFFER_SIZE
                        && !eof) ==> self@ == pre && self.buf_view() == base),
                    RespOut::Done(v, len) => seq_suffix_of(self.buf_view(), base.skip(len)) && (
                    match pre {
                        ConnView::Http1(h) => crate::http::spec_client_decoder(v, h.head_request, rc)
                            is Err ==> self@ is Closed && self.buf_view() == base.skip(len),
                        _ => true,
                    }),
                },
            decreases fuel,
        {
            if fuel == 0 {
                break;
            }
            fuel = fuel - 1;
            let len_before = self.buf.len();
            let mut st = State::Closed;
            core::mem::swap(&mut self.state, &mut st);
            let ghost buf_before = self.buf_view();
            let st2 = self.read_once(factory, st, eof);
            proof {
                lemma_suffix_trans(self.buf_view(), buf_before, base);
                match pre {
                    ConnView::Http1(h) => {
                        if h.reading is Parse {
                            match spec_parse_response(base) {
                                RespOut::Done(v, len) => {
                                    lemma_suffix_trans(self.buf_view(), buf_before, base.skip(len));
                                },
                                _ => {},
                            }
                        }
                    },
                    _ => {},
                }
            }
            self.state = st2;
            let again = match &self.state {
                State::Http1(h) => match &h.reading {
                    Reading::Body(d) => d.is_eof() || (!self.buf.is_empty() && self.buf.len()
                        < len_before),
                    _ => false,
                },
                _ => false,
            };
            if !again {
                break;
            }
        }
    }

    /// One pass of the write path. Never touches the inbound buffer.
    fn write_once<F: HandlerFactory<T, Output = H>>(
        &mut self,
        factory: &mut F,
        st: State<H>,
    ) -> (r: State<H>)
        requires
            state_wf(st),
        ensures
            state_wf(r),
            client_phase(st) ==> client_phase(r),
            final(self).buf_view() == old(self).buf_view(),
            old(self).written().is_prefix_of(final(self).written()),
            final(self).state == old(self).state,
            spec_client_writable_post(
                state_view(st),
                state_view(r),
                old(self).written(),
                final(self).written(),
            ),
    {
        let ghost sv0 = state_view(st);
        proof {
            assert(old(self).written().is_prefix_of(old(self).written())) by {
                assert(old(self).written() =~= old(self).written().take(
                    old(self).written().len() as int,
                ));
            }
        }
        match st {
            State::Closed => State::Closed,
            State::Init => {
                // A fresh exchange: build and start sending the
                // request head.
                let mut handler = factory.create();
                let mut head = MessageHead {
                    version: HttpVersion::Http11,
                    subject: RequestLine(Method::Get, Vec::new()),
                    headers: Headers::new(),
                };
                let next = handler.on_request(&mut head);
                let keep_alive = head.should_keep_alive();
                let head_request = head.subject.0.is_head();
                self.request_connect = head.subject.0.is_connect();
                let ghost hv = crate::parse::req_view(head);
                // Contradictory Content-Length lines cannot be sent:
                // the connection closes instead.
                let cl_bad = matches!(
                    head.headers.content_length(),
                    crate::headers::ContentLength::Bad
                );
                if cl_bad {
                    return State::Closed;
                }
                let (bytes, mut encoder) = crate::http::client_encode(head);
                let ghost head_bytes = bytes@;
                let writing = match next.interest {
                    NextKind::Write => {
                        encoder.prefix(WriteBuf::new(bytes));
                        Writing::Ready(encoder)
                    },
                    NextKind::ReadWrite => {
                        encoder.prefix(WriteBuf::new(bytes));
                        Writing::Ready(encoder)
                    },
                    _ => Writing::Chunk(WriteBuf::new(bytes), encoder, next),
                };
                let st2 = State::Http1(
                    Http1 { handler, reading: Reading::Init, writing, keep_alive, head_request },
                );
                proof {
                    let wv = if next.interest is Write || next.interest is ReadWrite {
                        WritingView::Ready(
                            crate::encode::EncView {
                                prefix_rem: head_bytes,
                                kind: crate::http::spec_client_encoder_kind(hv),
                            },
                        )
                    } else {
                        WritingView::Chunk(
                            head_bytes,
                            crate::encode::EncView {
                                prefix_rem: Seq::empty(),
                                kind: crate::http::spec_client_encoder_kind(hv),
                            },
                            next,
                        )
                    };
                    assert(state_view(st2) =~= ConnView::Http1(
                        Http1View {
                            reading: ReadingView::Init,
                            writing: wv,
                            keep_alive: crate::http::spec_should_keep_alive(
                                hv.version,
                                hv.headers,
                            ),
                            head_request: hv.method == crate::method::head_token(),
                        },
                    ));
                }
                let r2 = update_state(st2, next);
                proof {
                    lemma_view_update(st2, next);
                    assert(state_view(r2) == spec_request_built(hv, next));
                }
                r2
            },
            State::Http1(h) => {
                let Http1 { mut handler, reading, writing, keep_alive, head_request } = h;
                let ghost hv0 = Http1View {
                    reading: crate::conn::reading_view(reading),
                    writing: crate::conn::writing_view(writing),
                    keep_alive,
                    head_request,
                };
                proof {
                    assert(sv0 == ConnView::Http1(hv0));
                }
                match writing {
                    Writing::Chunk(wb, encoder, stored) => {
                        let mut wb = wb;
                        let part = vstd::slice::slice_subrange(
                            wb.bytes.as_slice(),
                            wb.pos,
                            wb.bytes.len(),
                        );
                        proof {
                            assert(part@ =~= wb.remaining());
                        }
                        let outcome = self.transport.write_atomic(part);
                        proof {
                            assert(old(self).written().is_prefix_of(self.written())) by {
                                assert(old(self).written() =~= self.written().take(
                                    old(self).written().len() as int,
                                ));
                            }
                        }
                        let (n, transport_gone) = match outcome {
                            WriteOutcome::Accepted(k) => (k, false),
                            WriteOutcome::WouldBlock => (0, false),
                            WriteOutcome::Closed => (0, true),
                        };
                        proof {
                            assert(self.written() == old(self).written() + part@.take(n as int));
                        }
                        if transport_gone {
                            proof {
                                assert(part@.take(0) =~= Seq::<u8>::empty());
                                assert(self.written() =~= old(self).written());
                            }
                            return State::Closed;
                        }
                        wb.pos = wb.pos + n;
                        let done = wb.pos >= wb.bytes.len();
                        let ghost rem0 = match hv0.writing {
                            WritingView::Chunk(rem, _, _) => rem,
                            _ => Seq::empty(),
                        };
                        proof {
                            assert(rem0 == part@);
                            assert(wb.remaining() =~= rem0.skip(n as int));
                        }
                        let st2 = State::Http1(
                            Http1 {
                                handler,
                                reading,
                                writing: Writing::Chunk(wb, encoder, stored),
                                keep_alive,
                                head_request,
                            },
                        );
                        if done {
                            proof {
                                assert(n == rem0.len());
                                assert(state_view(st2) =~= ConnView::Http1(
                                    Http1View {
                                        writing: WritingView::Chunk(
                                            Seq::empty(),
                                            encoder.view(),
                                            stored,
                                        ),
                                        ..hv0
                                    },
                                ));
                            }
                            let r2 = update_state(st2, stored);
                            proof {
                                lemma_view_update(st2, stored);
                                assert(state_view(r2) == spec_chunk_flush(hv0, n as int));
                            }
                            r2
                        } else {
                            proof {
                                assert(state_view(st2) =~= spec_chunk_flush(hv0, n as int));
                            }
                            st2
                        }
                    },
                    Writing::Ready(encoder) => {
                        let mut encoder = encoder;
                        let next = handler.on_request_writable(&mut encoder, &mut self.transport);
                        let st2 = State::Http1(
                            Http1 {
                                handler,
                                reading,
                                writing: Writing::Ready(encoder),
                                keep_alive,
                                head_request,
                            },
                        );
                        proof {
                            assert(state_view(st2) =~= ConnView::Http1(
                                Http1View { writing: WritingView::Ready(encoder.view()), ..hv0 },
                            ));
                        }
                        let r2 = update_state(st2, next);
                        proof {
                            lemma_view_update(st2, next);
                        }
                        r2
                    },
                    other => State::Http1(
                        Http1 { handler, reading, writing: other, keep_alive, head_request },
                    ),
                }
            },
        }
    }

    /// A writable event: starts the request when the exchange is
    /// fresh, flushes buffered head bytes, or hands the encoder to the
    /// handler. Never touches the inbound buffer.
    pub fn on_writable<F: HandlerFactory<T, Output = H>>(&mut self, factory: &mut F)
        requires
            old(self).wf(),
        ensures
            final(self).wf(),
            final(self).buf_view() == old(self).buf_view(),
            old(self).written().is_prefix_of(final(self).written()),
            spec_client_writable_post(
                old(self)@,
                final(self)@,
                old(self).written(),
                final(self).written(),
            ),
    {
        let mut st = State::Closed;
        core::mem::swap(&mut self.state, &mut st);
        let st2 = self.write_once(factory, st);
        self.state = st2;
    }

    /// One reactor turn: the writable half first (a client leads with
    /// its request), then the readable half, then the registration to
    /// report back.
    pub fn ready<F: HandlerFactory<T, Output = H>>(
        &mut self,
        factory: &mut F,
        readable: bool,
        input: &[u8],
        eof: bool,
        writable: bool,
    ) -> (r: Reg)
        requires
            old(self).wf(),
            old(self).buf_view().len() + input@.len() <= usize::MAX,
        ensures
            final(self).wf(),
            r == final(self).spec_state_interest(),
            old(self).written().is_prefix_of(final(self).written()),
            !readable && !writable ==> final(self)@ == old(self)@ && final(self).buf_view()
                == old(self).buf_view() && final(self).written() == old(self).written(),
            !readable && writable ==> spec_client_writable_post(
                old(self)@,
                final(self)@,
                old(self).written(),
                final(self).written(),
            ) && final(self).buf_view() == old(self).buf_view(),
            readable && !writable ==> spec_client_readable_post(
                old(self)@,
                old(self).buf_view() + input@,
                eof,
                old(self).spec_request_connect(),
                final(self)@,
                final(self).buf_view(),
            ) && final(self).written() == old(self).written(),
            readable && writable ==> exists|mid: ConnView|
                #[trigger] spec_client_writable_post(
                    old(self)@,
                    mid,
                    old(self).written(),
                    final(self).written(),
                ) && spec_client_readable_post(
                    mid,
                    old(self).buf_view() + input@,
                    eof,
                    final(self).spec_request_connect(),
                    final(self)@,
                    final(self).buf_view(),
                ),
    {
        proof {
            assert(old(self).written().is_prefix_of(old(self).written())) by {
                assert(old(self).written() =~= old(self).written().take(
                    old(self).written().len() as int,
                ));
            }
        }
        if writable {
            self.on_writable(factory);
        }
        let ghost mid = self@;
        if readable {
            self.on_readable(factory, input, eof);
        }
        proof {
            if readable && writable {
                assert(spec_client_writable_post(
                    old(self)@,
                    mid,
                    old(self).written(),
                    self.written(),
                ));
            }
        }
        self.interest()
    }
}

} // verus!
