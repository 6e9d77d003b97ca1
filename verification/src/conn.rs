//! The per-connection state machine: the coupled read and write halves
//! that own one connection, drive a handler through its callbacks, and
//! decide keep-alive. Transport I/O stays outside: the reactor hands
//! bytes in and carries the transport's acceptance back.

use vstd::prelude::*;
use crate::Error;
use crate::buffer::Buffer;
use crate::buffer::MAX_BUFFER_SIZE;
use crate::decode::Decoder;
use crate::encode::AtomicWrite;
use crate::encode::Encoder;
use crate::encode::WriteOutcome;
use crate::headers::Headers;
use crate::http::MessageHead;
use crate::http::RequestLine;
use crate::http::WriteBuf;
use crate::next::Next;
use crate::next::NextKind;
use crate::next::Reg;
use crate::parse::parse_request;
use crate::parse::spec_parse_request;
use crate::parse::ReqOut;
use crate::status::RawStatus;
use crate::version::HttpVersion;

verus! {

/// `suf` is what remains of `s` after consuming some front part.
pub open spec fn seq_suffix_of(suf: Seq<u8>, s: Seq<u8>) -> bool {
    exists|k: int| 0 <= k <= s.len() && suf == s.skip(k)
}

pub proof fn lemma_suffix_refl(s: Seq<u8>)
    ensures
        seq_suffix_of(s, s),
{
    assert(s.skip(0) =~= s);
    assert(0 <= 0 <= s.len() && s == s.skip(0));
}

pub proof fn lemma_suffix_trans(a: Seq<u8>, b: Seq<u8>, c: Seq<u8>)
    requires
        seq_suffix_of(a, b),
        seq_suffix_of(b, c),
    ensures
        seq_suffix_of(a, c),
{
    let i = choose|i: int| 0 <= i <= b.len() && a == b.skip(i);
    let j = choose|j: int| 0 <= j <= c.len() && b == c.skip(j);
    assert(c.skip(j).skip(i) =~= c.skip(j + i));
    assert(0 <= j + i <= c.len() && a == c.skip(j + i));
}

/// What one read of the body produced.
pub enum BodyOutcome {
    /// Decoded payload bytes.
    Data(Vec<u8>),
    /// Nothing yet; more transport bytes are needed.
    WouldBlock,
    /// The body is complete.
    End,
    /// The body is malformed, or the transport ended inside it.
    Failed(Error),
}

/// Decodes whatever the buffer holds through the body decoder,
/// consuming exactly the bytes the body claims. `eof` says the
/// transport ended right after the buffered bytes.
pub fn read_body(decoder: &mut Decoder, buf: &mut Buffer, eof: bool) -> (r: BodyOutcome)
    ensures
        seq_suffix_of(final(buf)@, old(buf)@),
        ({
            let (res, consumed, out) = crate::decode::spec_decode(*old(decoder), old(buf)@, eof);
            match r {
                BodyOutcome::Data(o) => res == Ok::<Decoder, Error>(*final(decoder)) && o@ == out
                    && o@.len() > 0 && final(buf)@ == old(buf)@.skip(consumed),
                BodyOutcome::WouldBlock => res == Ok::<Decoder, Error>(*final(decoder))
                    && out.len() == 0 && !final(decoder).spec_is_eof() && final(buf)@ == old(buf)@.skip(consumed),
                BodyOutcome::End => res == Ok::<Decoder, Error>(*final(decoder)) && out.len() == 0
                    && final(decoder).spec_is_eof() && final(buf)@ == old(buf)@.skip(consumed),
                BodyOutcome::Failed(e) => res == Err::<Decoder, Error>(e) && final(buf)@ == old(buf)@,
            }
        }),
{
    let bytes = buf.bytes();
    match decoder.decode(bytes.as_slice(), eof) {
        Err(e) => {
            proof {
                lemma_suffix_refl(buf@);
            }
            BodyOutcome::Failed(e)
        },
        Ok((consumed, out)) => {
            buf.consume(consumed);
            proof {
                assert(0 <= consumed <= old(buf)@.len() && final(buf)@ == old(buf)@.skip(
                    consumed as int,
                ));
            }
            if out.len() > 0 {
                BodyOutcome::Data(out)
            } else if decoder.is_eof() {
                BodyOutcome::End
            } else {
                BodyOutcome::WouldBlock
            }
        },
    }
}

/// The read half of an exchange.
pub enum Reading {
    /// No exchange has started.
    Init,
    /// Accumulating bytes of an incoming head.
    Parse,
    /// The body is being decoded; the handler wants it.
    Body(Decoder),
    /// The body is not done, but the handler is not reading now.
    Wait(Decoder),
    /// This exchange's read half is complete and reusable.
    KeepAlive,
    /// This exchange's read half is finished for good.
    Closed,
}

/// The write half of an exchange.
pub enum Writing {
    /// Nothing to write yet.
    Init,
    /// The handler owes us an outgoing head.
    Head,
    /// A serialized head waits to be flushed; the directive beside it
    /// applies once it is out.
    Chunk(WriteBuf, Encoder, Next),
    /// The body encoder is live; the handler wants to write.
    Ready(Encoder),
    /// The body is not done, but the handler is not writing now.
    Wait(Encoder),
    /// This exchange's write half is complete and reusable.
    KeepAlive,
    /// This exchange's write half is finished for good.
    Closed,
}

/// One in-flight exchange.
pub struct Http1<H> {
    pub handler: H,
    pub reading: Reading,
    pub writing: Writing,
    pub keep_alive: bool,
    pub head_request: bool,
}

/// A connection: before its first exchange, inside one, or finished.
pub enum State<H> {
    Init,
    Http1(Http1<H>),
    Closed,
}

/// Cursors inside the write half sit inside their buffers.
pub open spec fn writing_wf(w: Writing) -> bool {
    match w {
        Writing::Chunk(wb, enc, _) => wb.wf() && enc.wf(),
        Writing::Ready(enc) => enc.wf(),
        Writing::Wait(enc) => enc.wf(),
        _ => true,
    }
}

pub open spec fn state_wf<H>(s: State<H>) -> bool {
    match s {
        State::Http1(h) => writing_wf(h.writing),
        _ => true,
    }
}

/// The server's phase discipline: reading leads writing. An exchange
/// exists only once its head is parsed, so inside one the read half
/// is never still waiting for a head.
pub open spec fn server_phase<H>(s: State<H>) -> bool {
    match s {
        State::Http1(h) => !(h.reading is Init) && !(h.reading is Parse),
        _ => true,
    }
}

/// The client's phase discipline: writing leads reading. An exchange
/// exists only once its outgoing head is built, so inside one the
/// write half is never still owing a head.
pub open spec fn client_phase<H>(s: State<H>) -> bool {
    match s {
        State::Http1(h) => !(h.writing is Init) && !(h.writing is Head),
        _ => true,
    }
}

/// The read half as contracts see it.
#[verifier::ext_equal]
pub enum ReadingView {
    Init,
    Parse,
    Body(Decoder),
    Wait(Decoder),
    KeepAlive,
    Closed,
}

/// The write half as contracts see it: head buffers by their
/// remaining bytes, encoders by their abstract state.
#[verifier::ext_equal]
pub enum WritingView {
    Init,
    Head,
    Chunk(Seq<u8>, crate::encode::EncView, Next),
    Ready(crate::encode::EncView),
    Wait(crate::encode::EncView),
    KeepAlive,
    Closed,
}

/// One exchange as contracts see it: the handler, being the user's,
/// drops out.
#[verifier::ext_equal]
pub struct Http1View {
    pub reading: ReadingView,
    pub writing: WritingView,
    pub keep_alive: bool,
    pub head_request: bool,
}

/// A connection's state as contracts see it.
#[verifier::ext_equal]
pub enum ConnView {
    Init,
    Http1(Http1View),
    Closed,
}

pub open spec fn reading_view(r: Reading) -> ReadingView {
    match r {
        Reading::Init => ReadingView::Init,
        Reading::Parse => ReadingView::Parse,
        Reading::Body(d) => ReadingView::Body(d),
        Reading::Wait(d) => ReadingView::Wait(d),
        Reading::KeepAlive => ReadingView::KeepAlive,
        Reading::Closed => ReadingView::Closed,
    }
}

pub open spec fn writing_view(w: Writing) -> WritingView {
    match w {
        Writing::Init => WritingView::Init,
        Writing::Head => WritingView::Head,
        Writing::Chunk(wb, enc, n) => WritingView::Chunk(wb.remaining(), enc.view(), n),
        Writing::Ready(enc) => WritingView::Ready(enc.view()),
        Writing::Wait(enc) => WritingView::Wait(enc.view()),
        Writing::KeepAlive => WritingView::KeepAlive,
        Writing::Closed => WritingView::Closed,
    }
}

pub open spec fn state_view<H>(s: State<H>) -> ConnView {
    match s {
        State::Init => ConnView::Init,
        State::Http1(h) => ConnView::Http1(
            Http1View {
                reading: reading_view(h.reading),
                writing: writing_view(h.writing),
                keep_alive: h.keep_alive,
                head_request: h.head_request,
            },
        ),
        State::Closed => ConnView::Closed,
    }
}

/// The transition table over views: `spec_update` with the handler
/// dropped.
pub open spec fn view_update(v: ConnView, next: Next) -> ConnView {
    if next.interest is Remove {
        ConnView::Closed
    } else {
        match v {
            ConnView::Closed => ConnView::Closed,
            ConnView::Init => ConnView::Init,
            ConnView::Http1(h) => match next.interest {
                NextKind::End => if !h.keep_alive {
                    ConnView::Closed
                } else {
                    match (h.reading, h.writing) {
                        (ReadingView::KeepAlive, WritingView::KeepAlive) => ConnView::Init,
                        (ReadingView::KeepAlive, WritingView::Ready(ev)) => if
                        crate::encode::spec_ev_eof(ev) {
                            ConnView::Init
                        } else {
                            ConnView::Closed
                        },
                        (ReadingView::Body(dec), WritingView::KeepAlive) => if dec.spec_is_eof() {
                            ConnView::Init
                        } else {
                            ConnView::Closed
                        },
                        _ => ConnView::Closed,
                    }
                },
                NextKind::Read => ConnView::Http1(
                    Http1View {
                        reading: match h.reading {
                            ReadingView::Init => ReadingView::Parse,
                            ReadingView::Wait(dec) => ReadingView::Body(dec),
                            same => same,
                        },
                        writing: match h.writing {
                            WritingView::Ready(ev) => if crate::encode::spec_ev_eof(ev) {
                                if h.keep_alive {
                                    WritingView::KeepAlive
                                } else {
                                    WritingView::Closed
                                }
                            } else {
                                WritingView::Wait(ev)
                            },
                            WritingView::Chunk(rem, ev, n) => if rem.len() == 0 {
                                WritingView::Wait(ev)
                            } else {
                                WritingView::Chunk(rem, ev, n)
                            },
                            same => same,
                        },
                        keep_alive: h.keep_alive,
                        head_request: h.head_request,
                    },
                ),
                NextKind::Write => ConnView::Http1(
                    Http1View {
                        reading: match h.reading {
                            ReadingView::Body(dec) => if dec.spec_is_eof() {
                                if h.keep_alive {
                                    ReadingView::KeepAlive
                                } else {
                                    ReadingView::Closed
                                }
                            } else {
                                ReadingView::Wait(dec)
                            },
                            same => same,
                        },
                        writing: match h.writing {
                            WritingView::Wait(ev) => WritingView::Ready(ev),
                            WritingView::Init => WritingView::Head,
                            WritingView::Chunk(rem, ev, n) => if rem.len() == 0 {
                                WritingView::Ready(ev)
                            } else {
                                WritingView::Chunk(rem, ev, n)
                            },
                            same => same,
                        },
                        keep_alive: h.keep_alive,
                        head_request: h.head_request,
                    },
                ),
                NextKind::ReadWrite => ConnView::Http1(
                    Http1View {
                        reading: match h.reading {
                            ReadingView::Init => ReadingView::Parse,
                            ReadingView::Wait(dec) => ReadingView::Body(dec),
                            same => same,
                        },
                        writing: match h.writing {
                            WritingView::Wait(ev) => WritingView::Ready(ev),
                            WritingView::Init => WritingView::Head,
                            WritingView::Chunk(rem, ev, n) => if rem.len() == 0 {
                                WritingView::Ready(ev)
                            } else {
                                WritingView::Chunk(rem, ev, n)
                            },
                            same => same,
                        },
                        keep_alive: h.keep_alive,
                        head_request: h.head_request,
                    },
                ),
                NextKind::Wait => ConnView::Http1(h),
                NextKind::Remove => ConnView::Closed,
            },
        }
    }
}

/// The abstract table is the concrete one seen through the view.
pub proof fn lemma_view_update<H>(s: State<H>, next: Next)
    ensures
        state_view(spec_update(s, next)) == view_update(state_view(s), next),
{
    if next.interest is Remove {
    } else {
        match s {
            State::Closed => {},
            State::Init => {},
            State::Http1(h) => {
                assert(state_view(spec_update(s, next)) =~= view_update(state_view(s), next));
            },
        }
    }
}

/// A blocked or partial head flush: the transport took `n` of the
/// buffered head bytes; a complete flush applies the stored directive.
pub open spec fn spec_chunk_flush(h: Http1View, n: int) -> ConnView {
    match h.writing {
        WritingView::Chunk(rem, ev, stored) => if n == rem.len() {
            view_update(
                ConnView::Http1(
                    Http1View { writing: WritingView::Chunk(Seq::empty(), ev, stored), ..h },
                ),
                stored,
            )
        } else {
            ConnView::Http1(Http1View { writing: WritingView::Chunk(rem.skip(n), ev, stored), ..h })
        },
        _ => ConnView::Closed,
    }
}

/// A blocked head flush moves nothing: with no byte taken, the
/// connection state is exactly what it was.
pub proof fn lemma_blocked_flush_keeps_state(h: Http1View)
    requires
        match h.writing {
            WritingView::Chunk(rem, _, _) => rem.len() > 0,
            _ => false,
        },
    ensures
        spec_chunk_flush(h, 0) == ConnView::Http1(h),
{
    match h.writing {
        WritingView::Chunk(rem, ev, stored) => {
            assert(rem.skip(0) =~= rem);
            assert(spec_chunk_flush(h, 0) =~= ConnView::Http1(h));
        },
        _ => {},
    }
}

/// The state after the handler supplied the outgoing head `hv` and
/// the directive `nx`: the head renders per the codec, becomes the
/// encoder's prefix (or a buffered flush), keep-alive narrows by the
/// head, and the directive applies.
pub open spec fn spec_head_built(h: Http1View, hv: crate::parse::RespHeadView, nx: Next, now: int) -> ConnView {
    let bytes = crate::parse::render_response_head(
        crate::http::spec_server_head_out(hv, h.head_request, now),
    );
    let kind = crate::http::spec_server_encoder_kind(hv, h.head_request);
    let ka2 = h.keep_alive && crate::http::spec_should_keep_alive(hv.version, hv.headers);
    let wv = if nx.interest is Write || nx.interest is ReadWrite {
        WritingView::Ready(crate::encode::EncView { prefix_rem: bytes, kind })
    } else {
        WritingView::Chunk(bytes, crate::encode::EncView { prefix_rem: Seq::empty(), kind }, nx)
    };
    view_update(
        ConnView::Http1(
            Http1View { reading: h.reading, writing: wv, keep_alive: ka2, head_request: h.head_request },
        ),
        nx,
    )
}

/// The state entered for a fresh exchange whose head parsed to `v`,
/// whose body decoder is `dec`, and whose handler answered `nx`.
pub open spec fn spec_enter_exchange(v: crate::parse::ReqHeadView, dec: Decoder, nx: Next) -> ConnView {
    let ka = crate::http::spec_should_keep_alive(v.version, v.headers);
    let hr = v.method == crate::method::head_token();
    match nx.interest {
        NextKind::Read => ConnView::Http1(
            Http1View { reading: ReadingView::Body(dec), writing: WritingView::Init, keep_alive: ka, head_request: hr },
        ),
        NextKind::ReadWrite => ConnView::Http1(
            Http1View { reading: ReadingView::Body(dec), writing: WritingView::Head, keep_alive: ka, head_request: hr },
        ),
        NextKind::Write => ConnView::Http1(
            Http1View {
                reading: if dec.spec_is_eof() {
                    if ka {
                        ReadingView::KeepAlive
                    } else {
                        ReadingView::Closed
                    }
                } else {
                    ReadingView::Wait(dec)
                },
                writing: WritingView::Head,
                keep_alive: ka,
                head_request: hr,
            },
        ),
        NextKind::Wait => ConnView::Http1(
            Http1View { reading: ReadingView::Wait(dec), writing: WritingView::Init, keep_alive: ka, head_request: hr },
        ),
        NextKind::End => ConnView::Closed,
        NextKind::Remove => ConnView::Closed,
    }
}

/// Everything one writable event may do, by the write half it finds:
/// a pending head flush advances by exactly what the transport took;
/// an owed head is built per the codec and handler; a live encoder
/// moves only by the handler's directive; every other half leaves the
/// connection untouched.
pub open spec fn spec_writable_post(
    pre: ConnView,
    post: ConnView,
    w0: Seq<u8>,
    w1: Seq<u8>,
    now: int,
) -> bool {
    match pre {
        ConnView::Http1(h) => match h.writing {
            WritingView::Chunk(rem, ev, stored) => exists|n: int|
                0 <= n <= rem.len() && w1 == w0 + #[trigger] rem.take(n) && (post
                    == spec_chunk_flush(h, n) || (n == 0 && post is Closed)),
            WritingView::Head => w1 == w0 && (post is Closed || exists|hv: crate::parse::RespHeadView, nx: Next|
                post == #[trigger] spec_head_built(h, hv, nx, now)),
            WritingView::Ready(_) => exists|ev2: crate::encode::EncView, nx: Next|
                post == #[trigger] view_update(
                    ConnView::Http1(Http1View { writing: WritingView::Ready(ev2), ..h }),
                    nx,
                ),
            _ => post == pre && w1 == w0,
        },
        _ => post == pre && w1 == w0,
    }
}

/// Everything one readable event does before a handler can steer it:
/// buffered bytes are only ever consumed from the front, and while no
/// exchange is open the engine alone decides — a malformed head, an
/// oversized head, EOF mid-head, and unframeable bodies all close the
/// connection with nothing consumed beyond the head, and an incomplete
/// head leaves everything exactly in place.
pub open spec fn spec_readable_post(
    pre: ConnView,
    base: Seq<u8>,
    eof: bool,
    post: ConnView,
    buf1: Seq<u8>,
) -> bool {
    &&& seq_suffix_of(buf1, base)
    &&& (pre is Closed ==> post is Closed && buf1 == base)
    &&& (pre is Init ==> match crate::parse::spec_parse_request(base) {
        crate::parse::ReqOut::Bad(_) => post is Closed && buf1 == base,
        crate::parse::ReqOut::Pending => ((base.len() >= MAX_BUFFER_SIZE || eof) ==> post
            is Closed && buf1 == base) && ((base.len() < MAX_BUFFER_SIZE && !eof) ==> post
            is Init && buf1 == base),
        crate::parse::ReqOut::Done(v, len) => seq_suffix_of(buf1, base.skip(len)) && (
        crate::http::spec_server_decoder(v) is Err ==> post is Closed && buf1 == base.skip(len)),
    })
}

/// Whether the read half wants transport readability.
pub open spec fn reading_wants_read(r: Reading) -> bool {
    match r {
        Reading::Parse => true,
        Reading::Body(_) => true,
        _ => false,
    }
}

/// Whether the write half wants transport writability.
pub open spec fn writing_wants_write(w: Writing) -> bool {
    match w {
        Writing::Head => true,
        Writing::Chunk(_, _, _) => true,
        Writing::Ready(_) => true,
        _ => false,
    }
}

/// The registration a state asks the reactor for. A fresh server
/// connection reads first.
pub open spec fn spec_interest<H>(s: State<H>) -> Reg {
    match s {
        State::Closed => Reg::Remove,
        State::Init => Reg::Read,
        State::Http1(h) => if h.reading is Closed && h.writing is Closed {
            Reg::Remove
        } else {
            if reading_wants_read(h.reading) {
                if writing_wants_write(h.writing) {
                    Reg::ReadWrite
                } else {
                    Reg::Read
                }
            } else {
                if writing_wants_write(h.writing) {
                    Reg::Write
                } else {
                    Reg::Wait
                }
            }
        },
    }
}

/// The transition table: how a handler directive moves the two halves.
///
/// `Remove` always closes. `End` recycles the connection only when
/// both halves are finished (the decoder and encoder at EOF) and
/// keep-alive held; otherwise it closes. `Read` and `Write` move
/// their own half forward and park or retire the other half once its
/// body is complete.
pub open spec fn spec_update<H>(s: State<H>, next: Next) -> State<H> {
    if next.interest is Remove {
        State::Closed
    } else {
        match s {
            State::Closed => State::Closed,
            State::Init => State::Init,
            State::Http1(h) => match next.interest {
                NextKind::End => if !h.keep_alive {
                    State::Closed
                } else {
                    match (h.reading, h.writing) {
                        (Reading::KeepAlive, Writing::KeepAlive) => State::Init,
                        (Reading::KeepAlive, Writing::Ready(enc)) => if enc.spec_is_eof() {
                            State::Init
                        } else {
                            State::Closed
                        },
                        (Reading::Body(dec), Writing::KeepAlive) => if dec.spec_is_eof() {
                            State::Init
                        } else {
                            State::Closed
                        },
                        _ => State::Closed,
                    }
                },
                NextKind::Read => State::Http1(
                    Http1 {
                        handler: h.handler,
                        reading: match h.reading {
                            Reading::Init => Reading::Parse,
                            Reading::Wait(dec) => Reading::Body(dec),
                            same => same,
                        },
                        writing: match h.writing {
                            Writing::Ready(enc) => if enc.spec_is_eof() {
                                if h.keep_alive {
                                    Writing::KeepAlive
                                } else {
                                    Writing::Closed
                                }
                            } else {
                                Writing::Wait(enc)
                            },
                            Writing::Chunk(wb, enc, n) => if wb.remaining().len() == 0 {
                                Writing::Wait(enc)
                            } else {
                                Writing::Chunk(wb, enc, n)
                            },
                            same => same,
                        },
                        keep_alive: h.keep_alive,
                        head_request: h.head_request,
                    },
                ),
                NextKind::Write => State::Http1(
                    Http1 {
                        handler: h.handler,
                        reading: match h.reading {
                            Reading::Body(dec) => if dec.spec_is_eof() {
                                if h.keep_alive {
                                    Reading::KeepAlive
                                } else {
                                    Reading::Closed
                                }
                            } else {
                                Reading::Wait(dec)
                            },
                            same => same,
                        },
                        writing: match h.writing {
                            Writing::Wait(enc) => Writing::Ready(enc),
                            Writing::Init => Writing::Head,
                            Writing::Chunk(wb, enc, n) => if wb.remaining().len() == 0 {
                                Writing::Ready(enc)
                            } else {
                                Writing::Chunk(wb, enc, n)
                            },
                            same => same,
                        },
                        keep_alive: h.keep_alive,
                        head_request: h.head_request,
                    },
                ),
                NextKind::ReadWrite => State::Http1(
                    Http1 {
                        handler: h.handler,
                        reading: match h.reading {
                            Reading::Init => Reading::Parse,
                            Reading::Wait(dec) => Reading::Body(dec),
                            same => same,
                        },
                        writing: match h.writing {
                            Writing::Wait(enc) => Writing::Ready(enc),
                            Writing::Init => Writing::Head,
                            Writing::Chunk(wb, enc, n) => if wb.remaining().len() == 0 {
                                Writing::Ready(enc)
                            } else {
                                Writing::Chunk(wb, enc, n)
                            },
                            same => same,
                        },
                        keep_alive: h.keep_alive,
                        head_request: h.head_request,
                    },
                ),
                NextKind::Wait => State::Http1(h),
                NextKind::Remove => State::Closed,
            },
        }
    }
}

/// Recycling to a fresh exchange happens only when both halves are
/// truly finished — the read half at its body's end, the write half
/// with everything flushed — and keep-alive still holds.
pub proof fn lemma_recycle_needs_eof<H>(s: State<H>, next: Next)
    requires
        s is Http1,
        spec_update(s, next) is Init,
    ensures
        next.interest is End,
        match s {
            State::Http1(h) => {
                &&& h.keep_alive
                &&& match h.reading {
                    Reading::KeepAlive => true,
                    Reading::Body(dec) => dec.spec_is_eof(),
                    _ => false,
                }
                &&& match h.writing {
                    Writing::KeepAlive => true,
                    Writing::Ready(enc) => enc.spec_is_eof(),
                    _ => false,
                }
            },
            _ => false,
        },
{
}

/// A connection never transitions out of `Closed`.
pub proof fn lemma_closed_is_final<H>(next: Next)
    ensures
        spec_update(State::<H>::Closed, next) == State::<H>::Closed,
{
}

/// A half may enter `KeepAlive` only at its body's end: the read half
/// from a decoder at EOF, the write half from an encoder at EOF, and
/// only while keep-alive still holds.
pub proof fn lemma_keep_alive_needs_eof<H>(s: State<H>, next: Next)
    requires
        s is Http1,
    ensures
        match (s, spec_update(s, next)) {
            (State::Http1(before), State::Http1(after)) => {
                &&& (after.reading is KeepAlive && !(before.reading is KeepAlive)
                    ==> before.keep_alive && match before.reading {
                    Reading::Body(dec) => dec.spec_is_eof(),
                    _ => false,
                })
                &&& (after.writing is KeepAlive && !(before.writing is KeepAlive)
                    ==> before.keep_alive && match before.writing {
                    Writing::Ready(enc) => enc.spec_is_eof(),
                    _ => false,
                })
            },
            _ => true,
        },
{
}

/// Applies a directive to a state.
pub(crate) fn update_state<H>(s: State<H>, next: Next) -> (r: State<H>)
    requires
        state_wf(s),
    ensures
        r == spec_update(s, next),
        state_wf(r),
        server_phase(s) ==> server_phase(r),
        client_phase(s) ==> client_phase(r),
{
    if matches!(next.interest, NextKind::Remove) {
        return State::Closed;
    }
    match s {
        State::Closed => State::Closed,
        State::Init => State::Init,
        State::Http1(h) => {
            let Http1 { handler, reading, writing, keep_alive, head_request } = h;
            match next.interest {
                NextKind::End => {
                    if !keep_alive {
                        State::Closed
                    } else {
                        match (reading, writing) {
                            (Reading::KeepAlive, Writing::KeepAlive) => State::Init,
                            (Reading::KeepAlive, Writing::Ready(enc)) => {
                                if enc.is_eof() {
                                    State::Init
                                } else {
                                    State::Closed
                                }
                            },
                            (Reading::Body(dec), Writing::KeepAlive) => {
                                if dec.is_eof() {
                                    State::Init
                                } else {
                                    State::Closed
                                }
                            },
                            _ => State::Closed,
                        }
                    }
                },
                NextKind::Read => {
                    let reading2 = match reading {
                        Reading::Init => Reading::Parse,
                        Reading::Wait(dec) => Reading::Body(dec),
                        same => same,
                    };
                    let writing2 = match writing {
                        Writing::Ready(enc) => {
                            if enc.is_eof() {
                                if keep_alive {
                                    Writing::KeepAlive
                                } else {
                                    Writing::Closed
                                }
                            } else {
                                Writing::Wait(enc)
                            }
                        },
                        Writing::Chunk(wb, enc, n) => {
                            if wb.pos >= wb.bytes.len() {
                                Writing::Wait(enc)
                            } else {
                                Writing::Chunk(wb, enc, n)
                            }
                        },
                        same => same,
                    };
                    State::Http1(
                        Http1 { handler, reading: reading2, writing: writing2, keep_alive, head_request },
                    )
                },
                NextKind::Write => {
                    let reading2 = match reading {
                        Reading::Body(dec) => {
                            if dec.is_eof() {
                                if keep_alive {
                                    Reading::KeepAlive
                                } else {
                                    Reading::Closed
                                }
                            } else {
                                Reading::Wait(dec)
                            }
                        },
                        same => same,
                    };
                    let writing2 = match writing {
                        Writing::Wait(enc) => Writing::Ready(enc),
                        Writing::Init => Writing::Head,
                        Writing::Chunk(wb, enc, n) => {
                            if wb.pos >= wb.bytes.len() {
                                Writing::Ready(enc)
                            } else {
                                Writing::Chunk(wb, enc, n)
                            }
                        },
                        same => same,
                    };
                    State::Http1(
                        Http1 { handler, reading: reading2, writing: writing2, keep_alive, head_request },
                    )
                },
                NextKind::ReadWrite => {
                    let reading2 = match reading {
                        Reading::Init => Reading::Parse,
                        Reading::Wait(dec) => Reading::Body(dec),
                        same => same,
                    };
                    let writing2 = match writing {
                        Writing::Wait(enc) => Writing::Ready(enc),
                        Writing::Init => Writing::Head,
                        Writing::Chunk(wb, enc, n) => {
                            if wb.pos >= wb.bytes.len() {
                                Writing::Ready(enc)
                            } else {
                                Writing::Chunk(wb, enc, n)
                            }
                        },
                        same => same,
                    };
                    State::Http1(
                        Http1 { handler, reading: reading2, writing: writing2, keep_alive, head_request },
                    )
                },
                NextKind::Wait => State::Http1(
                    Http1 { handler, reading, writing, keep_alive, head_request },
                ),
                NextKind::Remove => State::Closed,
            }
        },
    }
}

/// The engine's callbacks into the user: one per direction and phase,
/// each returning the next directive. Implementations supply request
/// handling; the engine owns when they run.
pub trait MessageHandler<T: AtomicWrite> {
    /// A complete incoming head has been parsed.
    fn on_incoming(&mut self, head: MessageHead<RequestLine>) -> Next;

    /// The engine is ready to write the outgoing head; fill it in.
    fn on_outgoing(&mut self, head: &mut MessageHead<RawStatus>) -> Next;

    /// Body bytes may be available: read them through `read_body`.
    /// An implementation leaves the decoder and buffer alone, or
    /// consumes exactly what the body framing claims (what `read_body`
    /// does), or stops at the framing's own error: bytes past the body
    /// belong to the next exchange and stay.
    fn on_decode(&mut self, decoder: &mut Decoder, buf: &mut Buffer, eof: bool) -> (r: Next)
        ensures
            seq_suffix_of(final(buf)@, old(buf)@),
            ({
                ||| (*final(decoder) == *old(decoder) && final(buf)@ == old(buf)@)
                ||| (crate::decode::spec_decode(*old(decoder), old(buf)@, eof).0 == Ok::<
                    Decoder,
                    Error,
                >(*final(decoder)) && final(buf)@ == old(buf)@.skip(
                    crate::decode::spec_decode(*old(decoder), old(buf)@, eof).1,
                ))
                ||| (crate::decode::spec_decode(*old(decoder), old(buf)@, eof).0 is Err && final(buf)@ == old(buf)@)
            }),
    ;

    /// The transport is writable: write body bytes through the encoder.
    fn on_encode(&mut self, encoder: &mut Encoder, transport: &mut T) -> (r: Next)
        requires
            old(encoder).wf(),
        ensures
            final(encoder).wf(),
            old(transport).written().is_prefix_of(final(transport).written()),
    ;
}

/// Creates one handler per exchange.
pub trait MessageHandlerFactory<T: AtomicWrite> {
    type Output: MessageHandler<T>;

    fn create(&mut self) -> Self::Output;
}

/// A server connection: its inbound buffer, its state, and the
/// transport it writes to. Reads arrive as bytes from the reactor.
pub struct Conn<T: AtomicWrite, H: MessageHandler<T>> {
    buf: Buffer,
    state: State<H>,
    transport: T,
}

impl<T: AtomicWrite, H: MessageHandler<T>> Conn<T, H> {
    /// The connection's abstract state: the machine with the handler
    /// dropped.
    pub closed spec fn view(&self) -> ConnView {
        state_view(self.state)
    }

    /// The unconsumed inbound bytes.
    pub closed spec fn buf_view(&self) -> Seq<u8> {
        self.buf@
    }

    /// Everything written to the transport so far.
    pub closed spec fn written(&self) -> Seq<u8> {
        self.transport.written()
    }

    /// Cursors sit inside their buffers, and the server's phase
    /// discipline holds: an exchange exists only with its head parsed.
    pub closed spec fn wf(&self) -> bool {
        state_wf(self.state) && server_phase(self.state)
    }

    /// Whether the connection is closed for good.
    pub closed spec fn spec_is_closed(&self) -> bool {
        self.state is Closed
    }

    /// Whether the connection awaits a fresh exchange.
    pub closed spec fn spec_is_init(&self) -> bool {
        self.state is Init
    }

    /// The reactor registration the current state asks for.
    pub closed spec fn spec_state_interest(&self) -> Reg {
        spec_interest(self.state)
    }

    /// A fresh connection around a transport.
    pub fn new(transport: T) -> (r: Conn<T, H>)
        ensures
            r.wf(),
            r.spec_is_init(),
            r.buf_view() == Seq::<u8>::empty(),
            r.written() == transport.written(),
    {
        Conn { buf: Buffer::new(), state: State::Init, transport }
    }

    /// The transport, for inspection.
    pub fn transport_ref(&self) -> (r: &T)
        ensures
            r.written() == self.written(),
    {
        &self.transport
    }

    /// The registration to hand the reactor after the last event.
    pub fn interest(&self) -> (r: Reg)
        ensures
            r == self.spec_state_interest(),
    {
        match &self.state {
            State::Closed => Reg::Remove,
            State::Init => Reg::Read,
            State::Http1(h) => {
                if matches!(h.reading, Reading::Closed) && matches!(h.writing, Writing::Closed) {
                    Reg::Remove
                } else {
                    let wants_read = matches!(h.reading, Reading::Parse | Reading::Body(_));
                    let wants_write = matches!(
                        h.writing,
                        Writing::Head | Writing::Chunk(_, _, _) | Writing::Ready(_)
                    );
                    if wants_read {
                        if wants_write {
                            Reg::ReadWrite
                        } else {
                            Reg::Read
                        }
                    } else {
                        if wants_write {
                            Reg::Write
                        } else {
                            Reg::Wait
                        }
                    }
                }
            },
        }
    }

    /// A timeout fired with no recovery: the connection closes.
    pub fn on_timeout(&mut self)
        ensures
            final(self).wf(),
            final(self).spec_is_closed(),
            final(self).written() == old(self).written(),
            final(self).buf_view() == old(self).buf_view(),
    {
        self.state = State::Closed;
    }

    /// Tries to parse a head from the buffer, consuming it on success.
    fn try_parse(&mut self) -> (r: Result<Option<MessageHead<RequestLine>>, Error>)
        ensures
            final(self).written() == old(self).written(),
            final(self).state == old(self).state,
            seq_suffix_of(final(self).buf_view(), old(self).buf_view()),
            match r {
                Ok(Some(h)) => match spec_parse_request(old(self).buf_view()) {
                    ReqOut::Done(v, len) => v == crate::parse::req_view(h) && final(self).buf_view() == old(self).buf_view().skip(len),
                    _ => false,
                },
                Ok(None) => spec_parse_request(old(self).buf_view()) is Pending && final(self).buf_view() == old(self).buf_view() && old(self).buf_view().len()
                    < MAX_BUFFER_SIZE,
                Err(e) => final(self).buf_view() == old(self).buf_view() && match
                    spec_parse_request(old(self).buf_view()) {
                    ReqOut::Bad(e2) => e == e2,
                    ReqOut::Pending => e == Error::TooLarge && old(self).buf_view().len()
                        >= MAX_BUFFER_SIZE,
                    ReqOut::Done(_, _) => false,
                },
            },
    {
        let bytes = self.buf.bytes();
        proof {
            lemma_suffix_refl(self.buf@);
        }
        match parse_request(bytes.as_slice()) {
            Err(e) => Err(e),
            Ok(Some((head, len))) => {
                proof {
                    match spec_parse_request(self.buf@) {
                        ReqOut::Done(v, l) => {
                            assert(l == len as int);
                        },
                        _ => {
                            assert(false);
                        },
                    }
                }
                self.buf.consume(len);
                proof {
                    assert(seq_suffix_of(self.buf@, old(self).buf@));
                }
                Ok(Some(head))
            },
            Ok(None) => {
                if self.buf.len() >= MAX_BUFFER_SIZE {
                    Err(Error::TooLarge)
                } else {
                    Ok(None)
                }
            },
        }
    }

    /// One pass of the read path over a state taken out of the
    /// connection. Never writes to the transport.
    fn read_once<F: MessageHandlerFactory<T, Output = H>>(
        &mut self,
        factory: &mut F,
        st: State<H>,
        eof: bool,
    ) -> (r: State<H>)
        requires
            state_wf(st),
        ensures
            state_wf(r),
            server_phase(st) ==> server_phase(r),
            final(self).written() == old(self).written(),
            seq_suffix_of(final(self).buf_view(), old(self).buf_view()),
            final(self).state == old(self).state,
            state_view(st) is Closed ==> state_view(r) is Closed && final(self).buf_view() == old(self).buf_view(),
            state_view(st) is Init ==> match crate::parse::spec_parse_request(
                old(self).buf_view(),
            ) {
                crate::parse::ReqOut::Bad(_) => state_view(r) is Closed && final(self).buf_view()
                    == old(self).buf_view(),
                crate::parse::ReqOut::Pending => ((old(self).buf_view().len() >= MAX_BUFFER_SIZE
                    || eof) ==> state_view(r) is Closed && final(self).buf_view() == old(self).buf_view()) && ((old(self).buf_view().len() < MAX_BUFFER_SIZE && !eof)
                    ==> state_view(r) is Init && final(self).buf_view() == old(self).buf_view()),
                crate::parse::ReqOut::Done(v, len) => final(self).buf_view() == old(self).buf_view().skip(len) && match crate::http::spec_server_decoder(v) {
                    Err(_) => state_view(r) is Closed,
                    Ok(dec) => exists|nx: Next|
                        state_view(r) == #[trigger] spec_enter_exchange(v, dec, nx),
                },
            },
            (match state_view(st) {
                ConnView::Http1(h) => h.reading is Wait || h.reading is KeepAlive || h.reading
                    is Closed || h.reading is Init,
                _ => false,
            }) ==> r == st && final(self).buf_view() == old(self).buf_view(),
    {
        proof {
            lemma_suffix_refl(self.buf@);
        }
        match st {
            State::Closed => State::Closed,
            State::Init => {
                match self.try_parse() {
                    Ok(None) => {
                        if eof {
                            State::Closed
                        } else {
                            State::Init
                        }
                    },
                    Err(_) => State::Closed,
                    Ok(Some(head)) => {
                        let ghost v = crate::parse::req_view(head);
                        match crate::http::server_decoder(&head) {
                            Err(_) => State::Closed,
                            Ok(decoder) => {
                                let keep_alive = head.should_keep_alive();
                                let head_request = head.subject.0.is_head();
                                let mut handler = factory.create();
                                let next = handler.on_incoming(head);
                                proof {
                                    assert(spec_enter_exchange(v, decoder, next)
                                        == spec_enter_exchange(v, decoder, next));
                                }
                                match next.interest {
                                    NextKind::Read => State::Http1(
                                        Http1 {
                                            handler,
                                            reading: Reading::Body(decoder),
                                            writing: Writing::Init,
                                            keep_alive,
                                            head_request,
                                        },
                                    ),
                                    NextKind::ReadWrite => State::Http1(
                                        Http1 {
                                            handler,
                                            reading: Reading::Body(decoder),
                                            writing: Writing::Head,
                                            keep_alive,
                                            head_request,
                                        },
                                    ),
                                    NextKind::Write => State::Http1(
                                        Http1 {
                                            handler,
                                            reading: if decoder.is_eof() {
                                                if keep_alive {
                                                    Reading::KeepAlive
                                                } else {
                                                    Reading::Closed
                                                }
                                            } else {
                                                Reading::Wait(decoder)
                                            },
                                            writing: Writing::Head,
                                            keep_alive,
                                            head_request,
                                        },
                                    ),
                                    NextKind::Wait => State::Http1(
                                        Http1 {
                                            handler,
                                            reading: Reading::Wait(decoder),
                                            writing: Writing::Init,
                                            keep_alive,
                                            head_request,
                                        },
                                    ),
                                    NextKind::End => State::Closed,
                                    NextKind::Remove => State::Closed,
                                }
                            },
                        }
                    },
                }
            },
            State::Http1(h) => {
                let Http1 { mut handler, reading, writing, mut keep_alive, mut head_request } = h;
                match reading {
                    Reading::Parse => {
                        match self.try_parse() {
                            Ok(None) => {
                                if eof {
                                    State::Closed
                                } else {
                                    State::Http1(
                                        Http1 {
                                            handler,
                                            reading: Reading::Parse,
                                            writing,
                                            keep_alive,
                                            head_request,
                                        },
                                    )
                                }
                            },
                            Err(_) => State::Closed,
                            Ok(Some(head)) => {
                                match crate::http::server_decoder(&head) {
                                    Err(_) => State::Closed,
                                    Ok(decoder) => {
                                        if keep_alive {
                                            keep_alive = head.should_keep_alive();
                                        }
                                        head_request = head.subject.0.is_head();
                                        let next = handler.on_incoming(head);
                                        let st2 = State::Http1(
                                            Http1 {
                                                handler,
                                                reading: Reading::Wait(decoder),
                                                writing,
                                                keep_alive,
                                                head_request,
                                            },
                                        );
                                        update_state(st2, next)
                                    },
                                }
                            },
                        }
                    },
                    Reading::Body(decoder) => {
                        let mut decoder = decoder;
                        let next = handler.on_decode(&mut decoder, &mut self.buf, eof);
                        let st2 = State::Http1(
                            Http1 {
                                handler,
                                reading: Reading::Body(decoder),
                                writing,
                                keep_alive,
                                head_request,
                            },
                        );
                        update_state(st2, next)
                    },
                    other => State::Http1(
                        Http1 { handler, reading: other, writing, keep_alive, head_request },
                    ),
                }
            },
        }
    }

    /// A readable event: `input` holds the bytes just read from the
    /// transport, `eof` whether the transport ended after them. Parses
    /// heads, feeds the handler, and walks as many pipelined exchanges
    /// as the buffered bytes complete. Never writes to the transport.
    pub fn on_readable<F: MessageHandlerFactory<T, Output = H>>(
        &mut self,
        factory: &mut F,
        input: &[u8],
        eof: bool,
    )
        requires
            old(self).wf(),
            old(self).buf_view().len() + input@.len() <= usize::MAX,
        ensures
            final(self).wf(),
            final(self).written() == old(self).written(),
            spec_readable_post(
                old(self)@,
                old(self).buf_view() + input@,
                eof,
                final(self)@,
                final(self).buf_view(),
            ),
    {
        let ghost pre = self@;
        let ghost base = old(self).buf_view() + input@;
        self.buf.append(input);
        proof {
            lemma_suffix_refl(self.buf@);
        }
        // The first pass: while no exchange is open, the engine alone
        // decides, and the contract pins each outcome.
        let len_before0 = self.buf.len();
        let mut st = State::Closed;
        core::mem::swap(&mut self.state, &mut st);
        let st2 = self.read_once(factory, st, eof);
        self.state = st2;
        let again0 = match &self.state {
            State::Init => !self.buf.is_empty() && self.buf.len() < len_before0,
            State::Http1(h) => match &h.reading {
                Reading::Body(d) => d.is_eof() || (!self.buf.is_empty() && self.buf.len()
                    < len_before0),
                _ => false,
            },
            _ => false,
        };
        if !again0 {
            proof {
                lemma_suffix_refl(self.buf_view());
            }
            return ;
        }
        // Further passes walk the body and any pipelined exchanges the
        // buffer already completes.
        proof {
            lemma_suffix_refl(self.buf_view());
        }
        let start_len = self.buf.len();
        let mut fuel: usize = if start_len >= usize::MAX - 4 {
            usize::MAX
        } else {
            start_len + 4
        };
        loop
            invariant
                state_wf(self.state),
                server_phase(self.state),
                self.written() == old(self).written(),
                seq_suffix_of(self.buf_view(), base),
                pre is Init ==> match crate::parse::spec_parse_request(base) {
                    crate::parse::ReqOut::Bad(_) => self@ is Closed && self.buf_view() == base,
                    crate::parse::ReqOut::Pending => ((base.len() >= MAX_BUFFER_SIZE || eof)
                        ==> self@ is Closed && self.buf_view() == base) && ((base.len()
                        < MAX_BUFFER_SIZE && !eof) ==> self@ is Init && self.buf_view() == base),
                    crate::parse::ReqOut::Done(v, len) => seq_suffix_of(
                        self.buf_view(),
                        base.skip(len),
                    ) && (crate::http::spec_server_decoder(v) is Err ==> self@ is Closed
                        && self.buf_view() == base.skip(len)),
                },
                pre is Closed ==> self@ is Closed && self.buf_view() == base,
            decreases fuel,
        {
            if fuel == 0 {
                break;
            }
            fuel = fuel - 1;
            let len_before = self.buf.len();
            let mut st = State::Closed;
            core::mem::swap(&mut self.state, &mut st);
            let ghost buf_before = self.buf_view();
            let st2 = self.read_once(factory, st, eof);
            proof {
                lemma_suffix_trans(self.buf_view(), buf_before, base);
                if pre is Init {
                    match crate::parse::spec_parse_request(base) {
                        crate::parse::ReqOut::Done(v, len) => {
                            lemma_suffix_trans(self.buf_view(), buf_before, base.skip(len));
                        },
                        _ => {},
                    }
                }
            }
            self.state = st2;
            let again = match &self.state {
                State::Init => !self.buf.is_empty() && self.buf.len() < len_before,
                State::Http1(h) => match &h.reading {
                    Reading::Body(d) => d.is_eof() || (!self.buf.is_empty() && self.buf.len()
                        < len_before),
                    _ => false,
                },
                _ => false,
            };
            if !again {
                break;
            }
        }
    }

    /// One pass of the write path over a state taken out of the
    /// connection. Never touches the inbound buffer.
    fn write_once(&mut self, st: State<H>, now_secs: u64) -> (r: State<H>)
        requires
            state_wf(st),
            now_secs <= crate::date::MAX_DATE_SECS,
        ensures
            state_wf(r),
            server_phase(st) ==> server_phase(r),
            final(self).buf_view() == old(self).buf_view(),
            old(self).written().is_prefix_of(final(self).written()),
            final(self).state == old(self).state,
            spec_writable_post(
                state_view(st),
                state_view(r),
                old(self).written(),
                final(self).written(),
                now_secs as int,
            ),
    {
        let ghost sv0 = state_view(st);
        proof {
            assert(old(self).written().is_prefix_of(old(self).written())) by {
                assert(old(self).written() =~= old(self).written().take(
                    old(self).written().len() as int,
                ));
            }
        }
        match st {
            State::Closed => State::Closed,
            State::Init => State::Init,
            State::Http1(h) => {
                let Http1 { mut handler, reading, writing, mut keep_alive, head_request } = h;
                let ghost hv0 = Http1View {
                    reading: reading_view(reading),
                    writing: writing_view(writing),
                    keep_alive,
                    head_request,
                };
                proof {
                    assert(sv0 == ConnView::Http1(hv0));
                }
                match writing {
                    Writing::Head => {
                        let mut head = MessageHead {
                            version: HttpVersion::Http11,
                            subject: RawStatus::default(),
                            headers: Headers::new(),
                        };
                        let next = handler.on_outgoing(&mut head);
                        if keep_alive {
                            keep_alive = head.should_keep_alive();
                        }
                        let ghost hv = crate::parse::resp_view(head);
                        // A head the wire grammar cannot carry — a
                        // status outside three digits or contradictory
                        // Content-Length lines — is an error, not a
                        // message: the connection closes unanswered.
                        let code = head.subject.0;
                        let cl_bad = matches!(
                            head.headers.content_length(),
                            crate::headers::ContentLength::Bad
                        );
                        if code < 100 || code > 999 || cl_bad {
                            return State::Closed;
                        }
                        let (bytes, mut encoder) = crate::http::server_encode(
                            head,
                            head_request,
                            now_secs,
                        );
                        let ghost head_bytes = bytes@;
                        let writing2 = match next.interest {
                            NextKind::Write => {
                                encoder.prefix(WriteBuf::new(bytes));
                                Writing::Ready(encoder)
                            },
                            NextKind::ReadWrite => {
                                encoder.prefix(WriteBuf::new(bytes));
                                Writing::Ready(encoder)
                            },
                            _ => Writing::Chunk(WriteBuf::new(bytes), encoder, next),
                        };
                        let st2 = State::Http1(
                            Http1 { handler, reading, writing: writing2, keep_alive, head_request },
                        );
                        proof {
                            let wv = if next.interest is Write || next.interest is ReadWrite {
                                WritingView::Ready(
                                    crate::encode::EncView {
                                        prefix_rem: head_bytes,
                                        kind: crate::http::spec_server_encoder_kind(
                                            hv,
                                            head_request,
                                        ),
                                    },
                                )
                            } else {
                                WritingView::Chunk(
                                    head_bytes,
                                    crate::encode::EncView {
                                        prefix_rem: Seq::empty(),
                                        kind: crate::http::spec_server_encoder_kind(
                                            hv,
                                            head_request,
                                        ),
                                    },
                                    next,
                                )
                            };
                            assert(state_view(st2) =~= ConnView::Http1(
                                Http1View {
                                    reading: hv0.reading,
                                    writing: wv,
                                    keep_alive: hv0.keep_alive
                                        && crate::http::spec_should_keep_alive(
                                        hv.version,
                                        hv.headers,
                                    ),
                                    head_request: hv0.head_request,
                                },
                            ));
                        }
                        let r2 = update_state(st2, next);
                        proof {
                            lemma_view_update(st2, next);
                            assert(state_view(r2) == spec_head_built(
                                hv0,
                                hv,
                                next,
                                now_secs as int,
                            ));
                        }
                        r2
                    },
                    Writing::Chunk(wb, encoder, stored) => {
                        let mut wb = wb;
                        let part = vstd::slice::slice_subrange(
                            wb.bytes.as_slice(),
                            wb.pos,
                            wb.bytes.len(),
                        );
                        proof {
                            assert(part@ =~= wb.remaining());
                        }
                        let outcome = self.transport.write_atomic(part);
                        proof {
                            assert(old(self).written().is_prefix_of(self.written())) by {
                                assert(old(self).written() =~= self.written().take(
                                    old(self).written().len() as int,
                                ));
                            }
                        }
                        let (n, transport_gone) = match outcome {
                            WriteOutcome::Accepted(k) => (k, false),
                            WriteOutcome::WouldBlock => (0, false),
                            WriteOutcome::Closed => (0, true),
                        };
                        proof {
                            assert(self.written() == old(self).written() + part@.take(n as int));
                        }
                        if transport_gone {
                            proof {
                                assert(part@.take(0) =~= Seq::<u8>::empty());
                                assert(self.written() =~= old(self).written());
                            }
                            return State::Closed;
                        }
                        wb.pos = wb.pos + n;
                        let done = wb.pos >= wb.bytes.len();
                        let ghost rem0 = match hv0.writing {
                            WritingView::Chunk(rem, _, _) => rem,
                            _ => Seq::empty(),
                        };
                        proof {
                            assert(rem0 == part@);
                            assert(wb.remaining() =~= rem0.skip(n as int));
                        }
                        let st2 = State::Http1(
                            Http1 {
                                handler,
                                reading,
                                writing: Writing::Chunk(wb, encoder, stored),
                                keep_alive,
                                head_request,
                            },
                        );
                        if done {
                            proof {
                                assert(n == rem0.len());
                                assert(state_view(st2) =~= ConnView::Http1(
                                    Http1View {
                                        writing: WritingView::Chunk(
                                            Seq::empty(),
                                            encoder.view(),
                                            stored,
                                        ),
                                        ..hv0
                                    },
                                ));
                            }
                            let r2 = update_state(st2, stored);
                            proof {
                                lemma_view_update(st2, stored);
                                assert(state_view(r2) == spec_chunk_flush(hv0, n as int));
                            }
                            r2
                        } else {
                            proof {
                                assert(state_view(st2) =~= spec_chunk_flush(hv0, n as int));
                            }
                            st2
                        }
                    },
                    Writing::Ready(encoder) => {
                        let mut encoder = encoder;
                        let next = handler.on_encode(&mut encoder, &mut self.transport);
                        let st2 = State::Http1(
                            Http1 {
                                handler,
                                reading,
                                writing: Writing::Ready(encoder),
                                keep_alive,
                                head_request,
                            },
                        );
                        proof {
                            assert(state_view(st2) =~= ConnView::Http1(
                                Http1View { writing: WritingView::Ready(encoder.view()), ..hv0 },
                            ));
                        }
                        let r2 = update_state(st2, next);
                        proof {
                            lemma_view_update(st2, next);
                        }
                        r2
                    },
                    other => State::Http1(
                        Http1 { handler, reading, writing: other, keep_alive, head_request },
                    ),
                }
            },
        }
    }

    /// A writable event: emits the outgoing head when one is owed,
    /// flushes buffered head bytes, or hands the encoder to the
    /// handler. `now_secs` feeds an added `Date` header. Never touches
    /// the inbound buffer.
    pub fn on_writable(&mut self, now_secs: u64)
        requires
            old(self).wf(),
            now_secs <= crate::date::MAX_DATE_SECS,
        ensures
            final(self).wf(),
            final(self).buf_view() == old(self).buf_view(),
            old(self).written().is_prefix_of(final(self).written()),
            spec_writable_post(
                old(self)@,
                final(self)@,
                old(self).written(),
                final(self).written(),
                now_secs as int,
            ),
    {
        let mut st = State::Closed;
        core::mem::swap(&mut self.state, &mut st);
        let st2 = self.write_once(st, now_secs);
        self.state = st2;
    }

    /// One reactor turn: the readable half, then the writable half,
    /// then the fresh registration to report back.
    pub fn ready<F: MessageHandlerFactory<T, Output = H>>(
        &mut self,
        factory: &mut F,
        readable: bool,
        input: &[u8],
        eof: bool,
        writable: bool,
        now_secs: u64,
    ) -> (r: Reg)
        requires
            old(self).wf(),
            old(self).buf_view().len() + input@.len() <= usize::MAX,
            now_secs <= crate::date::MAX_DATE_SECS,
        ensures
            final(self).wf(),
            r == final(self).spec_state_interest(),
            old(self).written().is_prefix_of(final(self).written()),
            !readable && !writable ==> final(self)@ == old(self)@ && final(self).buf_view()
                == old(self).buf_view() && final(self).written() == old(self).written(),
            readable && !writable ==> spec_readable_post(
                old(self)@,
                old(self).buf_view() + input@,
                eof,
                final(self)@,
                final(self).buf_view(),
            ) && final(self).written() == old(self).written(),
            !readable && writable ==> spec_writable_post(
                old(self)@,
                final(self)@,
                old(self).written(),
                final(self).written(),
                now_secs as int,
            ) && final(self).buf_view() == old(self).buf_view(),
            readable && writable ==> exists|mid: ConnView|
                #[trigger] spec_writable_post(
                    mid,
                    final(self)@,
                    old(self).written(),
                    final(self).written(),
                    now_secs as int,
                ) && spec_readable_post(
                    old(self)@,
                    old(self).buf_view() + input@,
                    eof,
                    mid,
                    final(self).buf_view(),
                ),
    {
        proof {
            assert(old(self).written().is_prefix_of(old(self).written())) by {
                assert(old(self).written() =~= old(self).written().take(
                    old(self).written().len() as int,
                ));
            }
        }
        if readable {
            self.on_readable(factory, input, eof);
        }
        let ghost mid = self@;
        if writable {
            self.on_writable(now_secs);
        }
        proof {
            if readable && writable {
                assert(spec_writable_post(
                    mid,
                    self@,
                    old(self).written(),
                    self.written(),
                    now_secs as int,
                ));
            }
        }
        self.interest()
    }
}

} // verus!
