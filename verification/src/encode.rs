//! Body encoders: Content-Length, chunked and empty framing, the
//! atomic-write transport they write through, and byte-exact cursor
//! tracking across partial writes.

use vstd::prelude::*;
use crate::http::WriteBuf;

verus! {

/// What a transport did with an offered slice.
#[derive(Clone, Copy, PartialEq, Eq, Structural, Debug)]
pub enum WriteOutcome {
    /// The first `n` bytes were taken.
    Accepted(usize),
    /// Nothing was taken; try again when writable.
    WouldBlock,
    /// The transport is gone; nothing was taken.
    Closed,
}

/// A byte sink that takes each offered slice as one atomic unit: some
/// prefix of it is written, in order, in a single submission. A type
/// implementing this stands for the connection's transport.
pub trait AtomicWrite {
    /// Everything written to the transport so far, in order.
    spec fn written(&self) -> Seq<u8>;

    /// Offers `data`; the transport takes some prefix of it.
    fn write_atomic(&mut self, data: &[u8]) -> (r: WriteOutcome)
        ensures
            match r {
                WriteOutcome::Accepted(n) => n <= data@.len() && (n == 0 ==> data@.len() == 0)
                    && final(self).written() == old(self).written() + data@.take(n as int),
                WriteOutcome::WouldBlock => final(self).written() == old(self).written(),
                WriteOutcome::Closed => final(self).written() == old(self).written(),
            },
    ;
}

/// An in-memory transport that accepts everything offered.
pub struct Buf {
    data: Vec<u8>,
}

impl Buf {
    /// An empty sink.
    pub fn new() -> (r: Buf)
        ensures
            r.written() == Seq::<u8>::empty(),
    {
        Buf { data: Vec::new() }
    }

    /// A copy of everything written so far.
    pub fn contents(&self) -> (r: Vec<u8>)
        ensures
            r@ == self.written(),
    {
        crate::headers::copy_bytes(self.data.as_slice())
    }
}

impl AtomicWrite for Buf {
    closed spec fn written(&self) -> Seq<u8> {
        self.data@
    }

    /// This sink accepts everything offered.
    fn write_atomic(&mut self, data: &[u8]) -> (r: WriteOutcome)
        ensures
            r == WriteOutcome::Accepted(data@.len() as usize),
            final(self).written() == old(self).written() + data@,
    {
        let n = data.len();
        let mut i: usize = 0;
        while i < n
            invariant
                i <= data@.len(),
                n == data@.len(),
                self.data@ == old(self).data@ + data@.take(i as int),
            decreases data@.len() - i,
        {
            self.data.push(data[i]);
            i = i + 1;
            proof {
                assert(self.data@ =~= old(self).data@ + data@.take(i as int));
            }
        }
        proof {
            assert(data@.take(data@.len() as int) =~= data@);
        }
        WriteOutcome::Accepted(n)
    }
}

/// A transport that accepts only a set number of bytes before
/// reporting "would block": partial writes on demand.
pub struct Async<T> {
    inner: T,
    bytes_until_block: usize,
}

impl<T> Async<T> {
    /// Wraps a transport; up to `bytes` bytes will be accepted before
    /// the next block.
    pub fn new(inner: T, bytes: usize) -> (r: Async<T>)
        ensures
            r.budget() == bytes,
    {
        Async { inner, bytes_until_block: bytes }
    }

    /// How many more bytes will be accepted before blocking.
    pub closed spec fn budget(&self) -> usize {
        self.bytes_until_block
    }

    /// Allows another `bytes` bytes through before the next block.
    pub fn block_in(&mut self, bytes: usize)
        ensures
            final(self).budget() == bytes,
    {
        self.bytes_until_block = bytes;
    }
}

impl<T: AtomicWrite> AtomicWrite for Async<T> {
    closed spec fn written(&self) -> Seq<u8> {
        self.inner.written()
    }

    /// This sink enforces its budget: nothing is taken past it, every
    /// byte taken spends it, and an exhausted budget blocks.
    fn write_atomic(&mut self, data: &[u8]) -> (r: WriteOutcome)
        ensures
            r matches WriteOutcome::Accepted(n) ==> n <= old(self).budget() && final(self).budget() == old(self).budget() - n,
            old(self).budget() == 0 && data@.len() > 0 ==> r is WouldBlock,
            !(r matches WriteOutcome::Accepted(n) && n > 0) ==> final(self).budget() == old(self).budget() && final(self).written() == old(self).written(),
    {
        if data.len() == 0 {
            return WriteOutcome::Accepted(0);
        }
        if self.bytes_until_block == 0 {
            return WriteOutcome::WouldBlock;
        }
        let cap = if data.len() < self.bytes_until_block {
            data.len()
        } else {
            self.bytes_until_block
        };
        let part = vstd::slice::slice_subrange(data, 0, cap);
        let r = self.inner.write_atomic(part);
        match r {
            WriteOutcome::Accepted(n) => {
                self.bytes_until_block = self.bytes_until_block - n;
                proof {
                    assert(part@.take(n as int) =~= data@.take(n as int));
                }
                if n == 0 {
                    WriteOutcome::WouldBlock
                } else {
                    WriteOutcome::Accepted(n)
                }
            },
            WriteOutcome::WouldBlock => WriteOutcome::WouldBlock,
            WriteOutcome::Closed => WriteOutcome::Closed,
        }
    }
}

impl<T: AtomicWrite> Async<T> {
    /// Hands back the wrapped transport.
    pub fn into_inner(self) -> (r: T)
        ensures
            r.written() == self.written(),
    {
        self.inner
    }
}

/// The CRLF line ending.
pub open spec fn crlf() -> Seq<u8> {
    seq![13u8, 10u8]
}

/// The chunked terminator `0 CRLF CRLF`.
pub open spec fn terminator() -> Seq<u8> {
    seq![48u8, 13u8, 10u8, 13u8, 10u8]
}

/// The uppercase hex digit for a value below 16.
pub open spec fn hex_digit_char(d: int) -> u8 {
    if d < 10 {
        (48 + d) as u8
    } else {
        (55 + d) as u8
    }
}

/// The uppercase hex rendering of a number, most significant digit
/// first, no leading zeros (a single `0` for zero).
pub open spec fn spec_hex(n: int) -> Seq<u8>
    decreases n,
{
    if n < 16 {
        seq![hex_digit_char(n)]
    } else {
        spec_hex(n / 16) + seq![hex_digit_char(n % 16)]
    }
}

/// Renders a chunk size in uppercase hex.
pub fn render_hex(n: usize) -> (r: Vec<u8>)
    ensures
        r@ == spec_hex(n as int),
    decreases n,
{
    if n < 16 {
        let d = n as u8;
        let c = if d < 10 {
            48 + d
        } else {
            55 + d
        };
        let mut v: Vec<u8> = Vec::new();
        v.push(c);
        proof {
            assert(v@ =~= spec_hex(n as int));
        }
        v
    } else {
        let mut v = render_hex(n / 16);
        let d = (n % 16) as u8;
        let c = if d < 10 {
            48 + d
        } else {
            55 + d
        };
        v.push(c);
        proof {
            assert(v@ =~= spec_hex(n as int));
        }
        v
    }
}

/// Where a chunked encoder stands between calls.
pub enum ChunkedWrite {
    /// No chunk is open and nothing is pending.
    Init,
    /// Control bytes still to flush, payload bytes still owed for the
    /// open chunk, and whether the terminator ends the body after them.
    Busy(WriteBuf, u64, bool),
    /// The terminator is fully written: the body is complete.
    Done,
}

/// The framing of an outgoing body.
pub enum Kind {
    /// Write exactly this many more payload bytes, unframed.
    Length(u64),
    /// Wrap each write as `HEX CRLF payload CRLF`; a zero-length write
    /// emits the terminator.
    Chunked(ChunkedWrite),
    /// No body: only zero-length writes are accepted.
    Empty,
}

/// A body writer with an optional prefix: serialized head bytes that
/// are flushed atomically with the first body write.
pub struct Encoder {
    pub kind: Kind,
    pub prefix: WriteBuf,
}

/// The abstract state of a chunked encoder.
#[verifier::ext_equal]
pub enum CwView {
    Init,
    Busy(Seq<u8>, int, bool),
    Done,
}

/// The abstract state of an encoder's framing.
#[verifier::ext_equal]
pub enum KindView {
    Length(int),
    Chunked(CwView),
    Empty,
}

/// The abstract state of an encoder: bytes it still owes the transport
/// before and around payload, and the framing position.
#[verifier::ext_equal]
pub struct EncView {
    pub prefix_rem: Seq<u8>,
    pub kind: KindView,
}

impl Encoder {
    /// The encoder's abstract state.
    pub open spec fn view(&self) -> EncView {
        EncView {
            prefix_rem: self.prefix.remaining(),
            kind: match self.kind {
                Kind::Length(n) => KindView::Length(n as int),
                Kind::Empty => KindView::Empty,
                Kind::Chunked(ChunkedWrite::Init) => KindView::Chunked(CwView::Init),
                Kind::Chunked(ChunkedWrite::Busy(wb, owed, fin)) => KindView::Chunked(
                    CwView::Busy(wb.remaining(), owed as int, fin),
                ),
                Kind::Chunked(ChunkedWrite::Done) => KindView::Chunked(CwView::Done),
            },
        }
    }

    /// Cursors sit inside their buffers.
    pub open spec fn wf(&self) -> bool {
        &&& self.prefix.wf()
        &&& match self.kind {
            Kind::Chunked(ChunkedWrite::Busy(wb, _, _)) => wb.wf(),
            _ => true,
        }
    }

    /// A chunked-body encoder.
    pub fn chunked() -> (r: Encoder)
        ensures
            r.wf(),
            r@ == (EncView { prefix_rem: Seq::empty(), kind: KindView::Chunked(CwView::Init) }),
    {
        let r = Encoder { kind: Kind::Chunked(ChunkedWrite::Init), prefix: WriteBuf::new(Vec::new()) };
        proof {
            assert(r@ =~= (EncView {
                prefix_rem: Seq::empty(),
                kind: KindView::Chunked(CwView::Init),
            }));
        }
        r
    }

    /// A fixed-length body encoder.
    pub fn length(len: u64) -> (r: Encoder)
        ensures
            r.wf(),
            r@ == (EncView { prefix_rem: Seq::empty(), kind: KindView::Length(len as int) }),
    {
        let r = Encoder { kind: Kind::Length(len), prefix: WriteBuf::new(Vec::new()) };
        proof {
            assert(r@ =~= (EncView { prefix_rem: Seq::empty(), kind: KindView::Length(len as int) }));
        }
        r
    }

    /// A no-body encoder.
    pub fn empty() -> (r: Encoder)
        ensures
            r.wf(),
            r@ == (EncView { prefix_rem: Seq::empty(), kind: KindView::Empty }),
    {
        let r = Encoder { kind: Kind::Empty, prefix: WriteBuf::new(Vec::new()) };
        proof {
            assert(r@ =~= (EncView { prefix_rem: Seq::empty(), kind: KindView::Empty }));
        }
        r
    }

    /// Attaches serialized head bytes to be flushed atomically with
    /// the next body write.
    pub fn prefix(&mut self, prefix: WriteBuf)
        requires
            old(self).wf(),
            prefix.wf(),
        ensures
            final(self).wf(),
            final(self)@ == (EncView { prefix_rem: prefix.remaining(), kind: old(self)@.kind }),
    {
        self.prefix = prefix;
        proof {
            assert(self@ =~= (EncView { prefix_rem: self.prefix.remaining(), kind: old(self)@.kind }));
        }
    }

    /// Whether everything, prefix included, has been written: the body
    /// is complete and another exchange may follow.
    pub open spec fn spec_is_eof(&self) -> bool {
        spec_ev_eof(self@)
    }

    /// Whether everything, prefix included, has been written.
    pub fn is_eof(&self) -> (r: bool)
        requires
            self.wf(),
        ensures
            r == self.spec_is_eof(),
    {
        if self.prefix.pos < self.prefix.bytes.len() {
            return false;
        }
        proof {
            assert(self.prefix.remaining().len() == 0);
        }
        match &self.kind {
            Kind::Length(n) => *n == 0,
            Kind::Chunked(cw) => matches!(cw, ChunkedWrite::Done),
            Kind::Empty => true,
        }
    }
}

/// Whether an encoder state has everything, prefix included, written.
pub open spec fn spec_ev_eof(ev: EncView) -> bool {
    ev.prefix_rem.len() == 0 && match ev.kind {
        KindView::Length(n) => n == 0,
        KindView::Chunked(cw) => cw is Done,
        KindView::Empty => true,
    }
}

/// Inputs on which `encode` refuses to write: a non-empty payload
/// against framing that admits no more payload bytes.
pub open spec fn spec_write_zero(v: EncView, msglen: int) -> bool {
    msglen > 0 && match v.kind {
        KindView::Length(rem) => rem == 0,
        KindView::Empty => true,
        KindView::Chunked(CwView::Busy(_, owed, fin)) => owed == 0,
        KindView::Chunked(CwView::Done) => true,
        KindView::Chunked(CwView::Init) => false,
    }
}

/// The control bytes this call hands the transport after the prefix
/// and before payload.
pub open spec fn spec_ctl(v: EncView, msg: Seq<u8>) -> Seq<u8> {
    match v.kind {
        KindView::Chunked(CwView::Init) => if msg.len() > 0 {
            spec_hex(msg.len() as int) + crlf()
        } else {
            terminator()
        },
        KindView::Chunked(CwView::Busy(ctl, owed, fin)) => if owed == 0 && !fin && msg.len()
            == 0 {
            ctl + terminator()
        } else {
            ctl
        },
        _ => Seq::empty(),
    }
}

/// The payload bytes this call may pass through.
pub open spec fn spec_allowed(v: EncView, msg: Seq<u8>) -> Seq<u8> {
    match v.kind {
        KindView::Length(rem) => if rem < msg.len() {
            msg.take(rem)
        } else {
            msg
        },
        KindView::Chunked(CwView::Init) => msg,
        KindView::Chunked(CwView::Busy(_, owed, _)) => if owed < msg.len() {
            msg.take(owed)
        } else {
            msg
        },
        _ => Seq::empty(),
    }
}

/// The control bytes that close the chunk when the whole payload goes
/// through in this call.
pub open spec fn spec_post(v: EncView, msg: Seq<u8>) -> Seq<u8> {
    match v.kind {
        KindView::Chunked(CwView::Init) => if msg.len() > 0 {
            crlf()
        } else {
            Seq::empty()
        },
        KindView::Chunked(CwView::Busy(_, owed, _)) => if 0 < owed <= msg.len() {
            crlf()
        } else {
            Seq::empty()
        },
        _ => Seq::empty(),
    }
}

/// Everything this call submits to the transport, in order.
pub open spec fn spec_submission(v: EncView, msg: Seq<u8>) -> Seq<u8> {
    v.prefix_rem + spec_ctl(v, msg) + spec_allowed(v, msg) + spec_post(v, msg)
}

/// How many payload bytes went through when the transport accepted
/// the first `n` bytes of the submission.
pub open spec fn spec_consumed(v: EncView, msg: Seq<u8>, n: int) -> int {
    let past = n - v.prefix_rem.len() - spec_ctl(v, msg).len();
    if past <= 0 {
        0
    } else if past >= spec_allowed(v, msg).len() {
        spec_allowed(v, msg).len() as int
    } else {
        past
    }
}

/// The encoder state after the transport accepted the first `n` bytes
/// of the submission: every cursor advances by exactly what was taken.
pub open spec fn spec_after(v: EncView, msg: Seq<u8>, n: int) -> EncView {
    let n_pre = if n <= v.prefix_rem.len() {
        n
    } else {
        v.prefix_rem.len() as int
    };
    let m = n - n_pre;
    let prefix_rem = v.prefix_rem.skip(n_pre);
    let kind = match v.kind {
        KindView::Length(rem) => KindView::Length(rem - spec_consumed(v, msg, n)),
        KindView::Empty => KindView::Empty,
        KindView::Chunked(CwView::Done) => KindView::Chunked(CwView::Done),
        KindView::Chunked(CwView::Init) => KindView::Chunked(
            if m == 0 {
                CwView::Init
            } else if msg.len() == 0 {
                if m >= terminator().len() {
                    CwView::Done
                } else {
                    CwView::Busy(terminator().skip(m), 0, true)
                }
            } else {
                let line = spec_hex(msg.len() as int) + crlf();
                let c = spec_consumed(v, msg, n);
                if c == msg.len() {
                    let n_post = m - line.len() - msg.len();
                    if n_post >= 2 {
                        CwView::Init
                    } else {
                        CwView::Busy(crlf().skip(n_post), 0, false)
                    }
                } else {
                    let n_ctl = if m <= line.len() {
                        m
                    } else {
                        line.len() as int
                    };
                    CwView::Busy(line.skip(n_ctl), msg.len() - c, false)
                }
            },
        ),
        KindView::Chunked(CwView::Busy(ctl, owed, fin)) => KindView::Chunked(
            if owed > 0 {
                let c = spec_consumed(v, msg, n);
                if c == owed {
                    let n_post = m - ctl.len() - owed;
                    if n_post >= 2 {
                        CwView::Init
                    } else {
                        CwView::Busy(crlf().skip(n_post), 0, false)
                    }
                } else {
                    let n_ctl = if m <= ctl.len() {
                        m
                    } else {
                        ctl.len() as int
                    };
                    CwView::Busy(ctl.skip(n_ctl), owed - c, fin)
                }
            } else if !fin && msg.len() == 0 {
                if m == 0 {
                    CwView::Busy(ctl, 0, false)
                } else if m <= ctl.len() {
                    if m == ctl.len() {
                        CwView::Init
                    } else {
                        CwView::Busy(ctl.skip(m), 0, false)
                    }
                } else {
                    let m2 = m - ctl.len();
                    if m2 >= terminator().len() {
                        CwView::Done
                    } else {
                        CwView::Busy(terminator().skip(m2), 0, true)
                    }
                }
            } else {
                let n_ctl = if m <= ctl.len() {
                    m
                } else {
                    ctl.len() as int
                };
                if ctl.skip(n_ctl).len() == 0 {
                    if fin {
                        CwView::Done
                    } else {
                        CwView::Init
                    }
                } else {
                    CwView::Busy(ctl.skip(n_ctl), 0, fin)
                }
            },
        ),
    };
    EncView { prefix_rem, kind }
}

/// The full relation `encode` establishes between its starting state,
/// the transport, its final state, and its result, for the byte count
/// `n` the transport accepted.
pub open spec fn encode_rel(
    v0: EncView,
    msg: Seq<u8>,
    w0: Seq<u8>,
    v1: EncView,
    w1: Seq<u8>,
    r: EncodeOutcome,
    n: int,
) -> bool {
    &&& 0 <= n <= spec_submission(v0, msg).len()
    &&& w1 == w0 + spec_submission(v0, msg).take(n)
    &&& v1 == spec_after(v0, msg, n)
    &&& match r {
        EncodeOutcome::Wrote(c) => c == spec_consumed(v0, msg, n) && (c > 0 || (msg.len() == 0
            && n == spec_submission(v0, msg).len())),
        EncodeOutcome::WouldBlock => spec_consumed(v0, msg, n) == 0 && !(msg.len() == 0 && n
            == spec_submission(v0, msg).len()),
        EncodeOutcome::Closed => n == 0,
        EncodeOutcome::WriteZero => false,
    }
}

/// What one `encode` call reports.
#[derive(Clone, Copy, PartialEq, Eq, Structural, Debug)]
pub enum EncodeOutcome {
    /// This many payload bytes were taken.
    Wrote(usize),
    /// Nothing useful could be written; retry when writable.
    WouldBlock,
    /// The framing admits no more payload bytes.
    WriteZero,
    /// The transport is gone.
    Closed,
}

/// A length-framed encoder passes at most `min(remaining, payload)`
/// payload bytes, and never more; when the transport accepts the whole
/// submission, it passes exactly that many.
pub proof fn lemma_length_writes_min(v: EncView, msg: Seq<u8>, n: int)
    requires
        v.kind matches KindView::Length(rem) && rem >= 0,
        0 <= n <= spec_submission(v, msg).len(),
    ensures
        spec_consumed(v, msg, n) <= msg.len(),
        match v.kind {
            KindView::Length(rem) => {
                &&& spec_consumed(v, msg, n) <= rem
                &&& (n == spec_submission(v, msg).len() ==> spec_consumed(v, msg, n) == if rem
                    < msg.len() {
                    rem
                } else {
                    msg.len() as int
                })
            },
            _ => true,
        },
{
    match v.kind {
        KindView::Length(rem) => {
            if rem < msg.len() {
                assert(spec_allowed(v, msg).len() == rem);
            } else {
                assert(spec_allowed(v, msg).len() == msg.len());
            }
        },
        _ => {},
    }
}

/// A transport that takes nothing leaves every encoder cursor exactly
/// where it was.
pub proof fn lemma_encode_blocked_keeps_state(v: EncView, msg: Seq<u8>)
    requires
        !spec_write_zero(v, msg.len() as int),
        match v.kind {
            KindView::Chunked(CwView::Busy(ctl, owed, fin)) => owed >= 0 && (ctl.len() > 0
                || owed > 0 || !fin),
            _ => true,
        },
    ensures
        spec_after(v, msg, 0) == v,
{
    assert(v.prefix_rem.skip(0) =~= v.prefix_rem);
    match v.kind {
        KindView::Chunked(CwView::Busy(ctl, owed, fin)) => {
            assert(ctl.skip(0) =~= ctl);
            assert(spec_after(v, msg, 0) =~= v);
        },
        _ => {
            assert(spec_after(v, msg, 0) =~= v);
        },
    }
}

/// Appends a slice to a byte vector.
fn append_slice(dst: &mut Vec<u8>, src: &[u8])
    ensures
        final(dst)@ == old(dst)@ + src@,
{
    let mut i: usize = 0;
    while i < src.len()
        invariant
            i <= src@.len(),
            dst@ == old(dst)@ + src@.take(i as int),
        decreases src@.len() - i,
    {
        dst.push(src[i]);
        i = i + 1;
        proof {
            assert(dst@ =~= old(dst)@ + src@.take(i as int));
        }
    }
    proof {
        assert(dst@ =~= old(dst)@ + src@);
    }
}

/// Appends a write buffer's unwritten remainder to a byte vector.
fn append_remaining(dst: &mut Vec<u8>, wb: &WriteBuf)
    requires
        wb.wf(),
    ensures
        final(dst)@ == old(dst)@ + wb.remaining(),
{
    let part = vstd::slice::slice_subrange(wb.bytes.as_slice(), wb.pos, wb.bytes.len());
    proof {
        assert(part@ =~= wb.remaining());
    }
    append_slice(dst, part);
}

/// The CRLF pair as a vector.
fn crlf_vec() -> (r: Vec<u8>)
    ensures
        r@ == crlf(),
{
    let mut v: Vec<u8> = Vec::new();
    v.push(13u8);
    v.push(10u8);
    proof {
        assert(v@ =~= crlf());
    }
    v
}

/// The chunked terminator as a vector.
fn terminator_vec() -> (r: Vec<u8>)
    ensures
        r@ == terminator(),
{
    let mut v: Vec<u8> = Vec::new();
    v.push(48u8);
    v.push(13u8);
    v.push(10u8);
    v.push(13u8);
    v.push(10u8);
    proof {
        assert(v@ =~= terminator());
    }
    v
}

impl Encoder {
    /// Writes `msg` through this framing into the transport, flushing
    /// any pending prefix and control bytes first, all as one atomic
    /// submission. Cursors advance by exactly what the transport took;
    /// the result reports the payload bytes among them.
    #[verifier::rlimit(100)]
    pub fn encode<W: AtomicWrite>(&mut self, w: &mut W, msg: &[u8]) -> (r: EncodeOutcome)
        requires
            old(self).wf(),
        ensures
            final(self).wf(),
            spec_write_zero(old(self)@, msg@.len() as int) ==> r == EncodeOutcome::WriteZero
                && final(self)@ == old(self)@ && final(w).written() == old(w).written(),
            !spec_write_zero(old(self)@, msg@.len() as int) ==> exists|n: int|
                #[trigger] encode_rel(
                    old(self)@,
                    msg@,
                    old(w).written(),
                    final(self)@,
                    final(w).written(),
                    r,
                    n,
                ),
    {
        let ghost v0 = old(self)@;
        let wz = msg.len() > 0 && match &self.kind {
            Kind::Length(rem) => *rem == 0,
            Kind::Empty => true,
            Kind::Chunked(ChunkedWrite::Busy(_, owed, _)) => *owed == 0,
            Kind::Chunked(ChunkedWrite::Done) => true,
            Kind::Chunked(ChunkedWrite::Init) => false,
        };
        if wz {
            return EncodeOutcome::WriteZero;
        }

        // Assemble the one atomic submission: prefix, control, payload,
        // closing control.
        let mut sub: Vec<u8> = Vec::new();
        append_remaining(&mut sub, &self.prefix);
        let ghost pre_len = v0.prefix_rem.len() as int;

        let mut line: Vec<u8> = Vec::new();
        let mut term: Vec<u8> = Vec::new();
        match &self.kind {
            Kind::Length(_) => {},
            Kind::Empty => {},
            Kind::Chunked(ChunkedWrite::Init) => {
                if msg.len() > 0 {
                    line = render_hex(msg.len());
                    line.push(13u8);
                    line.push(10u8);
                    proof {
                        assert(line@ =~= spec_hex(msg@.len() as int) + crlf());
                    }
                    append_slice(&mut sub, line.as_slice());
                } else {
                    term = terminator_vec();
                    append_slice(&mut sub, term.as_slice());
                }
            },
            Kind::Chunked(ChunkedWrite::Busy(wb, owed, fin)) => {
                let flush_term = *owed == 0 && !*fin;
                append_remaining(&mut sub, wb);
                if flush_term {
                    term = terminator_vec();
                    append_slice(&mut sub, term.as_slice());
                }
            },
            Kind::Chunked(ChunkedWrite::Done) => {},
        }
        proof {
            assert(sub@ =~= v0.prefix_rem + spec_ctl(v0, msg@));
        }
        let ghost ctl_len = spec_ctl(v0, msg@).len() as int;

        let allowed: usize = match &self.kind {
            Kind::Length(rem) => if *rem < msg.len() as u64 {
                *rem as usize
            } else {
                msg.len()
            },
            Kind::Empty => 0,
            Kind::Chunked(ChunkedWrite::Init) => msg.len(),
            Kind::Chunked(ChunkedWrite::Busy(_, owed, _)) => if *owed < msg.len() as u64 {
                *owed as usize
            } else {
                msg.len()
            },
            Kind::Chunked(ChunkedWrite::Done) => 0,
        };
        let pay = vstd::slice::slice_subrange(msg, 0, allowed);
        proof {
            assert(pay@ =~= spec_allowed(v0, msg@));
        }
        append_slice(&mut sub, pay);

        let close_chunk: bool = match &self.kind {
            Kind::Chunked(ChunkedWrite::Init) => msg.len() > 0,
            Kind::Chunked(ChunkedWrite::Busy(_, owed, _)) => 0 < *owed && *owed
                <= msg.len() as u64,
            _ => false,
        };
        if close_chunk {
            sub.push(13u8);
            sub.push(10u8);
        }
        proof {
            assert(sub@ =~= spec_submission(v0, msg@));
        }

        // One atomic write of the whole submission.
        let outcome = w.write_atomic(sub.as_slice());
        let closed = matches!(outcome, WriteOutcome::Closed);
        let n: usize = match outcome {
            WriteOutcome::Accepted(k) => k,
            WriteOutcome::WouldBlock => 0,
            WriteOutcome::Closed => 0,
        };
        proof {
            assert(final(w).written() == old(w).written() + sub@.take(n as int));
            assert(sub@.take(0) =~= Seq::<u8>::empty());
        }

        let consumed = self.apply_accept(msg, n);

        let full = n == sub.len();
        let r = if closed {
            EncodeOutcome::Closed
        } else if consumed > 0 || (msg.len() == 0 && full) {
            EncodeOutcome::Wrote(consumed)
        } else {
            EncodeOutcome::WouldBlock
        };
        proof {
            assert(encode_rel(
                v0,
                msg@,
                old(w).written(),
                self@,
                final(w).written(),
                r,
                n as int,
            ));
        }
        r
    }

    /// Advances every cursor to account for the transport taking the
    /// first `n` bytes of this call's submission, and reports how many
    /// payload bytes that covered.
    #[verifier::rlimit(100)]
    fn apply_accept(&mut self, msg: &[u8], n: usize) -> (consumed: usize)
        requires
            old(self).wf(),
            !spec_write_zero(old(self)@, msg@.len() as int),
            n <= spec_submission(old(self)@, msg@).len(),
        ensures
            final(self).wf(),
            final(self)@ == spec_after(old(self)@, msg@, n as int),
            consumed == spec_consumed(old(self)@, msg@, n as int),
    {
        let ghost v0 = old(self)@;
        let pre_rem = self.prefix.bytes.len() - self.prefix.pos;
        let n_pre = if n < pre_rem {
            n
        } else {
            pre_rem
        };
        self.prefix.pos = self.prefix.pos + n_pre;
        let m = n - n_pre;

        let allowed: usize = match &self.kind {
            Kind::Length(rem) => if *rem < msg.len() as u64 {
                *rem as usize
            } else {
                msg.len()
            },
            Kind::Empty => 0,
            Kind::Chunked(ChunkedWrite::Init) => msg.len(),
            Kind::Chunked(ChunkedWrite::Busy(_, owed, _)) => if *owed < msg.len() as u64 {
                *owed as usize
            } else {
                msg.len()
            },
            Kind::Chunked(ChunkedWrite::Done) => 0,
        };

        let mut consumed: usize = 0;
        let new_kind: Kind = match &self.kind {
            Kind::Empty => Kind::Empty,
            Kind::Chunked(ChunkedWrite::Done) => Kind::Chunked(ChunkedWrite::Done),
            Kind::Length(rem) => {
                consumed = if m < allowed {
                    m
                } else {
                    allowed
                };
                Kind::Length(*rem - consumed as u64)
            },
            Kind::Chunked(ChunkedWrite::Init) => {
                if msg.len() > 0 {
                    let mut line = render_hex(msg.len());
                    line.push(13u8);
                    line.push(10u8);
                    proof {
                        assert(line@ =~= spec_hex(msg@.len() as int) + crlf());
                    }
                    let line_len = line.len();
                    let n_ctl = if m < line_len {
                        m
                    } else {
                        line_len
                    };
                    let after_ctl = m - n_ctl;
                    consumed = if after_ctl < msg.len() {
                        after_ctl
                    } else {
                        msg.len()
                    };
                    let after_pay = after_ctl - consumed;
                    let n_post = if after_pay < 2 {
                        after_pay
                    } else {
                        2
                    };
                    if m == 0 {
                        Kind::Chunked(ChunkedWrite::Init)
                    } else if consumed == msg.len() {
                        if n_post >= 2 {
                            Kind::Chunked(ChunkedWrite::Init)
                        } else {
                            Kind::Chunked(ChunkedWrite::Busy(
                                WriteBuf { bytes: crlf_vec(), pos: n_post },
                                0,
                                false,
                            ))
                        }
                    } else {
                        Kind::Chunked(ChunkedWrite::Busy(
                            WriteBuf { bytes: line, pos: n_ctl },
                            (msg.len() - consumed) as u64,
                            false,
                        ))
                    }
                } else {
                    let n_ctl = if m < 5 {
                        m
                    } else {
                        5
                    };
                    if n_ctl >= 5 {
                        Kind::Chunked(ChunkedWrite::Done)
                    } else if m == 0 {
                        Kind::Chunked(ChunkedWrite::Init)
                    } else {
                        Kind::Chunked(ChunkedWrite::Busy(
                            WriteBuf { bytes: terminator_vec(), pos: n_ctl },
                            0,
                            true,
                        ))
                    }
                }
            },
            Kind::Chunked(ChunkedWrite::Busy(wb, owed, fin)) => {
                let ctl_rem = wb.bytes.len() - wb.pos;
                if *owed > 0 {
                    let n_ctl = if m < ctl_rem {
                        m
                    } else {
                        ctl_rem
                    };
                    let after_ctl = m - n_ctl;
                    consumed = if after_ctl < allowed {
                        after_ctl
                    } else {
                        allowed
                    };
                    let after_pay = after_ctl - consumed;
                    let n_post = if after_pay < 2 {
                        after_pay
                    } else {
                        2
                    };
                    if consumed as u64 == *owed {
                        if n_post >= 2 {
                            Kind::Chunked(ChunkedWrite::Init)
                        } else {
                            Kind::Chunked(ChunkedWrite::Busy(
                                WriteBuf { bytes: crlf_vec(), pos: n_post },
                                0,
                                false,
                            ))
                        }
                    } else {
                        Kind::Chunked(ChunkedWrite::Busy(
                            WriteBuf {
                                bytes: crate::headers::copy_bytes(wb.bytes.as_slice()),
                                pos: wb.pos + n_ctl,
                            },
                            *owed - consumed as u64,
                            *fin,
                        ))
                    }
                } else if !*fin {
                    if m == 0 {
                        Kind::Chunked(ChunkedWrite::Busy(
                            WriteBuf {
                                bytes: crate::headers::copy_bytes(wb.bytes.as_slice()),
                                pos: wb.pos,
                            },
                            0,
                            false,
                        ))
                    } else if m <= ctl_rem {
                        if m == ctl_rem {
                            Kind::Chunked(ChunkedWrite::Init)
                        } else {
                            Kind::Chunked(ChunkedWrite::Busy(
                                WriteBuf {
                                    bytes: crate::headers::copy_bytes(wb.bytes.as_slice()),
                                    pos: wb.pos + m,
                                },
                                0,
                                false,
                            ))
                        }
                    } else {
                        let m2 = m - ctl_rem;
                        if m2 >= 5 {
                            Kind::Chunked(ChunkedWrite::Done)
                        } else {
                            Kind::Chunked(ChunkedWrite::Busy(
                                WriteBuf { bytes: terminator_vec(), pos: m2 },
                                0,
                                true,
                            ))
                        }
                    }
                } else {
                    let n_ctl = if m < ctl_rem {
                        m
                    } else {
                        ctl_rem
                    };
                    if n_ctl == ctl_rem {
                        Kind::Chunked(ChunkedWrite::Done)
                    } else {
                        Kind::Chunked(ChunkedWrite::Busy(
                            WriteBuf {
                                bytes: crate::headers::copy_bytes(wb.bytes.as_slice()),
                                pos: wb.pos + n_ctl,
                            },
                            0,
                            true,
                        ))
                    }
                }
            },
        };
        self.kind = new_kind;
        proof {
            assert(self@ =~= spec_after(v0, msg@, n as int));
        }
        consumed
    }
}

} // verus!
