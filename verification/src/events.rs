//! Small reusable event helpers: a one-shot body read and an
//! all-or-suspend head write, with the callback traits they serve.

use vstd::prelude::*;
use crate::Error;
use crate::buffer::Buffer;
use crate::conn::BodyOutcome;
use crate::conn::read_body;
use crate::decode::Decoder;
use crate::encode::AtomicWrite;
use crate::encode::WriteOutcome;

verus! {

/// A callback run when body bytes can be read.
pub trait Read {
    fn on_read(&mut self, decoder: &mut Decoder, buf: &mut Buffer, eof: bool);
}

/// A callback run when the transport can be written.
pub trait Write<T: AtomicWrite> {
    fn on_write(&mut self, body: &mut T);
}

/// A consumer of decoded body data.
pub trait Data {
    fn on_data(&mut self, data: &[u8]);

    fn on_error(&mut self, err: Error);

    fn on_eof(&mut self);
}

/// Captures the outcome of a single body read.
pub struct ReadOnce {
    data: Option<Vec<u8>>,
}

impl ReadOnce {
    /// What the one read produced, if it has happened and bore data.
    pub closed spec fn taken(&self) -> Option<Seq<u8>> {
        match self.data {
            Some(v) => Some(v@),
            None => None,
        }
    }

    /// A fresh capture, holding nothing.
    pub fn new() -> (r: ReadOnce)
        ensures
            r.taken() is None,
    {
        ReadOnce { data: None }
    }

    /// Hands out what was captured.
    pub fn take(&mut self) -> (r: Option<Vec<u8>>)
        ensures
            final(self).taken() is None,
            match r {
                Some(v) => old(self).taken() == Some(v@),
                None => old(self).taken() is None,
            },
    {
        let mut out: Option<Vec<u8>> = None;
        core::mem::swap(&mut self.data, &mut out);
        out
    }
}

impl Read for ReadOnce {
    /// Reads the body once and keeps whatever data came out.
    fn on_read(&mut self, decoder: &mut Decoder, buf: &mut Buffer, eof: bool) {
        match read_body(decoder, buf, eof) {
            BodyOutcome::Data(out) => {
                self.data = Some(out);
            },
            _ => {},
        }
    }
}

/// Writes one byte buffer out, tracking how far it got across calls.
pub struct WriteAll {
    buf: Vec<u8>,
    pos: usize,
}

impl WriteAll {
    /// The bytes not yet accepted by the transport.
    pub closed spec fn remaining(&self) -> Seq<u8> {
        self.buf@.skip(self.pos as int)
    }

    pub closed spec fn wf(&self) -> bool {
        self.pos <= self.buf@.len()
    }

    /// Wraps the bytes to write.
    pub fn new(buf: Vec<u8>) -> (r: WriteAll)
        ensures
            r.wf(),
            r.remaining() == buf@,
    {
        let r = WriteAll { buf, pos: 0 };
        proof {
            assert(r.buf@.skip(0) =~= r.buf@);
        }
        r
    }

    /// Whether everything was accepted.
    pub fn is_done(&self) -> (r: bool)
        requires
            self.wf(),
        ensures
            r == (self.remaining().len() == 0),
    {
        self.pos >= self.buf.len()
    }

    /// Offers the remainder to the transport; the cursor advances by
    /// exactly what the transport took.
    pub fn write_step<T: AtomicWrite>(&mut self, body: &mut T) -> (r: WriteOutcome)
        requires
            old(self).wf(),
        ensures
            final(self).wf(),
            match r {
                WriteOutcome::Accepted(n) => n <= old(self).remaining().len() && final(self).remaining() == old(self).remaining().skip(n as int) && final(body).written()
                    == old(body).written() + old(self).remaining().take(n as int),
                WriteOutcome::WouldBlock => final(self).remaining() == old(self).remaining()
                    && final(body).written() == old(body).written(),
                WriteOutcome::Closed => final(self).remaining() == old(self).remaining() && final(body).written() == old(body).written(),
            },
    {
        let part = vstd::slice::slice_subrange(self.buf.as_slice(), self.pos, self.buf.len());
        proof {
            assert(part@ =~= self.remaining());
        }
        let r = body.write_atomic(part);
        match r {
            WriteOutcome::Accepted(n) => {
                self.pos = self.pos + n;
                proof {
                    assert(self.buf@.skip(self.pos as int) =~= old(self).remaining().skip(n as int));
                }
                WriteOutcome::Accepted(n)
            },
            other => other,
        }
    }
}

impl<T: AtomicWrite> Write<T> for WriteAll {
    /// Offers the remainder once; partial progress is kept.
    fn on_write(&mut self, body: &mut T) {
        if self.pos <= self.buf.len() {
            let _ = self.write_step(body);
        }
    }
}

} // verus!
