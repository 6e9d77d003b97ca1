//! The inbound byte buffer: bytes read from the transport that the head
//! parser and body decoder have not consumed yet.

use vstd::prelude::*;

verus! {

/// The hard cap on buffered head bytes: a head still incomplete at this
/// size fails with `TooLarge`.
pub const MAX_BUFFER_SIZE: usize = 8192 + 4096 * 100;

/// A growable byte buffer consumed from the front.
///
/// Bytes past what one exchange consumes stay in place and become the
/// first bytes of the next exchange.
pub struct Buffer {
    data: Vec<u8>,
}

impl Buffer {
    /// The unconsumed bytes, oldest first.
    pub closed spec fn view(&self) -> Seq<u8> {
        self.data@
    }

    /// An empty buffer.
    pub fn new() -> (r: Buffer)
        ensures
            r@ == Seq::<u8>::empty(),
    {
        Buffer { data: Vec::new() }
    }

    /// The number of unconsumed bytes.
    pub fn len(&self) -> (r: usize)
        ensures
            r == self@.len(),
    {
        self.data.len()
    }

    /// True when no bytes wait to be consumed.
    pub fn is_empty(&self) -> (r: bool)
        ensures
            r == (self@.len() == 0),
    {
        self.data.len() == 0
    }

    /// The byte at position `i`.
    pub fn byte_at(&self, i: usize) -> (r: u8)
        requires
            i < self@.len(),
        ensures
            r == self@[i as int],
    {
        self.data[i]
    }

    /// A copy of the unconsumed bytes.
    pub fn bytes(&self) -> (r: Vec<u8>)
        ensures
            r@ == self@,
    {
        let mut out: Vec<u8> = Vec::new();
        let mut i: usize = 0;
        while i < self.data.len()
            invariant
                i <= self.data@.len(),
                out@ == self.data@.take(i as int),
            decreases self.data@.len() - i,
        {
            out.push(self.data[i]);
            i = i + 1;
            proof {
                assert(out@ =~= self.data@.take(i as int));
            }
        }
        proof {
            assert(out@ =~= self.data@);
        }
        out
    }

    /// Appends bytes read from the transport.
    pub fn append(&mut self, input: &[u8])
        requires
            old(self)@.len() + input@.len() <= usize::MAX,
        ensures
            final(self)@ == old(self)@ + input@,
    {
        let mut i: usize = 0;
        while i < input.len()
            invariant
                i <= input@.len(),
                self.data@ == old(self).data@ + input@.take(i as int),
            decreases input@.len() - i,
        {
            self.data.push(input[i]);
            i = i + 1;
            proof {
                assert(self.data@ =~= old(self).data@ + input@.take(i as int));
            }
        }
        proof {
            assert(self.data@ =~= old(self).data@ + input@);
        }
    }

    /// Drops the first `n` bytes; the rest keep their order.
    pub fn consume(&mut self, n: usize)
        requires
            n <= old(self)@.len(),
        ensures
            final(self)@ == old(self)@.skip(n as int),
    {
        let mut rest: Vec<u8> = Vec::new();
        let mut i: usize = n;
        while i < self.data.len()
            invariant
                n <= i <= self.data@.len(),
                self.data@ == old(self).data@,
                rest@ == self.data@.subrange(n as int, i as int),
            decreases self.data@.len() - i,
        {
            rest.push(self.data[i]);
            i = i + 1;
            proof {
                assert(rest@ =~= self.data@.subrange(n as int, i as int));
            }
        }
        proof {
            assert(rest@ =~= old(self).data@.skip(n as int));
        }
        self.data = rest;
    }
}

} // verus!
