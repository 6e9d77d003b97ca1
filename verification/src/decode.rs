//! Body decoders: the four framings a message body can arrive in, and
//! an incremental, never-blocking `decode` over each.

use vstd::prelude::*;
use crate::Error;

verus! {

/// Where a chunked decoder stands inside the chunk grammar
/// `size [;ext] CRLF data CRLF ... 0 CRLF [trailers CRLF] CRLF`.
#[derive(Clone, Copy, PartialEq, Eq, Structural, Debug)]
pub enum ChunkedState {
    /// Expecting the first hex digit of a chunk size.
    SizeFirst,
    /// Reading further hex digits of the size.
    Size,
    /// Skipping a chunk extension up to the line's CR.
    Extension,
    /// Saw the size line's CR, expecting its LF.
    SizeLf,
    /// Passing chunk data through; the count beside holds what remains.
    Body,
    /// Chunk data done, expecting CR.
    BodyCr,
    /// Expecting LF, after which the next size line starts.
    BodyLf,
    /// At the start of a line after the terminating zero-size chunk.
    Trailer,
    /// Inside a trailer line, skipping to its CR.
    TrailerLine,
    /// Saw a trailer line's CR, expecting its LF.
    TrailerLineLf,
    /// Saw the final blank line's CR, expecting the last LF.
    TrailerLf,
    /// The terminator is fully consumed.
    End,
}

/// A body reader. `decode` never blocks: it consumes what it can from
/// the bytes offered and reports how far it got.
#[derive(Clone, Copy, PartialEq, Eq, Structural, Debug)]
pub enum Decoder {
    /// The body ends after exactly this many more bytes.
    Length(u64),
    /// A chunked body; the counter holds the size being read or the
    /// data bytes remaining, depending on the state.
    Chunked(ChunkedState, u64),
    /// The body ends at transport EOF; the flag records whether EOF
    /// has been seen.
    CloseDelimited(bool),
    /// No body at all.
    Empty,
}

/// The value of an ASCII hex digit.
pub open spec fn hex_val(b: u8) -> Option<u8> {
    if 48 <= b && b <= 57 {
        Some((b - 48) as u8)
    } else if 97 <= b && b <= 102 {
        Some((b - 87) as u8)
    } else if 65 <= b && b <= 70 {
        Some((b - 55) as u8)
    } else {
        None
    }
}

impl Decoder {
    /// Whether the body is fully read.
    pub open spec fn spec_is_eof(self) -> bool {
        match self {
            Decoder::Length(n) => n == 0,
            Decoder::Chunked(st, _) => st is End,
            Decoder::CloseDelimited(eof) => eof,
            Decoder::Empty => true,
        }
    }

    /// Whether the body is fully read.
    pub fn is_eof(&self) -> (r: bool)
        ensures
            r == self.spec_is_eof(),
    {
        match self {
            Decoder::Length(n) => *n == 0,
            Decoder::Chunked(st, _) => matches!(st, ChunkedState::End),
            Decoder::CloseDelimited(eof) => *eof,
            Decoder::Empty => true,
        }
    }
}

/// One byte of decoding: the next decoder state and, for a data byte,
/// the byte passed through. `Err` is a malformed body.
pub open spec fn dstep(d: Decoder, b: u8) -> Result<(Decoder, Option<u8>), Error> {
    match d {
        Decoder::Length(n) => if n > 0 {
            Ok((Decoder::Length((n - 1) as u64), Some(b)))
        } else {
            Err(Error::Header)
        },
        Decoder::CloseDelimited(eof) => if !eof {
            Ok((Decoder::CloseDelimited(false), Some(b)))
        } else {
            Err(Error::Header)
        },
        Decoder::Empty => Err(Error::Header),
        Decoder::Chunked(st, n) => match st {
            ChunkedState::SizeFirst => match hex_val(b) {
                Some(d0) => Ok((Decoder::Chunked(ChunkedState::Size, d0 as u64), None)),
                None => Err(Error::Header),
            },
            ChunkedState::Size => match hex_val(b) {
                Some(d0) => if n <= (u64::MAX - d0 as u64) / 16 {
                    Ok((Decoder::Chunked(ChunkedState::Size, (n * 16 + d0) as u64), None))
                } else {
                    Err(Error::Header)
                },
                None => if b == 59 {
                    Ok((Decoder::Chunked(ChunkedState::Extension, n), None))
                } else if b == 13 {
                    Ok((Decoder::Chunked(ChunkedState::SizeLf, n), None))
                } else {
                    Err(Error::Header)
                },
            },
            ChunkedState::Extension => if b == 13 {
                Ok((Decoder::Chunked(ChunkedState::SizeLf, n), None))
            } else if b == 10 {
                Err(Error::Header)
            } else {
                Ok((Decoder::Chunked(ChunkedState::Extension, n), None))
            },
            ChunkedState::SizeLf => if b == 10 {
                if n == 0 {
                    Ok((Decoder::Chunked(ChunkedState::Trailer, 0), None))
                } else {
                    Ok((Decoder::Chunked(ChunkedState::Body, n), None))
                }
            } else {
                Err(Error::Header)
            },
            ChunkedState::Body => if n > 1 {
                Ok((Decoder::Chunked(ChunkedState::Body, (n - 1) as u64), Some(b)))
            } else if n == 1 {
                Ok((Decoder::Chunked(ChunkedState::BodyCr, 0), Some(b)))
            } else {
                Err(Error::Header)
            },
            ChunkedState::BodyCr => if b == 13 {
                Ok((Decoder::Chunked(ChunkedState::BodyLf, 0), None))
            } else {
                Err(Error::Header)
            },
            ChunkedState::BodyLf => if b == 10 {
                Ok((Decoder::Chunked(ChunkedState::SizeFirst, 0), None))
            } else {
                Err(Error::Header)
            },
            ChunkedState::Trailer => if b == 13 {
                Ok((Decoder::Chunked(ChunkedState::TrailerLf, 0), None))
            } else {
                Ok((Decoder::Chunked(ChunkedState::TrailerLine, 0), None))
            },
            ChunkedState::TrailerLine => if b == 13 {
                Ok((Decoder::Chunked(ChunkedState::TrailerLineLf, 0), None))
            } else {
                Ok((Decoder::Chunked(ChunkedState::TrailerLine, 0), None))
            },
            ChunkedState::TrailerLineLf => if b == 10 {
                Ok((Decoder::Chunked(ChunkedState::Trailer, 0), None))
            } else {
                Err(Error::Header)
            },
            ChunkedState::TrailerLf => if b == 10 {
                Ok((Decoder::Chunked(ChunkedState::End, 0), None))
            } else {
                Err(Error::Header)
            },
            ChunkedState::End => Err(Error::Header),
        },
    }
}

/// Runs the decoder over the offered bytes until it reaches the end of
/// the body, fails, or runs out of input. Yields the resulting decoder
/// (or the failure), the count of bytes consumed, and the data bytes
/// passed through, in order.
pub open spec fn spec_run(d: Decoder, src: Seq<u8>) -> (Result<Decoder, Error>, int, Seq<u8>)
    decreases src.len(),
{
    if d.spec_is_eof() || src.len() == 0 {
        (Ok(d), 0, Seq::empty())
    } else {
        match dstep(d, src[0]) {
            Err(e) => (Err(e), 0, Seq::empty()),
            Ok((d2, ob)) => {
                let (res, c, out) = spec_run(d2, src.skip(1));
                match ob {
                    Some(x) => (res, c + 1, seq![x] + out),
                    None => (res, c + 1, out),
                }
            },
        }
    }
}

/// What `decode` leaves behind: the run over the input, then the EOF
/// signal applied. A close-delimited body that consumed everything
/// becomes EOF; any other body still open at transport EOF is an error.
pub open spec fn spec_decode(d: Decoder, src: Seq<u8>, eof: bool) -> (
    Result<Decoder, Error>,
    int,
    Seq<u8>,
) {
    let (res, c, out) = spec_run(d, src);
    match res {
        Err(e) => (Err(e), c, out),
        Ok(d2) => if eof && c == src.len() && !d2.spec_is_eof() {
            match d2 {
                Decoder::CloseDelimited(_) => (Ok(Decoder::CloseDelimited(true)), c, out),
                _ => (Err(Error::Eof), c, out),
            }
        } else {
            (Ok(d2), c, out)
        },
    }
}

impl Decoder {
    /// Decodes as much of `src` as this body framing accepts, stopping
    /// at the end of the body. `eof` tells the decoder the transport
    /// saw EOF right after these bytes. Returns how many bytes of
    /// `src` were consumed and the data bytes produced; empty results
    /// with `is_eof` still false mean more input is needed.
    pub fn decode(&mut self, src: &[u8], eof: bool) -> (r: Result<(usize, Vec<u8>), Error>)
        ensures
            r matches Ok(p) ==> {
                &&& spec_decode(*old(self), src@, eof).0 == Ok::<Decoder, Error>(*final(self))
                &&& p.0 == spec_decode(*old(self), src@, eof).1
                &&& p.1@ == spec_decode(*old(self), src@, eof).2
                &&& p.0 <= src@.len()
            },
            r matches Err(e) ==> spec_decode(*old(self), src@, eof).0 == Err::<Decoder, Error>(e),
    {
        let ghost d0 = *self;
        let mut i: usize = 0;
        let mut out: Vec<u8> = Vec::new();
        proof {
            assert(src@.skip(0) =~= src@);
        }
        loop
            invariant
                i <= src@.len(),
                d0 == *old(self),
                spec_run(d0, src@).0 == spec_run(*self, src@.skip(i as int)).0,
                spec_run(d0, src@).1 == i + spec_run(*self, src@.skip(i as int)).1,
                spec_run(d0, src@).2 == out@ + spec_run(*self, src@.skip(i as int)).2,
            ensures
                i <= src@.len(),
                i >= src@.len() || self.spec_is_eof(),
            decreases src@.len() - i,
        {
            if i >= src.len() || self.is_eof() {
                break;
            }
            let b = src[i];
            proof {
                let rest = src@.skip(i as int);
                assert(rest.len() > 0);
                assert(rest[0] == src@[i as int]);
                assert(rest.skip(1) =~= src@.skip(i + 1));
            }
            let step = self.step_byte(b);
            match step {
                Err(e) => {
                    proof {
                        let rest = src@.skip(i as int);
                        assert(dstep(*self, rest[0]) == Err::<(Decoder, Option<u8>), Error>(e));
                        assert(spec_run(*self, rest).0 == Err::<Decoder, Error>(e));
                        assert(spec_run(d0, src@).0 == Err::<Decoder, Error>(e));
                        assert(spec_decode(d0, src@, eof).0 == Err::<Decoder, Error>(e));
                    }
                    return Err(e);
                },
                Ok(ob) => {
                    match ob {
                        Some(x) => {
                            out.push(x);
                            proof {
                                let rest2 = spec_run(*self, src@.skip(i + 1)).2;
                                assert(out@ + rest2 =~= out@.drop_last() + (seq![x] + rest2));
                            }
                        },
                        None => {},
                    }
                    i = i + 1;
                },
            }
        }
        proof {
            let rest = src@.skip(i as int);
            assert(self.spec_is_eof() || rest.len() == 0);
            assert(spec_run(*self, rest) == (Ok::<Decoder, Error>(*self), 0int, Seq::<u8>::empty()));
            assert(spec_run(d0, src@).2 =~= out@);
        }
        if eof && i == src.len() && !self.is_eof() {
            match self {
                Decoder::CloseDelimited(seen) => {
                    *seen = true;
                    return Ok((i, out));
                },
                _ => {
                    return Err(Error::Eof);
                },
            }
        }
        Ok((i, out))
    }

    /// Advances the decoder by one input byte.
    fn step_byte(&mut self, b: u8) -> (r: Result<Option<u8>, Error>)
        requires
            !old(self).spec_is_eof(),
        ensures
            match r {
                Ok(ob) => dstep(*old(self), b) == Ok::<(Decoder, Option<u8>), Error>(
                    (*final(self), ob),
                ),
                Err(e) => dstep(*old(self), b) == Err::<(Decoder, Option<u8>), Error>(e)
                    && *final(self) == *old(self),
            },
    {
        match step_calc(*self, b) {
            Ok((d2, ob)) => {
                *self = d2;
                Ok(ob)
            },
            Err(e) => Err(e),
        }
    }
}

/// Computes one decoding step as a value.
fn step_calc(d: Decoder, b: u8) -> (r: Result<(Decoder, Option<u8>), Error>)
    requires
        !d.spec_is_eof(),
    ensures
        r == dstep(d, b),
{
    match d {
        Decoder::Length(n) => Ok((Decoder::Length(n - 1), Some(b))),
        Decoder::CloseDelimited(_) => Ok((Decoder::CloseDelimited(false), Some(b))),
        Decoder::Empty => Err(Error::Header),
        Decoder::Chunked(st, n) => match st {
            ChunkedState::SizeFirst => match hex_digit(b) {
                Some(d0) => Ok((Decoder::Chunked(ChunkedState::Size, d0 as u64), None)),
                None => Err(Error::Header),
            },
            ChunkedState::Size => match hex_digit(b) {
                Some(d0) => {
                    if n <= (u64::MAX - d0 as u64) / 16 {
                        proof {
                            assert((u64::MAX - d0 as u64) / 16 * 16 + (u64::MAX - d0 as u64) % 16
                                == u64::MAX - d0 as u64);
                            assert(n * 16 <= (u64::MAX - d0 as u64) / 16 * 16);
                        }
                        Ok((Decoder::Chunked(ChunkedState::Size, n * 16 + d0 as u64), None))
                    } else {
                        Err(Error::Header)
                    }
                },
                None => {
                    if b == 59 {
                        Ok((Decoder::Chunked(ChunkedState::Extension, n), None))
                    } else if b == 13 {
                        Ok((Decoder::Chunked(ChunkedState::SizeLf, n), None))
                    } else {
                        Err(Error::Header)
                    }
                },
            },
            ChunkedState::Extension => {
                if b == 13 {
                    Ok((Decoder::Chunked(ChunkedState::SizeLf, n), None))
                } else if b == 10 {
                    Err(Error::Header)
                } else {
                    Ok((Decoder::Chunked(ChunkedState::Extension, n), None))
                }
            },
            ChunkedState::SizeLf => {
                if b == 10 {
                    if n == 0 {
                        Ok((Decoder::Chunked(ChunkedState::Trailer, 0), None))
                    } else {
                        Ok((Decoder::Chunked(ChunkedState::Body, n), None))
                    }
                } else {
                    Err(Error::Header)
                }
            },
            ChunkedState::Body => {
                if n > 1 {
                    Ok((Decoder::Chunked(ChunkedState::Body, n - 1), Some(b)))
                } else if n == 1 {
                    Ok((Decoder::Chunked(ChunkedState::BodyCr, 0), Some(b)))
                } else {
                    Err(Error::Header)
                }
            },
            ChunkedState::BodyCr => {
                if b == 13 {
                    Ok((Decoder::Chunked(ChunkedState::BodyLf, 0), None))
                } else {
                    Err(Error::Header)
                }
            },
            ChunkedState::BodyLf => {
                if b == 10 {
                    Ok((Decoder::Chunked(ChunkedState::SizeFirst, 0), None))
                } else {
                    Err(Error::Header)
                }
            },
            ChunkedState::Trailer => {
                if b == 13 {
                    Ok((Decoder::Chunked(ChunkedState::TrailerLf, 0), None))
                } else {
                    Ok((Decoder::Chunked(ChunkedState::TrailerLine, 0), None))
                }
            },
            ChunkedState::TrailerLine => {
                if b == 13 {
                    Ok((Decoder::Chunked(ChunkedState::TrailerLineLf, 0), None))
                } else {
                    Ok((Decoder::Chunked(ChunkedState::TrailerLine, 0), None))
                }
            },
            ChunkedState::TrailerLineLf => {
                if b == 10 {
                    Ok((Decoder::Chunked(ChunkedState::Trailer, 0), None))
                } else {
                    Err(Error::Header)
                }
            },
            ChunkedState::TrailerLf => {
                if b == 10 {
                    Ok((Decoder::Chunked(ChunkedState::End, 0), None))
                } else {
                    Err(Error::Header)
                }
            },
            ChunkedState::End => Err(Error::Header),
        },
    }
}

/// A decoder offered no bytes and no EOF signal neither consumes,
/// produces, errs, nor moves: blocked transports preserve state.
pub proof fn lemma_decode_blocked_keeps_state(d: Decoder)
    ensures
        spec_decode(d, Seq::empty(), false) == (
            Ok::<Decoder, Error>(d),
            0int,
            Seq::<u8>::empty(),
        ),
{
}

/// A decoder given nothing does nothing.
pub proof fn lemma_run_empty(d: Decoder)
    ensures
        spec_run(d, Seq::empty()) == (Ok::<Decoder, Error>(d), 0int, Seq::<u8>::empty()),
{
}

/// One successful step over a single byte.
pub proof fn lemma_run_one(d: Decoder, b: u8)
    requires
        !d.spec_is_eof(),
    ensures
        match dstep(d, b) {
            Ok((d2, ob)) => spec_run(d, seq![b]) == (
                Ok::<Decoder, Error>(d2),
                1int,
                match ob {
                    Some(x) => seq![x],
                    None => Seq::<u8>::empty(),
                },
            ),
            Err(e) => spec_run(d, seq![b]) == (
                Err::<Decoder, Error>(e),
                0int,
                Seq::<u8>::empty(),
            ),
        },
{
    let s = seq![b];
    assert(s[0] == b);
    assert(s.skip(1) =~= Seq::<u8>::empty());
    match dstep(d, b) {
        Ok((d2, ob)) => {
            lemma_run_empty(d2);
            match ob {
                Some(x) => {
                    assert(seq![x] + Seq::<u8>::empty() =~= seq![x]);
                },
                None => {},
            }
        },
        Err(_) => {},
    }
}

/// Running a decoder over a concatenation runs it over each part in
/// turn, provided the first part is consumed whole.
pub proof fn lemma_run_append(d: Decoder, s1: Seq<u8>, s2: Seq<u8>)
    requires
        spec_run(d, s1).0 matches Ok(d2),
        spec_run(d, s1).1 == s1.len(),
    ensures
        spec_run(d, s1 + s2) == (
            spec_run(spec_run(d, s1).0.unwrap(), s2).0,
            s1.len() + spec_run(spec_run(d, s1).0.unwrap(), s2).1,
            spec_run(d, s1).2 + spec_run(spec_run(d, s1).0.unwrap(), s2).2,
        ),
    decreases s1.len(),
{
    let d2 = spec_run(d, s1).0.unwrap();
    if d.spec_is_eof() || s1.len() == 0 {
        assert(s1.len() == 0);
        assert(d2 == d);
        assert(s1 + s2 =~= s2);
        assert(spec_run(d, s1).2 + spec_run(d2, s2).2 =~= spec_run(d2, s2).2);
    } else {
        let both = s1 + s2;
        assert(both[0] == s1[0]);
        match dstep(d, s1[0]) {
            Err(_) => {
                assert(false);
            },
            Ok((dn, ob)) => {
                assert(spec_run(dn, s1.skip(1)).1 == s1.len() - 1);
                lemma_run_append(dn, s1.skip(1), s2);
                assert(both.skip(1) =~= s1.skip(1) + s2);
                match ob {
                    Some(x) => {
                        assert(seq![x] + (spec_run(dn, s1.skip(1)).2 + spec_run(d2, s2).2) =~= (
                        seq![x] + spec_run(dn, s1.skip(1)).2) + spec_run(d2, s2).2);
                    },
                    None => {},
                }
            },
        }
    }
}

/// Feeding the hex rendering of a size into a fresh size line leaves
/// the decoder holding exactly that size.
pub proof fn lemma_run_hex(n: int)
    requires
        0 <= n <= u64::MAX,
    ensures
        spec_run(
            Decoder::Chunked(ChunkedState::SizeFirst, 0),
            crate::encode::spec_hex(n),
        ) == (
            Ok::<Decoder, Error>(Decoder::Chunked(ChunkedState::Size, n as u64)),
            crate::encode::spec_hex(n).len() as int,
            Seq::<u8>::empty(),
        ),
    decreases n,
{
    let h = crate::encode::spec_hex(n);
    if n < 16 {
        let b = crate::encode::hex_digit_char(n);
        assert(hex_val(b) == Some(n as u8));
        assert(h =~= seq![b]);
        assert(dstep(Decoder::Chunked(ChunkedState::SizeFirst, 0), b) == Ok::<
            (Decoder, Option<u8>),
            Error,
        >((Decoder::Chunked(ChunkedState::Size, n as u64), None)));
        lemma_run_one(Decoder::Chunked(ChunkedState::SizeFirst, 0), b);
    } else {
        lemma_run_hex(n / 16);
        let d = crate::encode::hex_digit_char(n % 16);
        assert(hex_val(d) == Some((n % 16) as u8));
        assert(h == crate::encode::spec_hex(n / 16) + seq![d]);
        lemma_run_append(
            Decoder::Chunked(ChunkedState::SizeFirst, 0),
            crate::encode::spec_hex(n / 16),
            seq![d],
        );
        let a = (n / 16) as u64;
        assert(a <= (u64::MAX - (n % 16) as u64) / 16 && a * 16 + (n % 16) == n)
            by (nonlinear_arith)
            requires
                16 <= n <= u64::MAX && a == (n / 16) as u64,
        ;
        assert(dstep(Decoder::Chunked(ChunkedState::Size, a), d) == Ok::<
            (Decoder, Option<u8>),
            Error,
        >((Decoder::Chunked(ChunkedState::Size, n as u64), None)));
        lemma_run_one(Decoder::Chunked(ChunkedState::Size, a), d);
    }
}

/// Feeding a chunk's data bytes passes them through unchanged and
/// leaves the decoder expecting the chunk's closing CRLF.
pub proof fn lemma_run_body(p: Seq<u8>)
    requires
        0 < p.len() <= u64::MAX,
    ensures
        spec_run(Decoder::Chunked(ChunkedState::Body, p.len() as u64), p) == (
            Ok::<Decoder, Error>(Decoder::Chunked(ChunkedState::BodyCr, 0)),
            p.len() as int,
            p,
        ),
    decreases p.len(),
{
    let d = Decoder::Chunked(ChunkedState::Body, p.len() as u64);
    if p.len() == 1 {
        lemma_run_one(d, p[0]);
        assert(seq![p[0]] =~= p);
        assert(spec_run(d, seq![p[0]]) == spec_run(d, p));
    } else {
        lemma_run_body(p.skip(1));
        assert(p.skip(1).len() == p.len() - 1);
        assert(seq![p[0]] + p.skip(1) =~= p);
    }
}

/// The wire form of one non-empty chunk.
pub open spec fn chunk_encoding(p: Seq<u8>) -> Seq<u8> {
    crate::encode::spec_hex(p.len() as int) + crate::encode::crlf() + p + crate::encode::crlf()
}

/// Decoding one encoded chunk yields exactly its payload and returns
/// the decoder to the start of the next size line.
pub proof fn lemma_chunk_round_trip(p: Seq<u8>)
    requires
        0 < p.len() <= u64::MAX,
    ensures
        spec_run(Decoder::Chunked(ChunkedState::SizeFirst, 0), chunk_encoding(p)) == (
            Ok::<Decoder, Error>(Decoder::Chunked(ChunkedState::SizeFirst, 0)),
            chunk_encoding(p).len() as int,
            p,
        ),
{
    let n = p.len() as int;
    let h = crate::encode::spec_hex(n);
    let k = p.len() as u64;
    lemma_run_hex(n);
    // The size line's CRLF.
    let cr = seq![13u8];
    let lf = seq![10u8];
    lemma_run_one(Decoder::Chunked(ChunkedState::Size, k), 13u8);
    lemma_run_one(Decoder::Chunked(ChunkedState::SizeLf, k), 10u8);
    lemma_run_one(Decoder::Chunked(ChunkedState::BodyCr, 0), 13u8);
    lemma_run_one(Decoder::Chunked(ChunkedState::BodyLf, 0), 10u8);
    assert(spec_run(Decoder::Chunked(ChunkedState::Size, k), cr) == (
        Ok::<Decoder, Error>(Decoder::Chunked(ChunkedState::SizeLf, k)),
        1int,
        Seq::<u8>::empty(),
    ));
    assert(spec_run(Decoder::Chunked(ChunkedState::SizeLf, k), lf) == (
        Ok::<Decoder, Error>(Decoder::Chunked(ChunkedState::Body, k)),
        1int,
        Seq::<u8>::empty(),
    ));
    lemma_run_body(p);
    assert(spec_run(Decoder::Chunked(ChunkedState::BodyCr, 0), cr) == (
        Ok::<Decoder, Error>(Decoder::Chunked(ChunkedState::BodyLf, 0)),
        1int,
        Seq::<u8>::empty(),
    ));
    assert(spec_run(Decoder::Chunked(ChunkedState::BodyLf, 0), lf) == (
        Ok::<Decoder, Error>(Decoder::Chunked(ChunkedState::SizeFirst, 0)),
        1int,
        Seq::<u8>::empty(),
    ));
    let d0 = Decoder::Chunked(ChunkedState::SizeFirst, 0);
    lemma_run_append(d0, h, cr);
    lemma_run_append(d0, h + cr, lf);
    assert(h + cr + lf =~= (h + cr) + lf);
    lemma_run_append(d0, h + cr + lf, p);
    lemma_run_append(d0, h + cr + lf + p, cr);
    lemma_run_append(d0, h + cr + lf + p + cr, lf);
    assert(chunk_encoding(p) =~= h + cr + lf + p + cr + lf);
    assert(spec_run(d0, chunk_encoding(p)).2 =~= p);
}

/// Decoding the terminator from the start of a size line ends the
/// body cleanly with nothing produced.
pub proof fn lemma_terminator_round_trip()
    ensures
        spec_run(Decoder::Chunked(ChunkedState::SizeFirst, 0), crate::encode::terminator()) == (
            Ok::<Decoder, Error>(Decoder::Chunked(ChunkedState::End, 0)),
            5int,
            Seq::<u8>::empty(),
        ),
{
    let t = crate::encode::terminator();
    let d0 = Decoder::Chunked(ChunkedState::SizeFirst, 0);
    assert(hex_val(48) == Some(0u8));
    lemma_run_one(d0, 48u8);
    lemma_run_one(Decoder::Chunked(ChunkedState::Size, 0), 13u8);
    lemma_run_one(Decoder::Chunked(ChunkedState::SizeLf, 0), 10u8);
    lemma_run_one(Decoder::Chunked(ChunkedState::Trailer, 0), 13u8);
    lemma_run_one(Decoder::Chunked(ChunkedState::TrailerLf, 0), 10u8);
    let p1 = seq![48u8];
    let p2 = seq![13u8];
    let p3 = seq![10u8];
    lemma_run_append(d0, p1, p2);
    lemma_run_append(d0, p1 + p2, p3);
    assert(p1 + p2 + p3 =~= (p1 + p2) + p3);
    lemma_run_append(d0, p1 + p2 + p3, p2);
    lemma_run_append(d0, p1 + p2 + p3 + p2, p3);
    assert(t =~= p1 + p2 + p3 + p2 + p3);
    assert(spec_run(d0, t).2 =~= Seq::<u8>::empty());
}

/// A fresh chunked encoder's one-call submission is exactly one
/// encoded chunk, or the terminator for the zero-length write.
pub proof fn lemma_encoder_emits_chunks(v: crate::encode::EncView, msg: Seq<u8>)
    requires
        v.prefix_rem.len() == 0,
        v.kind == crate::encode::KindView::Chunked(crate::encode::CwView::Init),
    ensures
        msg.len() > 0 ==> crate::encode::spec_submission(v, msg) == chunk_encoding(msg),
        msg.len() == 0 ==> crate::encode::spec_submission(v, msg) == crate::encode::terminator(),
{
    if msg.len() > 0 {
        assert(crate::encode::spec_submission(v, msg) =~= chunk_encoding(msg));
    } else {
        assert(crate::encode::spec_submission(v, msg) =~= crate::encode::terminator());
    }
}

/// The whole wire stream the encoder produces for a run of payload
/// writes followed by the terminating zero-length write.
pub open spec fn chunk_stream(ps: Seq<Seq<u8>>) -> Seq<u8>
    decreases ps.len(),
{
    if ps.len() == 0 {
        crate::encode::terminator()
    } else {
        chunk_encoding(ps[0]) + chunk_stream(ps.skip(1))
    }
}

/// The payloads of a run of writes, in order.
pub open spec fn concat_all(ps: Seq<Seq<u8>>) -> Seq<u8>
    decreases ps.len(),
{
    if ps.len() == 0 {
        Seq::empty()
    } else {
        ps[0] + concat_all(ps.skip(1))
    }
}

/// The chunked round trip: for every run of non-empty payload writes,
/// decoding the encoder's whole output yields exactly the payloads,
/// in order, and ends the body.
pub proof fn lemma_chunked_stream_round_trip(ps: Seq<Seq<u8>>)
    requires
        forall|i: int| 0 <= i < ps.len() ==> 0 < (#[trigger] ps[i]).len() <= u64::MAX,
    ensures
        spec_run(Decoder::Chunked(ChunkedState::SizeFirst, 0), chunk_stream(ps)) == (
            Ok::<Decoder, Error>(Decoder::Chunked(ChunkedState::End, 0)),
            chunk_stream(ps).len() as int,
            concat_all(ps),
        ),
    decreases ps.len(),
{
    let d0 = Decoder::Chunked(ChunkedState::SizeFirst, 0);
    if ps.len() == 0 {
        lemma_terminator_round_trip();
    } else {
        lemma_chunk_round_trip(ps[0]);
        assert(forall|i: int|
            0 <= i < ps.skip(1).len() ==> 0 < (#[trigger] ps.skip(1)[i]).len() <= u64::MAX) by {
            assert(forall|i: int|
                0 <= i < ps.skip(1).len() ==> #[trigger] ps.skip(1)[i] == ps[i + 1]);
        }
        lemma_chunked_stream_round_trip(ps.skip(1));
        lemma_run_append(d0, chunk_encoding(ps[0]), chunk_stream(ps.skip(1)));
    }
}

/// Reads one hex digit.
fn hex_digit(b: u8) -> (r: Option<u8>)
    ensures
        r == hex_val(b),
{
    if 48 <= b && b <= 57 {
        Some(b - 48)
    } else if 97 <= b && b <= 102 {
        Some(b - 87)
    } else if 65 <= b && b <= 70 {
        Some(b - 55)
    } else {
        None
    }
}

} // verus!
