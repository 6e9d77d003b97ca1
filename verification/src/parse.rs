//! The incremental head parser: request lines, status lines and header
//! blocks, each specified byte-exactly against the wire grammar.

use vstd::prelude::*;
use crate::Error;
use crate::headers::Headers;
use crate::headers::find_from;
use crate::headers::find_byte;
use crate::headers::trim_ows;
use crate::headers::trimmed_range;
use crate::headers::copy_bytes;
use crate::http::MessageHead;
use crate::http::RequestLine;
use crate::method::Method;
use crate::method::parse_method;
use crate::status::RawStatus;
use crate::version::HttpVersion;

verus! {

/// The most header lines a head may carry.
pub const MAX_HEADERS: usize = 100;

/// The abstract content of a request head.
#[verifier::ext_equal]
pub struct ReqHeadView {
    pub version: HttpVersion,
    pub method: Seq<u8>,
    pub target: Seq<u8>,
    pub headers: Seq<(Seq<u8>, Seq<u8>)>,
}

/// The abstract content of a response head.
#[verifier::ext_equal]
pub struct RespHeadView {
    pub version: HttpVersion,
    pub code: int,
    pub reason: Seq<u8>,
    pub headers: Seq<(Seq<u8>, Seq<u8>)>,
}

/// The abstract content of a parsed request head value.
pub open spec fn req_view(h: MessageHead<RequestLine>) -> ReqHeadView {
    ReqHeadView {
        version: h.version,
        method: h.subject.0.spec_bytes(),
        target: h.subject.1@,
        headers: h.headers@,
    }
}

/// The abstract content of a parsed response head value.
pub open spec fn resp_view(h: MessageHead<RawStatus>) -> RespHeadView {
    RespHeadView {
        version: h.version,
        code: h.subject.0 as int,
        reason: h.subject.1@,
        headers: h.headers@,
    }
}

/// One CRLF-terminated line starting at `from`: not there yet, badly
/// terminated (CR without LF), or the line with the offset after it.
pub enum LineOut {
    Pending,
    Bad,
    Line(Seq<u8>, int),
}

/// The next line of `s` at `from`. A CR inside a head always ends a
/// line and must be followed by LF.
pub open spec fn line_at(s: Seq<u8>, from: int) -> LineOut {
    match find_from(s, 13, from) {
        None => LineOut::Pending,
        Some(cr) => if cr + 1 >= s.len() {
            LineOut::Pending
        } else if s[cr + 1] != 10 {
            LineOut::Bad
        } else if from <= cr {
            LineOut::Line(s.subrange(from, cr), cr + 2)
        } else {
            LineOut::Bad
        },
    }
}

/// A printable ASCII byte: what methods, targets and header names are
/// made of.
pub open spec fn head_byte_ok(b: u8) -> bool {
    33 <= b && b <= 126
}

/// A non-empty run of printable bytes.
pub open spec fn part_ok(s: Seq<u8>) -> bool {
    s.len() > 0 && forall|i: int| 0 <= i < s.len() ==> head_byte_ok(s[i])
}

/// A valid header name: printable, non-empty, and free of colons.
pub open spec fn name_ok(s: Seq<u8>) -> bool {
    s.len() > 0 && forall|i: int| 0 <= i < s.len() ==> head_byte_ok(s[i]) && s[i] != 58
}

/// The version a wire token denotes.
pub open spec fn spec_version_of(s: Seq<u8>) -> Option<HttpVersion> {
    if s == HttpVersion::Http11.spec_bytes() {
        Some(HttpVersion::Http11)
    } else if s == HttpVersion::Http10.spec_bytes() {
        Some(HttpVersion::Http10)
    } else {
        None
    }
}

/// Splits one header line into its name and its value, the value
/// trimmed of optional whitespace.
pub open spec fn parse_header_line(line: Seq<u8>) -> Option<(Seq<u8>, Seq<u8>)> {
    match find_from(line, 58, 0) {
        None => None,
        Some(c) => if 0 < c <= line.len() {
            let name = line.subrange(0, c);
            if name_ok(name) {
                Some((name, trim_ows(line.subrange(c + 1, line.len() as int))))
            } else {
                None
            }
        } else {
            None
        },
    }
}

/// The outcome of parsing a header block.
#[verifier::ext_equal]
pub enum HeadersOut {
    Pending,
    Bad(Error),
    Done(Seq<(Seq<u8>, Seq<u8>)>, int),
}

/// Parses header lines from `from` up to and including the blank line,
/// given that `count` lines came before. Stops at `MAX_HEADERS`.
pub open spec fn spec_parse_headers(s: Seq<u8>, from: int, count: int) -> HeadersOut
    decreases s.len() - from,
{
    match line_at(s, from) {
        LineOut::Pending => HeadersOut::Pending,
        LineOut::Bad => HeadersOut::Bad(Error::Header),
        LineOut::Line(line, next) => if line.len() == 0 {
            HeadersOut::Done(Seq::empty(), next)
        } else if count >= MAX_HEADERS {
            HeadersOut::Bad(Error::TooLarge)
        } else if from < next <= s.len() {
            match parse_header_line(line) {
                None => HeadersOut::Bad(Error::Header),
                Some(p) => match spec_parse_headers(s, next, count + 1) {
                    HeadersOut::Pending => HeadersOut::Pending,
                    HeadersOut::Bad(e) => HeadersOut::Bad(e),
                    HeadersOut::Done(rest, end) => HeadersOut::Done(seq![p] + rest, end),
                },
            }
        } else {
            HeadersOut::Bad(Error::Header)
        },
    }
}

/// Splits a request line `METHOD SP TARGET SP VERSION`.
pub open spec fn spec_parse_request_line(line: Seq<u8>) -> Result<
    (Seq<u8>, Seq<u8>, HttpVersion),
    Error,
> {
    match find_from(line, 32, 0) {
        None => Err(Error::Method),
        Some(sp1) => if 0 < sp1 < line.len() && part_ok(line.subrange(0, sp1)) {
            match find_from(line, 32, sp1 + 1) {
                None => Err(Error::Uri),
                Some(sp2) => if sp1 + 1 < sp2 <= line.len() && part_ok(
                    line.subrange(sp1 + 1, sp2),
                ) {
                    match spec_version_of(line.subrange(sp2 + 1, line.len() as int)) {
                        None => Err(Error::Version),
                        Some(v) => Ok((line.subrange(0, sp1), line.subrange(sp1 + 1, sp2), v)),
                    }
                } else {
                    Err(Error::Uri)
                },
            }
        } else {
            Err(Error::Method)
        },
    }
}

/// Splits a status line `VERSION SP 3DIGITS [SP REASON]`.
pub open spec fn spec_parse_status_line(line: Seq<u8>) -> Result<
    (HttpVersion, int, Seq<u8>),
    Error,
> {
    if line.len() < 12 {
        Err(Error::Version)
    } else {
        match spec_version_of(line.subrange(0, 8)) {
            None => Err(Error::Version),
            Some(v) => if line[8] != 32 {
                Err(Error::Version)
            } else if !(crate::headers::is_digit(line[9]) && crate::headers::is_digit(line[10])
                && crate::headers::is_digit(line[11])) {
                Err(Error::Status)
            } else {
                let code = (line[9] - 48) * 100 + (line[10] - 48) * 10 + (line[11] - 48);
                if line.len() == 12 {
                    Ok((v, code, Seq::empty()))
                } else if line[12] != 32 {
                    Err(Error::Status)
                } else {
                    Ok((v, code, line.subrange(13, line.len() as int)))
                }
            },
        }
    }
}

/// The outcome of parsing a request head.
#[verifier::ext_equal]
pub enum ReqOut {
    Pending,
    Bad(Error),
    Done(ReqHeadView, int),
}

/// The outcome of parsing a response head.
#[verifier::ext_equal]
pub enum RespOut {
    Pending,
    Bad(Error),
    Done(RespHeadView, int),
}

/// Parses a request head: request line, headers, blank line.
pub open spec fn spec_parse_request(s: Seq<u8>) -> ReqOut {
    match line_at(s, 0) {
        LineOut::Pending => ReqOut::Pending,
        LineOut::Bad => ReqOut::Bad(Error::Method),
        LineOut::Line(line, next) => match spec_parse_request_line(line) {
            Err(e) => ReqOut::Bad(e),
            Ok((m, t, v)) => match spec_parse_headers(s, next, 0) {
                HeadersOut::Pending => ReqOut::Pending,
                HeadersOut::Bad(e) => ReqOut::Bad(e),
                HeadersOut::Done(hs, end) => ReqOut::Done(
                    ReqHeadView { version: v, method: m, target: t, headers: hs },
                    end,
                ),
            },
        },
    }
}

/// Parses a response head: status line, headers, blank line.
pub open spec fn spec_parse_response(s: Seq<u8>) -> RespOut {
    match line_at(s, 0) {
        LineOut::Pending => RespOut::Pending,
        LineOut::Bad => RespOut::Bad(Error::Version),
        LineOut::Line(line, next) => match spec_parse_status_line(line) {
            Err(e) => RespOut::Bad(e),
            Ok((v, code, reason)) => match spec_parse_headers(s, next, 0) {
                HeadersOut::Pending => RespOut::Pending,
                HeadersOut::Bad(e) => RespOut::Bad(e),
                HeadersOut::Done(hs, end) => RespOut::Done(
                    RespHeadView { version: v, code, reason, headers: hs },
                    end,
                ),
            },
        },
    }
}

/// Checks that a byte range is printable ASCII.
fn range_printable(v: &[u8], a: usize, b: usize) -> (r: bool)
    requires
        a <= b <= v@.len(),
    ensures
        r == (forall|i: int| a <= i < b ==> head_byte_ok(v@[i])),
{
    let mut i: usize = a;
    while i < b
        invariant
            a <= i <= b <= v@.len(),
            forall|k: int| a <= k < i ==> head_byte_ok(v@[k]),
        decreases b - i,
    {
        if v[i] < 33 || v[i] > 126 {
            return false;
        }
        i = i + 1;
    }
    true
}

/// Reads the version token at `a..b`.
fn read_version(v: &[u8], a: usize, b: usize) -> (r: Option<HttpVersion>)
    requires
        a <= b <= v@.len(),
    ensures
        r == spec_version_of(v@.subrange(a as int, b as int)),
{
    let ghost s = v@.subrange(a as int, b as int);
    if b - a != 8 {
        proof {
            assert(s.len() != 8);
            assert(HttpVersion::Http11.spec_bytes().len() == 8);
            assert(HttpVersion::Http10.spec_bytes().len() == 8);
        }
        return None;
    }
    if v[a] == 72 && v[a + 1] == 84 && v[a + 2] == 84 && v[a + 3] == 80 && v[a + 4] == 47
        && v[a + 5] == 49 && v[a + 6] == 46 {
        if v[a + 7] == 49 {
            proof {
                assert(s =~= HttpVersion::Http11.spec_bytes());
            }
            Some(HttpVersion::Http11)
        } else if v[a + 7] == 48 {
            proof {
                assert(s =~= HttpVersion::Http10.spec_bytes());
                assert(s != HttpVersion::Http11.spec_bytes());
            }
            Some(HttpVersion::Http10)
        } else {
            proof {
                assert(s[7] != HttpVersion::Http11.spec_bytes()[7]);
                assert(s[7] != HttpVersion::Http10.spec_bytes()[7]);
            }
            None
        }
    } else {
        proof {
            let h1 = HttpVersion::Http11.spec_bytes();
            let h0 = HttpVersion::Http10.spec_bytes();
            assert(s[0] == v@[a as int]);
            assert(s[1] == v@[a + 1]);
            assert(s[2] == v@[a + 2]);
            assert(s[3] == v@[a + 3]);
            assert(s[4] == v@[a + 4]);
            assert(s[5] == v@[a + 5]);
            assert(s[6] == v@[a + 6]);
            if s == h1 || s == h0 {
                assert(false);
            }
        }
        None
    }
}

/// Parses the header block beginning at `from`: the header lines and
/// the blank line that ends them.
pub fn parse_headers_block(buf: &[u8], from: usize) -> (r: Result<Option<(Headers, usize)>, Error>)
    requires
        from <= buf@.len(),
    ensures
        r matches Ok(Some(p)) ==> spec_parse_headers(buf@, from as int, 0) == HeadersOut::Done(
            p.0@,
            p.1 as int,
        ) && from < p.1 <= buf@.len(),
        r matches Ok(None) ==> spec_parse_headers(buf@, from as int, 0) is Pending,
        r matches Err(e) ==> spec_parse_headers(buf@, from as int, 0) == HeadersOut::Bad(e),
{
    let mut headers = Headers::new();
    let mut i: usize = from;
    let mut count: usize = 0;
    loop
        invariant
            from <= i <= buf@.len(),
            count == headers@.len(),
            count <= MAX_HEADERS,
            ({
                let overall = spec_parse_headers(buf@, from as int, 0);
                match spec_parse_headers(buf@, i as int, count as int) {
                    HeadersOut::Pending => overall is Pending,
                    HeadersOut::Bad(e) => overall == HeadersOut::Bad(e),
                    HeadersOut::Done(rest, end) => overall == HeadersOut::Done(
                        headers@ + rest,
                        end,
                    ),
                }
            }),
        decreases buf@.len() - i,
    {
        let n = buf.len();
        let cr = match find_byte(buf, i, 13) {
            None => {
                return Ok(None);
            },
            Some(c) => c,
        };
        assert(cr < n);
        if cr + 1 >= buf.len() {
            return Ok(None);
        }
        if buf[cr + 1] != 10 {
            return Err(Error::Header);
        }
        let ghost line = buf@.subrange(i as int, cr as int);
        proof {
            assert(line_at(buf@, i as int) == LineOut::Line(line, cr + 2));
        }
        if cr == i {
            // The blank line: the block is complete.
            proof {
                assert(line.len() == 0);
                assert(headers@ + Seq::<(Seq<u8>, Seq<u8>)>::empty() =~= headers@);
            }
            return Ok(Some((headers, cr + 2)));
        }
        if count >= MAX_HEADERS {
            return Err(Error::TooLarge);
        }
        let line_sl = vstd::slice::slice_subrange(buf, i, cr);
        proof {
            assert(line_sl@ =~= line);
        }
        let colon = match find_byte(line_sl, 0, 58) {
            None => {
                return Err(Error::Header);
            },
            Some(c) => c,
        };
        if colon == 0 {
            return Err(Error::Header);
        }
        if !range_printable(line_sl, 0, colon) {
            proof {
                let name = line.subrange(0, colon as int);
                assert(!name_ok(name)) by {
                    let k = choose|k: int|
                        0 <= k < colon && !head_byte_ok(line_sl@[k]);
                    assert(name[k] == line_sl@[k]);
                }
            }
            return Err(Error::Header);
        }
        let name_vec = copy_bytes(vstd::slice::slice_subrange(line_sl, 0, colon));
        let (vlo, vhi) = trimmed_range(line_sl, colon + 1, line_sl.len());
        let value_vec = copy_bytes(vstd::slice::slice_subrange(line_sl, vlo, vhi));
        proof {
            crate::headers::lemma_find_from(line, 58, 0);
            let name = line.subrange(0, colon as int);
            assert(name_ok(name)) by {
                assert forall|k: int| 0 <= k < colon implies head_byte_ok(name[k]) && name[k]
                    != 58 by {
                    assert(name[k] == line_sl@[k]);
                }
            }
            assert(parse_header_line(line) == Some(
                (name, trim_ows(line.subrange(colon + 1, line.len() as int))),
            ));
            assert(name_vec@ =~= name);
            assert(value_vec@ =~= trim_ows(line.subrange(colon + 1, line.len() as int)));
        }
        let ghost hdrs_before = headers@;
        headers.push(name_vec, value_vec);
        proof {
            let p = parse_header_line(line).unwrap();
            match spec_parse_headers(buf@, cr + 2, count + 1) {
                HeadersOut::Pending => {},
                HeadersOut::Bad(e) => {},
                HeadersOut::Done(rest, end) => {
                    assert(headers@ + rest =~= hdrs_before + (seq![p] + rest));
                },
            }
        }
        i = cr + 2;
        count = count + 1;
    }
}

/// Parses a request head from the front of `buf`: the head value and
/// how many bytes it occupied, nothing if more bytes are needed, or
/// the defect that makes the head malformed.
pub fn parse_request(buf: &[u8]) -> (r: Result<Option<(MessageHead<RequestLine>, usize)>, Error>)
    ensures
        r matches Ok(Some(p)) ==> spec_parse_request(buf@) == ReqOut::Done(
            req_view(p.0),
            p.1 as int,
        ) && 0 < p.1 <= buf@.len(),
        r matches Ok(None) ==> spec_parse_request(buf@) is Pending,
        r matches Err(e) ==> spec_parse_request(buf@) == ReqOut::Bad(e),
{
    let n = buf.len();
    let cr = match find_byte(buf, 0, 13) {
        None => {
            return Ok(None);
        },
        Some(c) => c,
    };
    assert(cr < n);
    if cr + 1 >= n {
        return Ok(None);
    }
    if buf[cr + 1] != 10 {
        return Err(Error::Method);
    }
    let ghost line = buf@.subrange(0, cr as int);
    proof {
        assert(line_at(buf@, 0) == LineOut::Line(line, cr + 2));
    }
    let line_sl = vstd::slice::slice_subrange(buf, 0, cr);
    proof {
        assert(line_sl@ =~= line);
    }
    let sp1 = match find_byte(line_sl, 0, 32) {
        None => {
            return Err(Error::Method);
        },
        Some(c) => c,
    };
    if sp1 == 0 {
        return Err(Error::Method);
    }
    if !range_printable(line_sl, 0, sp1) {
        proof {
            assert(!part_ok(line.subrange(0, sp1 as int))) by {
                let k = choose|k: int| 0 <= k < sp1 && !head_byte_ok(line_sl@[k]);
                assert(line.subrange(0, sp1 as int)[k] == line_sl@[k]);
            }
        }
        return Err(Error::Method);
    }
    proof {
        assert(part_ok(line.subrange(0, sp1 as int))) by {
            assert forall|k: int| 0 <= k < sp1 implies head_byte_ok(
                line.subrange(0, sp1 as int)[k],
            ) by {
                assert(line.subrange(0, sp1 as int)[k] == line_sl@[k]);
            }
        }
    }
    let sp2 = match find_byte(line_sl, sp1 + 1, 32) {
        None => {
            return Err(Error::Uri);
        },
        Some(c) => c,
    };
    if sp2 <= sp1 + 1 {
        return Err(Error::Uri);
    }
    if !range_printable(line_sl, sp1 + 1, sp2) {
        proof {
            assert(!part_ok(line.subrange(sp1 + 1, sp2 as int))) by {
                let k = choose|k: int| sp1 + 1 <= k < sp2 && !head_byte_ok(line_sl@[k]);
                assert(line.subrange(sp1 + 1, sp2 as int)[k - sp1 - 1] == line_sl@[k]);
            }
        }
        return Err(Error::Uri);
    }
    proof {
        assert(part_ok(line.subrange(sp1 + 1, sp2 as int))) by {
            assert forall|k: int| 0 <= k < sp2 - sp1 - 1 implies head_byte_ok(
                #[trigger] line.subrange(sp1 + 1, sp2 as int)[k],
            ) by {
                assert(line.subrange(sp1 + 1, sp2 as int)[k] == line_sl@[k + sp1 + 1]);
            }
        }
    }
    let version = match read_version(line_sl, sp2 + 1, cr) {
        None => {
            return Err(Error::Version);
        },
        Some(v) => v,
    };
    let method = parse_method(vstd::slice::slice_subrange(line_sl, 0, sp1));
    let target = copy_bytes(vstd::slice::slice_subrange(line_sl, sp1 + 1, sp2));
    proof {
        assert(spec_parse_request_line(line) == Ok::<(Seq<u8>, Seq<u8>, HttpVersion), Error>(
            (line.subrange(0, sp1 as int), line.subrange(sp1 + 1, sp2 as int), version),
        ));
    }
    match parse_headers_block(buf, cr + 2) {
        Err(e) => Err(e),
        Ok(None) => Ok(None),
        Ok(Some((headers, end))) => {
            let head = MessageHead { version, subject: RequestLine(method, target), headers };
            proof {
                assert(req_view(head) =~= (ReqHeadView {
                    version,
                    method: line.subrange(0, sp1 as int),
                    target: line.subrange(sp1 + 1, sp2 as int),
                    headers: head.headers@,
                }));
            }
            Ok(Some((head, end)))
        },
    }
}

/// Parses a response head from the front of `buf`.
pub fn parse_response(buf: &[u8]) -> (r: Result<Option<(MessageHead<RawStatus>, usize)>, Error>)
    ensures
        r matches Ok(Some(p)) ==> spec_parse_response(buf@) == RespOut::Done(
            resp_view(p.0),
            p.1 as int,
        ) && 0 < p.1 <= buf@.len(),
        r matches Ok(None) ==> spec_parse_response(buf@) is Pending,
        r matches Err(e) ==> spec_parse_response(buf@) == RespOut::Bad(e),
{
    let n = buf.len();
    let cr = match find_byte(buf, 0, 13) {
        None => {
            return Ok(None);
        },
        Some(c) => c,
    };
    assert(cr < n);
    if cr + 1 >= n {
        return Ok(None);
    }
    if buf[cr + 1] != 10 {
        return Err(Error::Version);
    }
    let ghost line = buf@.subrange(0, cr as int);
    proof {
        assert(line_at(buf@, 0) == LineOut::Line(line, cr + 2));
    }
    let line_sl = vstd::slice::slice_subrange(buf, 0, cr);
    proof {
        assert(line_sl@ =~= line);
    }
    if cr < 12 {
        return Err(Error::Version);
    }
    let version = match read_version(line_sl, 0, 8) {
        None => {
            return Err(Error::Version);
        },
        Some(v) => v,
    };
    if line_sl[8] != 32 {
        return Err(Error::Version);
    }
    let b9 = line_sl[9];
    let b10 = line_sl[10];
    let b11 = line_sl[11];
    if b9 < 48 || b9 > 57 || b10 < 48 || b10 > 57 || b11 < 48 || b11 > 57 {
        return Err(Error::Status);
    }
    let code: u16 = (b9 - 48) as u16 * 100 + (b10 - 48) as u16 * 10 + (b11 - 48) as u16;
    let reason: Vec<u8> = if cr == 12 {
        Vec::new()
    } else {
        if line_sl[12] != 32 {
            return Err(Error::Status);
        }
        copy_bytes(vstd::slice::slice_subrange(line_sl, 13, cr))
    };
    proof {
        if cr == 12 {
            assert(reason@ =~= Seq::<u8>::empty());
            assert(spec_parse_status_line(line) == Ok::<(HttpVersion, int, Seq<u8>), Error>(
                (version, code as int, reason@),
            ));
        } else {
            assert(reason@ =~= line.subrange(13, line.len() as int));
            assert(spec_parse_status_line(line) == Ok::<(HttpVersion, int, Seq<u8>), Error>(
                (version, code as int, reason@),
            ));
        }
    }
    match parse_headers_block(buf, cr + 2) {
        Err(e) => Err(e),
        Ok(None) => Ok(None),
        Ok(Some((headers, end))) => {
            let head = MessageHead { version, subject: RawStatus(code, reason), headers };
            proof {
                assert(resp_view(head) =~= (RespHeadView {
                    version,
                    code: code as int,
                    reason: head.subject.1@,
                    headers: head.headers@,
                }));
            }
            Ok(Some((head, end)))
        },
    }
}

/// The name/value separator written on the wire.
pub open spec fn colon_sp() -> Seq<u8> {
    seq![58u8, 32u8]
}

/// The wire form of a header block: one `name: value` line per pair,
/// then the blank line.
pub open spec fn render_headers(h: Seq<(Seq<u8>, Seq<u8>)>) -> Seq<u8>
    decreases h.len(),
{
    if h.len() == 0 {
        crate::encode::crlf()
    } else {
        h[0].0 + colon_sp() + h[0].1 + crate::encode::crlf() + render_headers(h.skip(1))
    }
}

/// The decimal rendering of a number, most significant digit first.
pub open spec fn spec_dec(n: int) -> Seq<u8>
    decreases n,
{
    if n < 10 {
        seq![(48 + n) as u8]
    } else {
        spec_dec(n / 10) + seq![(48 + n % 10) as u8]
    }
}

/// Renders a number in decimal.
pub fn render_dec(n: u64) -> (r: Vec<u8>)
    ensures
        r@ == spec_dec(n as int),
    decreases n,
{
    if n < 10 {
        let mut v: Vec<u8> = Vec::new();
        v.push(48 + n as u8);
        proof {
            assert(v@ =~= spec_dec(n as int));
        }
        v
    } else {
        let mut v = render_dec(n / 10);
        v.push(48 + (n % 10) as u8);
        proof {
            assert(v@ =~= spec_dec(n as int));
        }
        v
    }
}

/// The wire form of a request head.
pub open spec fn render_request_head(v: ReqHeadView) -> Seq<u8> {
    v.method + seq![32u8] + v.target + seq![32u8] + v.version.spec_bytes()
        + crate::encode::crlf() + render_headers(v.headers)
}

/// The wire form of a response head.
pub open spec fn render_response_head(v: RespHeadView) -> Seq<u8> {
    v.version.spec_bytes() + seq![32u8] + spec_dec(v.code) + seq![32u8] + v.reason
        + crate::encode::crlf() + render_headers(v.headers)
}

/// Appends the wire form of a header block.
pub fn serialize_headers(dst: &mut Vec<u8>, headers: &Headers)
    ensures
        final(dst)@ == old(dst)@ + render_headers(headers@),
{
    let mut i: usize = 0;
    proof {
        assert(headers@.skip(0) =~= headers@);
    }
    while i < headers.len()
        invariant
            i <= headers@.len(),
            old(dst)@ + render_headers(headers@) == dst@ + render_headers(headers@.skip(i as int)),
        decreases headers@.len() - i,
    {
        let ghost before = dst@;
        let name = headers.name_at(i);
        let value = headers.value_at(i);
        let mut j: usize = 0;
        while j < name.len()
            invariant
                j <= name@.len(),
                dst@ == before + name@.take(j as int),
            decreases name@.len() - j,
        {
            dst.push(name[j]);
            j = j + 1;
            proof {
                assert(dst@ =~= before + name@.take(j as int));
            }
        }
        dst.push(58u8);
        dst.push(32u8);
        let ghost mid = dst@;
        let mut k: usize = 0;
        while k < value.len()
            invariant
                k <= value@.len(),
                dst@ == mid + value@.take(k as int),
            decreases value@.len() - k,
        {
            dst.push(value[k]);
            k = k + 1;
            proof {
                assert(dst@ =~= mid + value@.take(k as int));
            }
        }
        dst.push(13u8);
        dst.push(10u8);
        proof {
            let rest = headers@.skip(i as int);
            assert(rest[0] == headers@[i as int]);
            assert(rest.skip(1) =~= headers@.skip(i + 1));
            assert(name@.take(name@.len() as int) =~= name@);
            assert(value@.take(value@.len() as int) =~= value@);
            assert(dst@ =~= before + (rest[0].0 + colon_sp() + rest[0].1 + crate::encode::crlf()));
            assert(dst@ + render_headers(headers@.skip(i + 1)) =~= before + render_headers(rest));
        }
        i = i + 1;
    }
    dst.push(13u8);
    dst.push(10u8);
    proof {
        assert(headers@.skip(headers@.len() as int).len() == 0);
        assert(final(dst)@ =~= old(dst)@ + render_headers(headers@));
    }
}

/// Renders a request head onto the wire.
pub fn serialize_request_head(h: &MessageHead<RequestLine>) -> (r: Vec<u8>)
    ensures
        r@ == render_request_head(req_view(*h)),
{
    let mut out: Vec<u8> = Vec::new();
    let m = h.subject.0.wire_bytes();
    let mut i: usize = 0;
    while i < m.len()
        invariant
            i <= m@.len(),
            out@ == m@.take(i as int),
        decreases m@.len() - i,
    {
        out.push(m[i]);
        i = i + 1;
        proof {
            assert(out@ =~= m@.take(i as int));
        }
    }
    out.push(32u8);
    let ghost mid1 = out@;
    let t = &h.subject.1;
    let mut j: usize = 0;
    while j < t.len()
        invariant
            j <= t@.len(),
            out@ == mid1 + t@.take(j as int),
        decreases t@.len() - j,
    {
        out.push(t[j]);
        j = j + 1;
        proof {
            assert(out@ =~= mid1 + t@.take(j as int));
        }
    }
    out.push(32u8);
    let v = h.version.wire_bytes();
    let ghost mid2 = out@;
    let mut k: usize = 0;
    while k < v.len()
        invariant
            k <= v@.len(),
            out@ == mid2 + v@.take(k as int),
        decreases v@.len() - k,
    {
        out.push(v[k]);
        k = k + 1;
        proof {
            assert(out@ =~= mid2 + v@.take(k as int));
        }
    }
    out.push(13u8);
    out.push(10u8);
    proof {
        assert(m@.take(m@.len() as int) =~= m@);
        assert(t@.take(t@.len() as int) =~= t@);
        assert(v@.take(v@.len() as int) =~= v@);
        assert(out@ =~= h.subject.0.spec_bytes() + seq![32u8] + h.subject.1@ + seq![32u8]
            + h.version.spec_bytes() + crate::encode::crlf());
    }
    serialize_headers(&mut out, &h.headers);
    proof {
        assert(out@ =~= render_request_head(req_view(*h)));
    }
    out
}

/// Renders a response head onto the wire.
pub fn serialize_response_head(h: &MessageHead<RawStatus>) -> (r: Vec<u8>)
    ensures
        r@ == render_response_head(resp_view(*h)),
{
    let mut out: Vec<u8> = Vec::new();
    let v = h.version.wire_bytes();
    let mut i: usize = 0;
    while i < v.len()
        invariant
            i <= v@.len(),
            out@ == v@.take(i as int),
        decreases v@.len() - i,
    {
        out.push(v[i]);
        i = i + 1;
        proof {
            assert(out@ =~= v@.take(i as int));
        }
    }
    out.push(32u8);
    let code = render_dec(h.subject.0 as u64);
    let ghost mid1 = out@;
    let mut j: usize = 0;
    while j < code.len()
        invariant
            j <= code@.len(),
            out@ == mid1 + code@.take(j as int),
        decreases code@.len() - j,
    {
        out.push(code[j]);
        j = j + 1;
        proof {
            assert(out@ =~= mid1 + code@.take(j as int));
        }
    }
    out.push(32u8);
    let ghost mid2 = out@;
    let rs = &h.subject.1;
    let mut k: usize = 0;
    while k < rs.len()
        invariant
            k <= rs@.len(),
            out@ == mid2 + rs@.take(k as int),
        decreases rs@.len() - k,
    {
        out.push(rs[k]);
        k = k + 1;
        proof {
            assert(out@ =~= mid2 + rs@.take(k as int));
        }
    }
    out.push(13u8);
    out.push(10u8);
    proof {
        assert(v@.take(v@.len() as int) =~= v@);
        assert(code@.take(code@.len() as int) =~= code@);
        assert(rs@.take(rs@.len() as int) =~= rs@);
        assert(out@ =~= h.version.spec_bytes() + seq![32u8] + spec_dec(h.subject.0 as int)
            + seq![32u8] + h.subject.1@ + crate::encode::crlf());
    }
    serialize_headers(&mut out, &h.headers);
    proof {
        assert(out@ =~= render_response_head(resp_view(*h)));
    }
    out
}

/// No carriage return anywhere.
pub open spec fn no_cr(s: Seq<u8>) -> bool {
    forall|i: int| 0 <= i < s.len() ==> s[i] != 13
}

/// Neither carriage return nor line feed anywhere.
pub open spec fn no_cr_lf(s: Seq<u8>) -> bool {
    forall|i: int| 0 <= i < s.len() ==> s[i] != 13 && s[i] != 10
}

/// A header pair the serializer can emit and the parser hand back
/// unchanged: a valid name, a value free of line breaks and already
/// trimmed.
pub open spec fn wf_header_pair(p: (Seq<u8>, Seq<u8>)) -> bool {
    name_ok(p.0) && crate::headers::trim_ows(p.1) == p.1 && no_cr_lf(p.1)
}

/// A request head whose wire form parses back to itself.
pub open spec fn wf_req_head(v: ReqHeadView) -> bool {
    &&& part_ok(v.method)
    &&& part_ok(v.target)
    &&& v.headers.len() <= MAX_HEADERS
    &&& forall|i: int| 0 <= i < v.headers.len() ==> wf_header_pair(#[trigger] v.headers[i])
}

/// A response head whose wire form parses back to itself.
pub open spec fn wf_resp_head(v: RespHeadView) -> bool {
    &&& 100 <= v.code <= 999
    &&& no_cr_lf(v.reason)
    &&& v.headers.len() <= MAX_HEADERS
    &&& forall|i: int| 0 <= i < v.headers.len() ==> wf_header_pair(#[trigger] v.headers[i])
}

/// The first occurrence of `b` at or after `from` is exactly `e` when
/// `e` holds `b` and nothing before it does.
pub proof fn lemma_find_exact(s: Seq<u8>, b: u8, from: int, e: int)
    requires
        0 <= from <= e < s.len(),
        s[e] == b,
        forall|k: int| from <= k < e ==> s[k] != b,
    ensures
        find_from(s, b, from) == Some(e),
{
    crate::headers::lemma_find_from(s, b, from);
    match find_from(s, b, from) {
        None => {
            assert(s[e] == b);
            assert(false);
        },
        Some(c) => {
            if c < e {
                assert(s[c] != b);
                assert(false);
            }
            if c > e {
                assert(s[e] != b);
                assert(false);
            }
        },
    }
}

/// A CR-free line followed by CRLF is exactly what `line_at` yields.
pub proof fn lemma_line_at(s: Seq<u8>, from: int, content: Seq<u8>)
    requires
        0 <= from,
        from + content.len() + 2 <= s.len(),
        forall|i: int| 0 <= i < content.len() ==> s[from + i] == content[i],
        no_cr(content),
        s[from + content.len()] == 13,
        s[from + content.len() + 1] == 10,
    ensures
        line_at(s, from) == LineOut::Line(content, from + content.len() + 2),
{
    let e = from + content.len();
    assert forall|k: int| from <= k < e implies s[k] != 13 by {
        assert(s[k] == content[k - from]);
    }
    lemma_find_exact(s, 13, from, e);
    assert(s.subrange(from, e) =~= content);
}

pub proof fn lemma_trim_front_shrinks(s: Seq<u8>)
    ensures
        crate::headers::trim_front(s) == s || crate::headers::trim_front(s).len() < s.len(),
    decreases s.len(),
{
    if s.len() > 0 && crate::headers::is_ows(s[0]) {
        lemma_trim_front_shrinks(s.skip(1));
    }
}

pub proof fn lemma_trim_back_shrinks(s: Seq<u8>)
    ensures
        crate::headers::trim_back(s) == s || crate::headers::trim_back(s).len() < s.len(),
    decreases s.len(),
{
    if s.len() > 0 && crate::headers::is_ows(s[s.len() - 1]) {
        lemma_trim_back_shrinks(s.take(s.len() - 1));
    }
}

/// A value already trimmed is fixed by each one-sided trim.
pub proof fn lemma_trimmed_fixed(s: Seq<u8>)
    requires
        crate::headers::trim_ows(s) == s,
    ensures
        crate::headers::trim_front(s) == s,
        crate::headers::trim_back(s) == s,
{
    lemma_trim_front_shrinks(s);
    lemma_trim_back_shrinks(crate::headers::trim_front(s));
    if crate::headers::trim_front(s) != s {
        assert(crate::headers::trim_ows(s).len() < s.len());
        assert(false);
    }
}

/// Trimming one leading space off a trimmed value gives it back.
pub proof fn lemma_trim_sp_prefix(x: Seq<u8>)
    requires
        crate::headers::trim_ows(x) == x,
    ensures
        crate::headers::trim_ows(seq![32u8] + x) == x,
{
    let s = seq![32u8] + x;
    assert(crate::headers::is_ows(s[0]));
    assert(s.skip(1) =~= x);
    assert(crate::headers::trim_front(s) == crate::headers::trim_front(x));
    lemma_trimmed_fixed(x);
}

/// A rendered header line splits back into its own name and value.
pub proof fn lemma_parse_header_line(p: (Seq<u8>, Seq<u8>))
    requires
        wf_header_pair(p),
    ensures
        parse_header_line(p.0 + colon_sp() + p.1) == Some(p),
{
    let line = p.0 + colon_sp() + p.1;
    let e = p.0.len() as int;
    assert(line[e] == 58);
    assert forall|k: int| 0 <= k < e implies line[k] != 58 by {
        assert(line[k] == p.0[k]);
    }
    lemma_find_exact(line, 58, 0, e);
    assert(line.subrange(0, e) =~= p.0);
    assert(line.subrange(e + 1, line.len() as int) =~= seq![32u8] + p.1);
    lemma_trim_sp_prefix(p.1);
}

/// A rendered header block parses back to exactly its pairs, ending
/// right after its own blank line, whatever bytes follow.
pub proof fn lemma_headers_round(s: Seq<u8>, from: int, h: Seq<(Seq<u8>, Seq<u8>)>, count: int)
    requires
        0 <= from,
        0 <= count,
        count + h.len() <= MAX_HEADERS,
        forall|i: int| 0 <= i < h.len() ==> wf_header_pair(#[trigger] h[i]),
        from + render_headers(h).len() <= s.len(),
        s.subrange(from, from + render_headers(h).len()) == render_headers(h),
    ensures
        spec_parse_headers(s, from, count) == HeadersOut::Done(h, from + render_headers(h).len()),
    decreases h.len(),
{
    let rh = render_headers(h);
    assert(forall|i: int| 0 <= i < rh.len() ==> s[from + i] == #[trigger] rh[i]) by {
        assert(forall|i: int|
            0 <= i < rh.len() ==> #[trigger] s.subrange(from, from + rh.len())[i] == s[from + i]);
    }
    if h.len() == 0 {
        assert(rh == crate::encode::crlf());
        assert(s[from] == 13);
        assert(s[from + 1] == 10);
        lemma_line_at(s, from, Seq::empty());
        assert(h =~= Seq::<(Seq<u8>, Seq<u8>)>::empty());
    } else {
        let p = h[0];
        let line = p.0 + colon_sp() + p.1;
        let rest = render_headers(h.skip(1));
        assert(rh =~= line + crate::encode::crlf() + rest);
        assert forall|i: int| 0 <= i < line.len() implies s[from + i] == line[i] by {
            assert(rh[i] == line[i]);
        }
        assert(no_cr(line)) by {
            assert forall|i: int| 0 <= i < line.len() implies line[i] != 13 by {
                if i < p.0.len() {
                    assert(line[i] == p.0[i]);
                    assert(head_byte_ok(p.0[i]));
                } else if i < p.0.len() + 2 {
                    assert(line[i] == colon_sp()[i - p.0.len()]);
                } else {
                    assert(line[i] == p.1[i - p.0.len() - 2]);
                }
            }
        }
        assert(s[from + line.len() as int] == 13) by {
            assert(rh[line.len() as int] == 13);
        }
        assert(s[from + line.len() as int + 1] == 10) by {
            assert(rh[line.len() as int + 1] == 10);
        }
        lemma_line_at(s, from, line);
        lemma_parse_header_line(p);
        let next = from + line.len() as int + 2;
        assert(s.subrange(next, next + rest.len()) =~= rest) by {
            assert(forall|i: int| 0 <= i < rest.len() ==> rh[line.len() + 2 + i] == #[trigger] rest[i]);
            assert(forall|i: int|
                0 <= i < rest.len() ==> #[trigger] s.subrange(next, next + rest.len())[i] == s[
                    next + i]);
        }
        assert(forall|i: int| 0 <= i < h.skip(1).len() ==> wf_header_pair(#[trigger] h.skip(1)[i]))
            by {
            assert(forall|i: int| 0 <= i < h.skip(1).len() ==> #[trigger] h.skip(1)[i] == h[i + 1]);
        }
        lemma_headers_round(s, next, h.skip(1), count + 1);
        assert(seq![p] + h.skip(1) =~= h);
        assert(line.len() > 0);
        assert(next + rest.len() == from + rh.len());
    }
}

/// Serialization then parsing gives a well-formed request head back,
/// byte count included: the parser inverts the serializer.
pub proof fn lemma_request_round_trip(v: ReqHeadView)
    requires
        wf_req_head(v),
    ensures
        spec_parse_request(render_request_head(v)) == ReqOut::Done(
            v,
            render_request_head(v).len() as int,
        ),
{
    let s = render_request_head(v);
    let vb = v.version.spec_bytes();
    let content = v.method + seq![32u8] + v.target + seq![32u8] + vb;
    let rh = render_headers(v.headers);
    assert(s =~= content + crate::encode::crlf() + rh);
    assert(vb.len() == 8);
    assert(forall|i: int| 0 <= i < vb.len() ==> 33 <= #[trigger] vb[i] <= 126) by {
        assert(vb[0] == 72 && vb[1] == 84 && vb[2] == 84 && vb[3] == 80 && vb[4] == 47 && vb[5]
            == 49 && vb[6] == 46 && (vb[7] == 48 || vb[7] == 49));
    }
    assert(no_cr(content)) by {
        assert forall|i: int| 0 <= i < content.len() implies content[i] != 13 by {
            if i < v.method.len() {
                assert(content[i] == v.method[i]);
                assert(head_byte_ok(v.method[i]));
            } else if i == v.method.len() {
                assert(content[i] == 32);
            } else if i < v.method.len() + 1 + v.target.len() {
                assert(content[i] == v.target[i - v.method.len() - 1]);
                assert(head_byte_ok(v.target[i - v.method.len() - 1]));
            } else if i == v.method.len() + 1 + v.target.len() {
                assert(content[i] == 32);
            } else {
                assert(content[i] == vb[i - v.method.len() - v.target.len() - 2]);
            }
        }
    }
    assert(forall|i: int| 0 <= i < content.len() ==> s[i] == #[trigger] content[i]);
    assert(s[content.len() as int] == 13);
    assert(s[content.len() as int + 1] == 10);
    lemma_line_at(s, 0, content);

    // The request line splits at its two spaces.
    let sp1 = v.method.len() as int;
    assert(content[sp1] == 32);
    assert forall|k: int| 0 <= k < sp1 implies content[k] != 32 by {
        assert(content[k] == v.method[k]);
        assert(head_byte_ok(v.method[k]));
    }
    lemma_find_exact(content, 32, 0, sp1);
    assert(content.subrange(0, sp1) =~= v.method);
    let sp2 = sp1 + 1 + v.target.len() as int;
    assert(content[sp2] == 32);
    assert forall|k: int| sp1 + 1 <= k < sp2 implies content[k] != 32 by {
        assert(content[k] == v.target[k - sp1 - 1]);
        assert(head_byte_ok(v.target[k - sp1 - 1]));
    }
    lemma_find_exact(content, 32, sp1 + 1, sp2);
    assert(content.subrange(sp1 + 1, sp2) =~= v.target);
    assert(content.subrange(sp2 + 1, content.len() as int) =~= vb);
    assert(HttpVersion::Http10.spec_bytes()[7] != HttpVersion::Http11.spec_bytes()[7]);
    assert(spec_parse_request_line(content) == Ok::<(Seq<u8>, Seq<u8>, HttpVersion), Error>(
        (v.method, v.target, v.version),
    ));

    // The header block parses back to its own pairs.
    let next = content.len() as int + 2;
    assert(s.subrange(next, next + rh.len()) =~= rh) by {
        assert(forall|i: int| 0 <= i < rh.len() ==> s[next + i] == #[trigger] rh[i]);
        assert(forall|i: int|
            0 <= i < rh.len() ==> #[trigger] s.subrange(next, next + rh.len())[i] == s[next + i]);
    }
    lemma_headers_round(s, next, v.headers, 0);
    assert(next + rh.len() == s.len());
    assert(spec_parse_request(s) == ReqOut::Done(
        ReqHeadView { version: v.version, method: v.method, target: v.target, headers: v.headers },
        s.len() as int,
    ));
    assert(ReqHeadView {
        version: v.version,
        method: v.method,
        target: v.target,
        headers: v.headers,
    } =~= v);
}

/// A three-digit status code renders as its three digits.
pub proof fn lemma_dec3(n: int)
    requires
        100 <= n <= 999,
    ensures
        spec_dec(n) =~= seq![
            (48 + n / 100) as u8,
            (48 + (n / 10) % 10) as u8,
            (48 + n % 10) as u8,
        ],
        n == 100 * (n / 100) + 10 * ((n / 10) % 10) + n % 10,
{
    assert(n / 10 / 10 == n / 100) by (nonlinear_arith)
        requires
            100 <= n <= 999,
    ;
    assert(10 <= n / 10 <= 99) by (nonlinear_arith)
        requires
            100 <= n <= 999,
    ;
    assert(1 <= n / 100 <= 9) by (nonlinear_arith)
        requires
            100 <= n <= 999,
    ;
    assert(spec_dec(n / 100) =~= seq![(48 + n / 100) as u8]);
    assert(spec_dec(n / 10) =~= seq![(48 + n / 100) as u8, (48 + (n / 10) % 10) as u8]);
    assert(spec_dec(n) =~= spec_dec(n / 10) + seq![(48 + n % 10) as u8]);
    assert(n == 10 * (n / 10) + n % 10);
    assert(n / 10 == 10 * (n / 100) + (n / 10) % 10);
}

/// Serialization then parsing gives a well-formed response head back,
/// byte count included.
pub proof fn lemma_response_round_trip(v: RespHeadView)
    requires
        wf_resp_head(v),
    ensures
        spec_parse_response(render_response_head(v)) == RespOut::Done(
            v,
            render_response_head(v).len() as int,
        ),
{
    let s = render_response_head(v);
    let vb = v.version.spec_bytes();
    lemma_dec3(v.code);
    let d3 = seq![
        (48 + v.code / 100) as u8,
        (48 + (v.code / 10) % 10) as u8,
        (48 + v.code % 10) as u8,
    ];
    let content = vb + seq![32u8] + d3 + seq![32u8] + v.reason;
    let rh = render_headers(v.headers);
    assert(s =~= content + crate::encode::crlf() + rh);
    assert(vb.len() == 8);
    assert(forall|i: int| 0 <= i < vb.len() ==> 33 <= #[trigger] vb[i] <= 126) by {
        assert(vb[0] == 72 && vb[1] == 84 && vb[2] == 84 && vb[3] == 80 && vb[4] == 47 && vb[5]
            == 49 && vb[6] == 46 && (vb[7] == 48 || vb[7] == 49));
    }
    assert(no_cr(content)) by {
        assert forall|i: int| 0 <= i < content.len() implies content[i] != 13 by {
            if i < 8 {
                assert(content[i] == vb[i]);
            } else if i == 8 {
                assert(content[i] == 32);
            } else if i < 12 {
                assert(content[i] == d3[i - 9]);
            } else if i == 12 {
                assert(content[i] == 32);
            } else {
                assert(content[i] == v.reason[i - 13]);
            }
        }
    }
    assert(forall|i: int| 0 <= i < content.len() ==> s[i] == #[trigger] content[i]);
    assert(s[content.len() as int] == 13);
    assert(s[content.len() as int + 1] == 10);
    lemma_line_at(s, 0, content);

    // The status line reads back its version, code, and reason.
    assert(content.subrange(0, 8) =~= vb);
    assert(HttpVersion::Http10.spec_bytes()[7] != HttpVersion::Http11.spec_bytes()[7]);
    assert(content[8] == 32);
    assert(content[9] == d3[0] && content[10] == d3[1] && content[11] == d3[2]);
    assert(crate::headers::is_digit(content[9]) && crate::headers::is_digit(content[10])
        && crate::headers::is_digit(content[11]));
    assert(content.len() == 13 + v.reason.len());
    assert(content[12] == 32);
    assert(content.subrange(13, content.len() as int) =~= v.reason);
    assert((content[9] - 48) * 100 + (content[10] - 48) * 10 + (content[11] - 48) == v.code);
    assert(spec_parse_status_line(content) == Ok::<(HttpVersion, int, Seq<u8>), Error>(
        (v.version, v.code, v.reason),
    ));

    // The header block parses back to its own pairs.
    let next = content.len() as int + 2;
    assert(s.subrange(next, next + rh.len()) =~= rh) by {
        assert(forall|i: int| 0 <= i < rh.len() ==> s[next + i] == #[trigger] rh[i]);
        assert(forall|i: int|
            0 <= i < rh.len() ==> #[trigger] s.subrange(next, next + rh.len())[i] == s[next + i]);
    }
    lemma_headers_round(s, next, v.headers, 0);
    assert(next + rh.len() == s.len());
    assert(RespHeadView {
        version: v.version,
        code: v.code,
        reason: v.reason,
        headers: v.headers,
    } =~= v);
}

} // verus!
