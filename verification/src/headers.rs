//! The header multi-map: ordered, case-insensitive names, duplicates
//! preserved, and the framing decisions read from it (Content-Length,
//! Transfer-Encoding, Connection).

use vstd::prelude::*;

verus! {

/// ASCII space or horizontal tab, the optional whitespace around values.
pub open spec fn is_ows(b: u8) -> bool {
    b == 32 || b == 9
}

/// ASCII lower-casing of one byte.
pub open spec fn lower(b: u8) -> u8 {
    if 65 <= b && b <= 90 {
        (b + 32) as u8
    } else {
        b
    }
}

/// ASCII lower-casing of a byte sequence.
pub open spec fn lower_seq(s: Seq<u8>) -> Seq<u8> {
    s.map_values(|b: u8| lower(b))
}

/// The sequence with leading optional whitespace removed.
pub open spec fn trim_front(s: Seq<u8>) -> Seq<u8>
    decreases s.len(),
{
    if s.len() > 0 && is_ows(s[0]) {
        trim_front(s.skip(1))
    } else {
        s
    }
}

/// The sequence with trailing optional whitespace removed.
pub open spec fn trim_back(s: Seq<u8>) -> Seq<u8>
    decreases s.len(),
{
    if s.len() > 0 && is_ows(s[s.len() - 1]) {
        trim_back(s.take(s.len() - 1))
    } else {
        s
    }
}

/// The sequence with optional whitespace removed from both ends.
pub open spec fn trim_ows(s: Seq<u8>) -> Seq<u8> {
    trim_back(trim_front(s))
}

/// The first position at or after `from` holding byte `b`.
pub open spec fn find_from(s: Seq<u8>, b: u8, from: int) -> Option<int>
    decreases s.len() - from,
{
    if from < 0 || from >= s.len() {
        None
    } else if s[from] == b {
        Some(from)
    } else {
        find_from(s, b, from + 1)
    }
}

pub proof fn lemma_find_from(s: Seq<u8>, b: u8, from: int)
    requires
        0 <= from,
    ensures
        match find_from(s, b, from) {
            Some(c) => from <= c < s.len() && s[c] == b && forall|k: int|
                from <= k < c ==> s[k] != b,
            None => forall|k: int| from <= k < s.len() ==> s[k] != b,
        },
    decreases s.len() - from,
{
    if from < 0 || from >= s.len() {
    } else if s[from] == b {
    } else {
        lemma_find_from(s, b, from + 1);
        match find_from(s, b, from + 1) {
            Some(c) => {
                assert forall|k: int| from <= k < c implies s[k] != b by {
                    if k > from {
                        assert(s[k] != b);
                    }
                }
            },
            None => {
                assert forall|k: int| from <= k < s.len() implies s[k] != b by {
                    if k > from {
                        assert(s[k] != b);
                    }
                }
            },
        }
    }
}

/// Whether a comma-separated list holds `tok` as one of its elements,
/// compared case-insensitively after trimming optional whitespace.
pub open spec fn list_has_token(s: Seq<u8>, tok: Seq<u8>) -> bool
    decreases s.len(),
{
    match find_from(s, 44, 0) {
        None => lower_seq(trim_ows(s)) == lower_seq(tok),
        Some(c) => if 0 <= c < s.len() {
            lower_seq(trim_ows(s.take(c))) == lower_seq(tok) || list_has_token(
                s.skip(c + 1),
                tok,
            )
        } else {
            false
        },
    }
}

/// Lower-cases one byte.
pub fn lower_byte(b: u8) -> (r: u8)
    ensures
        r == lower(b),
{
    if 65 <= b && b <= 90 {
        b + 32
    } else {
        b
    }
}

/// Compares two byte strings case-insensitively.
pub fn eq_ignore_case(a: &[u8], b: &[u8]) -> (r: bool)
    ensures
        r == (lower_seq(a@) == lower_seq(b@)),
{
    if a.len() != b.len() {
        proof {
            assert(lower_seq(a@).len() == a@.len());
            assert(lower_seq(b@).len() == b@.len());
        }
        return false;
    }
    let mut i: usize = 0;
    while i < a.len()
        invariant
            i <= a@.len(),
            a@.len() == b@.len(),
            forall|k: int| 0 <= k < i ==> lower(a@[k]) == lower(b@[k]),
        decreases a@.len() - i,
    {
        if lower_byte(a[i]) != lower_byte(b[i]) {
            proof {
                assert(lower_seq(a@)[i as int] == lower(a@[i as int]));
                assert(lower_seq(b@)[i as int] == lower(b@[i as int]));
            }
            return false;
        }
        i = i + 1;
    }
    proof {
        assert forall|k: int| 0 <= k < a@.len() implies lower_seq(a@)[k] == lower_seq(b@)[k] by {
            assert(lower(a@[k]) == lower(b@[k]));
        }
        assert(lower_seq(a@) =~= lower_seq(b@));
    }
    true
}

/// The subrange of `v` between `a` and `b` with surrounding optional
/// whitespace excluded.
pub fn trimmed_range(v: &[u8], a: usize, b: usize) -> (r: (usize, usize))
    requires
        a <= b <= v@.len(),
    ensures
        a <= r.0 <= r.1 <= b,
        trim_ows(v@.subrange(a as int, b as int)) == v@.subrange(r.0 as int, r.1 as int),
{
    let mut lo: usize = a;
    while lo < b && (v[lo] == 32 || v[lo] == 9)
        invariant
            a <= lo <= b <= v@.len(),
            trim_front(v@.subrange(a as int, b as int)) == trim_front(
                v@.subrange(lo as int, b as int),
            ),
        decreases b - lo,
    {
        proof {
            let s = v@.subrange(lo as int, b as int);
            assert(s.len() > 0 && is_ows(s[0]));
            assert(s.skip(1) =~= v@.subrange(lo + 1, b as int));
        }
        lo = lo + 1;
    }
    proof {
        let s = v@.subrange(lo as int, b as int);
        assert(s.len() == 0 || !is_ows(s[0]));
        assert(trim_front(s) == s);
    }
    let mut hi: usize = b;
    while hi > lo && (v[hi - 1] == 32 || v[hi - 1] == 9)
        invariant
            a <= lo <= hi <= b <= v@.len(),
            trim_front(v@.subrange(a as int, b as int)) == v@.subrange(lo as int, b as int),
            trim_back(v@.subrange(lo as int, b as int)) == trim_back(
                v@.subrange(lo as int, hi as int),
            ),
        decreases hi,
    {
        proof {
            let s = v@.subrange(lo as int, hi as int);
            assert(s.len() > 0 && is_ows(s[s.len() - 1]));
            assert(s.take(s.len() - 1) =~= v@.subrange(lo as int, hi - 1));
        }
        hi = hi - 1;
    }
    proof {
        let s = v@.subrange(lo as int, hi as int);
        assert(s.len() == 0 || !is_ows(s[s.len() - 1]));
        assert(trim_back(s) == s);
    }
    (lo, hi)
}

/// Whether the `a..b` segment of `v`, trimmed, equals `tok`
/// case-insensitively.
fn segment_matches(v: &[u8], a: usize, b: usize, tok: &[u8]) -> (r: bool)
    requires
        a <= b <= v@.len(),
    ensures
        r == (lower_seq(trim_ows(v@.subrange(a as int, b as int))) == lower_seq(tok@)),
{
    let (lo, hi) = trimmed_range(v, a, b);
    let seg = vstd::slice::slice_subrange(v, lo, hi);
    eq_ignore_case(seg, tok)
}

/// Finds the first comma at or after `from`.
fn find_comma(v: &[u8], from: usize) -> (r: Option<usize>)
    requires
        from <= v@.len(),
    ensures
        match r {
            Some(c) => find_from(v@, 44, from as int) == Some(c as int) && from <= c < v@.len(),
            None => find_from(v@, 44, from as int) is None,
        },
{
    let mut i: usize = from;
    while i < v.len() && v[i] != 44
        invariant
            from <= i <= v@.len(),
            find_from(v@, 44, from as int) == find_from(v@, 44, i as int),
        decreases v@.len() - i,
    {
        i = i + 1;
    }
    if i < v.len() {
        Some(i)
    } else {
        None
    }
}

/// Finds the first occurrence of `b` at or after `from`.
pub fn find_byte(v: &[u8], from: usize, b: u8) -> (r: Option<usize>)
    requires
        from <= v@.len(),
    ensures
        match r {
            Some(c) => find_from(v@, b, from as int) == Some(c as int) && from <= c < v@.len(),
            None => find_from(v@, b, from as int) is None,
        },
{
    let mut i: usize = from;
    while i < v.len() && v[i] != b
        invariant
            from <= i <= v@.len(),
            find_from(v@, b, from as int) == find_from(v@, b, i as int),
        decreases v@.len() - i,
    {
        i = i + 1;
    }
    if i < v.len() {
        Some(i)
    } else {
        None
    }
}

/// Whether the comma-separated list `v` holds the element `tok`.
pub fn list_contains(v: &[u8], tok: &[u8]) -> (r: bool)
    ensures
        r == list_has_token(v@, tok@),
    decreases v@.len(),
{
    match find_comma(v, 0) {
        None => {
            proof {
                assert(v@.subrange(0, v@.len() as int) =~= v@);
            }
            segment_matches(v, 0, v.len(), tok)
        },
        Some(c) => {
            let n = v.len();
            assert(c < n);
            proof {
                assert(v@.take(c as int) =~= v@.subrange(0, c as int));
            }
            if segment_matches(v, 0, c, tok) {
                true
            } else {
                let rest = vstd::slice::slice_subrange(v, c + 1, n);
                proof {
                    assert(rest@ =~= v@.skip(c + 1));
                }
                list_contains(rest, tok)
            }
        },
    }
}

/// Copies a byte slice into a fresh vector.
pub fn copy_bytes(src: &[u8]) -> (r: Vec<u8>)
    ensures
        r@ == src@,
{
    let mut out: Vec<u8> = Vec::new();
    let mut i: usize = 0;
    while i < src.len()
        invariant
            i <= src@.len(),
            out@ == src@.take(i as int),
        decreases src@.len() - i,
    {
        out.push(src[i]);
        i = i + 1;
        proof {
            assert(out@ =~= src@.take(i as int));
        }
    }
    proof {
        assert(out@ =~= src@);
    }
    out
}

/// An ASCII decimal digit.
pub open spec fn is_digit(b: u8) -> bool {
    48 <= b && b <= 57
}

pub open spec fn all_digits(s: Seq<u8>) -> bool {
    forall|i: int| 0 <= i < s.len() ==> is_digit(s[i])
}

/// The integer a digit string denotes.
pub open spec fn dec_val(s: Seq<u8>) -> int
    decreases s.len(),
{
    if s.len() == 0 {
        0
    } else {
        dec_val(s.drop_last()) * 10 + (s.last() - 48)
    }
}

/// The `u64` a header value denotes as a decimal number: the value
/// trimmed of optional whitespace must be one or more digits and fit.
pub open spec fn dec_of(s: Seq<u8>) -> Option<u64> {
    let t = trim_ows(s);
    if t.len() > 0 && all_digits(t) && dec_val(t) <= u64::MAX {
        Some(dec_val(t) as u64)
    } else {
        None
    }
}

pub proof fn lemma_dec_val_nonneg(s: Seq<u8>)
    requires
        all_digits(s),
    ensures
        dec_val(s) >= 0,
    decreases s.len(),
{
    if s.len() > 0 {
        assert(all_digits(s.drop_last())) by {
            assert(forall|i: int|
                0 <= i < s.drop_last().len() ==> s.drop_last()[i] == s[i]);
        }
        lemma_dec_val_nonneg(s.drop_last());
    }
}

pub proof fn lemma_dec_val_prefix(s: Seq<u8>, j: int)
    requires
        all_digits(s),
        0 <= j <= s.len(),
    ensures
        dec_val(s) >= dec_val(s.take(j)),
    decreases s.len() - j,
{
    if j < s.len() {
        lemma_dec_val_prefix(s, j + 1);
        let p = s.take(j + 1);
        assert(p.drop_last() =~= s.take(j));
        assert(p.last() == s[j]);
        assert(all_digits(s.take(j))) by {
            assert(forall|i: int| 0 <= i < j ==> s.take(j)[i] == s[i]);
        }
        lemma_dec_val_nonneg(s.take(j));
        assert(is_digit(s[j]));
        assert(dec_val(p) == dec_val(s.take(j)) * 10 + (s[j] - 48));
        assert(dec_val(s.take(j)) * 10 >= dec_val(s.take(j)));
        assert(dec_val(s.take(j + 1)) >= dec_val(s.take(j)));
    } else {
        assert(s.take(j) =~= s);
    }
}

/// Parses a header value as a decimal `u64`, trimming optional
/// whitespace; rejects empty, non-digit, and oversized values.
pub fn parse_dec(v: &[u8]) -> (r: Option<u64>)
    ensures
        r == dec_of(v@),
{
    let n = v.len();
    let (lo, hi) = trimmed_range(v, 0, n);
    proof {
        assert(v@.subrange(0, n as int) =~= v@);
    }
    let ghost t = v@.subrange(lo as int, hi as int);
    if lo == hi {
        return None;
    }
    let mut acc: u64 = 0;
    let mut i: usize = lo;
    while i < hi
        invariant
            lo <= i <= hi <= v@.len(),
            t == v@.subrange(lo as int, hi as int),
            trim_ows(v@) == t,
            lo < hi,
            all_digits(t.take(i - lo)),
            acc == dec_val(t.take(i - lo)),
        decreases hi - i,
    {
        let b = v[i];
        if b < 48 || b > 57 {
            proof {
                assert(t[i - lo] == v@[i as int]);
                assert(!is_digit(t[i - lo]));
                assert(!all_digits(t));
            }
            return None;
        }
        let d = b - 48;
        proof {
            let p = t.take(i - lo + 1);
            assert(p.drop_last() =~= t.take(i - lo));
            assert(p.last() == t[i - lo]);
            assert(t[i - lo] == v@[i as int]);
        }
        if acc > (u64::MAX - (d as u64)) / 10 {
            proof {
                let j = i - lo + 1;
                assert(all_digits(t.take(j)));
                assert(dec_val(t.take(j)) == acc * 10 + d);
                assert(acc >= (u64::MAX - (d as u64)) / 10 + 1);
                assert((u64::MAX - (d as u64)) / 10 * 10 + (u64::MAX - (d as u64)) % 10
                    == u64::MAX - (d as u64));
                assert(acc * 10 >= ((u64::MAX - (d as u64)) / 10 + 1) * 10);
                assert(dec_val(t.take(j)) > u64::MAX);
                if all_digits(t) {
                    lemma_dec_val_prefix(t, j);
                    assert(dec_val(t) > u64::MAX);
                }
            }
            return None;
        }
        proof {
            assert(acc <= (u64::MAX - (d as u64)) / 10);
            assert((u64::MAX - (d as u64)) / 10 * 10 + (u64::MAX - (d as u64)) % 10
                == u64::MAX - (d as u64));
            assert(acc * 10 <= (u64::MAX - (d as u64)) / 10 * 10);
        }
        acc = acc * 10 + (d as u64);
        i = i + 1;
    }
    proof {
        assert(t.take(hi - lo) =~= t);
    }
    Some(acc)
}

/// One header line: a name and its value, both kept as raw bytes.
#[derive(Debug)]
pub struct Header {
    pub name: Vec<u8>,
    pub value: Vec<u8>,
}

/// The ordered header multi-map. Names compare case-insensitively;
/// duplicate names are preserved in insertion order.
#[derive(Debug)]
pub struct Headers {
    items: Vec<Header>,
}

/// Whether the pair's name equals `q`, case-insensitively.
pub open spec fn name_is(p: (Seq<u8>, Seq<u8>), q: Seq<u8>) -> bool {
    lower_seq(p.0) == lower_seq(q)
}

/// Whether some pair in `v` has the name `q`.
pub open spec fn spec_has_name(v: Seq<(Seq<u8>, Seq<u8>)>, q: Seq<u8>) -> bool {
    exists|i: int| 0 <= i < v.len() && name_is(v[i], q)
}

/// The value of the first pair named `q`.
pub open spec fn spec_first_value(v: Seq<(Seq<u8>, Seq<u8>)>, q: Seq<u8>) -> Option<Seq<u8>>
    decreases v.len(),
{
    if v.len() == 0 {
        None
    } else if name_is(v[0], q) {
        Some(v[0].1)
    } else {
        spec_first_value(v.skip(1), q)
    }
}

/// `v` with every pair named `q` removed, order otherwise kept.
pub open spec fn remove_name(v: Seq<(Seq<u8>, Seq<u8>)>, q: Seq<u8>) -> Seq<(Seq<u8>, Seq<u8>)>
    decreases v.len(),
{
    if v.len() == 0 {
        v
    } else if name_is(v.last(), q) {
        remove_name(v.drop_last(), q)
    } else {
        remove_name(v.drop_last(), q) + seq![v.last()]
    }
}

/// What the Content-Length headers, taken together, say.
#[derive(Clone, Copy, PartialEq, Eq, Structural, Debug)]
pub enum ContentLength {
    /// No Content-Length header is present.
    Absent,
    /// Every Content-Length header carries this one value.
    Value(u64),
    /// A Content-Length header is invalid, or two of them differ.
    Bad,
}

/// The Content-Length reading of a header list, pair by pair.
pub open spec fn spec_content_length(v: Seq<(Seq<u8>, Seq<u8>)>) -> ContentLength
    decreases v.len(),
{
    if v.len() == 0 {
        ContentLength::Absent
    } else {
        let rest = spec_content_length(v.drop_last());
        if !name_is(v.last(), content_length_name()) {
            rest
        } else {
            match dec_of(v.last().1) {
                None => ContentLength::Bad,
                Some(n) => match rest {
                    ContentLength::Absent => ContentLength::Value(n),
                    ContentLength::Value(m) => if m == n {
                        ContentLength::Value(m)
                    } else {
                        ContentLength::Bad
                    },
                    ContentLength::Bad => ContentLength::Bad,
                },
            }
        }
    }
}

/// Whether some Transfer-Encoding header lists `chunked`.
pub open spec fn spec_te_chunked(v: Seq<(Seq<u8>, Seq<u8>)>) -> bool {
    exists|i: int|
        0 <= i < v.len() && name_is(v[i], transfer_encoding_name()) && list_has_token(
            v[i].1,
            chunked_token(),
        )
}

/// Whether some Connection header lists the given option.
pub open spec fn spec_conn_has(v: Seq<(Seq<u8>, Seq<u8>)>, tok: Seq<u8>) -> bool {
    exists|i: int|
        0 <= i < v.len() && name_is(v[i], connection_name()) && list_has_token(v[i].1, tok)
}

pub open spec fn content_length_name() -> Seq<u8> {
    seq![99u8, 111u8, 110u8, 116u8, 101u8, 110u8, 116u8, 45u8, 108u8, 101u8, 110u8, 103u8, 116u8, 104u8]
}

pub open spec fn transfer_encoding_name() -> Seq<u8> {
    seq![116u8, 114u8, 97u8, 110u8, 115u8, 102u8, 101u8, 114u8, 45u8, 101u8, 110u8, 99u8, 111u8, 100u8, 105u8, 110u8, 103u8]
}

pub open spec fn connection_name() -> Seq<u8> {
    seq![99u8, 111u8, 110u8, 110u8, 101u8, 99u8, 116u8, 105u8, 111u8, 110u8]
}

pub open spec fn date_name() -> Seq<u8> {
    seq![100u8, 97u8, 116u8, 101u8]
}

pub open spec fn chunked_token() -> Seq<u8> {
    seq![99u8, 104u8, 117u8, 110u8, 107u8, 101u8, 100u8]
}

pub open spec fn close_token() -> Seq<u8> {
    seq![99u8, 108u8, 111u8, 115u8, 101u8]
}

pub open spec fn keep_alive_token() -> Seq<u8> {
    seq![107u8, 101u8, 101u8, 112u8, 45u8, 97u8, 108u8, 105u8, 118u8, 101u8]
}

/// The bytes `content-length`.
pub fn content_length_key() -> (r: [u8; 14])
    ensures
        r@ == content_length_name(),
{
    let a: [u8; 14] = [99u8, 111u8, 110u8, 116u8, 101u8, 110u8, 116u8, 45u8, 108u8, 101u8, 110u8, 103u8, 116u8, 104u8];
    proof {
        assert(a@ =~= content_length_name());
    }
    a
}

/// The bytes `transfer-encoding`.
pub fn transfer_encoding_key() -> (r: [u8; 17])
    ensures
        r@ == transfer_encoding_name(),
{
    let a: [u8; 17] = [116u8, 114u8, 97u8, 110u8, 115u8, 102u8, 101u8, 114u8, 45u8, 101u8, 110u8, 99u8, 111u8, 100u8, 105u8, 110u8, 103u8];
    proof {
        assert(a@ =~= transfer_encoding_name());
    }
    a
}

/// The bytes `connection`.
pub fn connection_key() -> (r: [u8; 10])
    ensures
        r@ == connection_name(),
{
    let a: [u8; 10] = [99u8, 111u8, 110u8, 110u8, 101u8, 99u8, 116u8, 105u8, 111u8, 110u8];
    proof {
        assert(a@ =~= connection_name());
    }
    a
}

/// The bytes `date`.
pub fn date_key() -> (r: [u8; 4])
    ensures
        r@ == date_name(),
{
    let a: [u8; 4] = [100u8, 97u8, 116u8, 101u8];
    proof {
        assert(a@ =~= date_name());
    }
    a
}

/// The name `Date` as written on the wire.
pub open spec fn date_wire_name() -> Seq<u8> {
    seq![68u8, 97u8, 116u8, 101u8]
}

/// The bytes `Date`.
pub fn date_wire_key() -> (r: [u8; 4])
    ensures
        r@ == date_wire_name(),
{
    let a: [u8; 4] = [68u8, 97u8, 116u8, 101u8];
    proof {
        assert(a@ =~= date_wire_name());
    }
    a
}

/// The name `Transfer-Encoding` as written on the wire.
pub open spec fn transfer_encoding_wire_name() -> Seq<u8> {
    seq![84u8, 114u8, 97u8, 110u8, 115u8, 102u8, 101u8, 114u8, 45u8, 69u8, 110u8, 99u8, 111u8, 100u8, 105u8, 110u8, 103u8]
}

/// The bytes `Transfer-Encoding`.
pub fn transfer_encoding_wire_key() -> (r: [u8; 17])
    ensures
        r@ == transfer_encoding_wire_name(),
{
    let a: [u8; 17] = [84u8, 114u8, 97u8, 110u8, 115u8, 102u8, 101u8, 114u8, 45u8, 69u8, 110u8, 99u8, 111u8, 100u8, 105u8, 110u8, 103u8];
    proof {
        assert(a@ =~= transfer_encoding_wire_name());
    }
    a
}

/// The bytes `chunked`.
pub fn chunked_bytes() -> (r: [u8; 7])
    ensures
        r@ == chunked_token(),
{
    let a: [u8; 7] = [99u8, 104u8, 117u8, 110u8, 107u8, 101u8, 100u8];
    proof {
        assert(a@ =~= chunked_token());
    }
    a
}

/// The bytes `close`.
pub fn close_bytes() -> (r: [u8; 5])
    ensures
        r@ == close_token(),
{
    let a: [u8; 5] = [99u8, 108u8, 111u8, 115u8, 101u8];
    proof {
        assert(a@ =~= close_token());
    }
    a
}

/// The bytes `keep-alive`.
pub fn keep_alive_bytes() -> (r: [u8; 10])
    ensures
        r@ == keep_alive_token(),
{
    let a: [u8; 10] = [107u8, 101u8, 101u8, 112u8, 45u8, 97u8, 108u8, 105u8, 118u8, 101u8];
    proof {
        assert(a@ =~= keep_alive_token());
    }
    a
}

/// The (name, value) byte pairs of a header list.
pub open spec fn pairs_of(items: Seq<Header>) -> Seq<(Seq<u8>, Seq<u8>)> {
    items.map_values(|h: Header| (h.name@, h.value@))
}

impl Headers {
    /// The headers as a sequence of (name, value) byte-sequence pairs.
    pub closed spec fn view(&self) -> Seq<(Seq<u8>, Seq<u8>)> {
        pairs_of(self.items@)
    }

    /// An empty header list.
    pub fn new() -> (r: Headers)
        ensures
            r@ == Seq::<(Seq<u8>, Seq<u8>)>::empty(),
    {
        let r = Headers { items: Vec::new() };
        proof {
            assert(r@ =~= Seq::<(Seq<u8>, Seq<u8>)>::empty());
        }
        r
    }

    /// The number of header lines.
    pub fn len(&self) -> (r: usize)
        ensures
            r == self@.len(),
    {
        self.items.len()
    }

    /// The name of the `i`-th header line.
    pub fn name_at(&self, i: usize) -> (r: Vec<u8>)
        requires
            i < self@.len(),
        ensures
            r@ == self@[i as int].0,
    {
        copy_bytes(self.items[i].name.as_slice())
    }

    /// The value of the `i`-th header line.
    pub fn value_at(&self, i: usize) -> (r: Vec<u8>)
        requires
            i < self@.len(),
        ensures
            r@ == self@[i as int].1,
    {
        copy_bytes(self.items[i].value.as_slice())
    }

    /// Appends a header line, keeping any existing lines of the same name.
    pub fn push(&mut self, name: Vec<u8>, value: Vec<u8>)
        ensures
            final(self)@ == old(self)@ + seq![(name@, value@)],
    {
        let ghost n = name@;
        let ghost v = value@;
        self.items.push(Header { name, value });
        proof {
            assert(self@ =~= old(self)@ + seq![(n, v)]);
        }
    }

    /// Whether a header with the given name exists.
    pub fn has(&self, q: &[u8]) -> (r: bool)
        ensures
            r == spec_has_name(self@, q@),
    {
        let mut i: usize = 0;
        while i < self.items.len()
            invariant
                i <= self@.len(),
                self@.len() == self.items@.len(),
                forall|k: int| 0 <= k < i ==> !name_is(self@[k], q@),
            decreases self@.len() - i,
        {
            if eq_ignore_case(self.items[i].name.as_slice(), q) {
                proof {
                    assert(name_is(self@[i as int], q@));
                }
                return true;
            }
            i = i + 1;
        }
        false
    }

    /// The value of the first header with the given name, copied out.
    pub fn get_first(&self, q: &[u8]) -> (r: Option<Vec<u8>>)
        ensures
            match r {
                Some(val) => spec_first_value(self@, q@) == Some(val@),
                None => spec_first_value(self@, q@) is None,
            },
    {
        let mut i: usize = 0;
        proof {
            assert(self@.skip(0) =~= self@);
        }
        while i < self.items.len()
            invariant
                i <= self@.len(),
                self@.len() == self.items@.len(),
                spec_first_value(self@, q@) == spec_first_value(self@.skip(i as int), q@),
            decreases self@.len() - i,
        {
            proof {
                let rest = self@.skip(i as int);
                assert(rest.len() > 0);
                assert(rest[0] == self@[i as int]);
                assert(rest.skip(1) =~= self@.skip(i + 1));
            }
            if eq_ignore_case(self.items[i].name.as_slice(), q) {
                return Some(copy_bytes(self.items[i].value.as_slice()));
            }
            i = i + 1;
        }
        proof {
            assert(self@.skip(self@.len() as int).len() == 0);
        }
        None
    }

    /// Replaces every header of the given name with the one line given.
    pub fn set(&mut self, name: Vec<u8>, value: Vec<u8>)
        ensures
            final(self)@ == remove_name(old(self)@, name@) + seq![(name@, value@)],
    {
        let mut kept: Vec<Header> = Vec::new();
        let ghost q = name@;
        let mut i: usize = 0;
        while i < self.items.len()
            invariant
                i <= self.items@.len(),
                self@ == old(self)@,
                self@.len() == self.items@.len(),
                q == name@,
                pairs_of(kept@) == remove_name(self@.take(i as int), q),
        decreases self.items@.len() - i,
        {
            proof {
                let p = self@.take(i + 1);
                assert(p.drop_last() =~= self@.take(i as int));
                assert(p.last() == self@[i as int]);
            }
            if !eq_ignore_case(self.items[i].name.as_slice(), name.as_slice()) {
                let nm = copy_bytes(self.items[i].name.as_slice());
                let vl = copy_bytes(self.items[i].value.as_slice());
                kept.push(Header { name: nm, value: vl });
                proof {
                    assert(pairs_of(kept@) =~= remove_name(self@.take(i + 1), q));
                }
            }
            i = i + 1;
        }
        proof {
            assert(self@.take(self@.len() as int) =~= self@);
        }
        kept.push(Header { name, value });
        self.items = kept;
        proof {
            assert(self@ =~= remove_name(old(self)@, q) + seq![(q, value@)]);
        }
    }

    /// Reads what the Content-Length headers, taken together, say.
    pub fn content_length(&self) -> (r: ContentLength)
        ensures
            r == spec_content_length(self@),
    {
        let key = content_length_key();
        let mut acc = ContentLength::Absent;
        let mut i: usize = 0;
        while i < self.items.len()
            invariant
                i <= self@.len(),
                self@.len() == self.items@.len(),
                key@ == content_length_name(),
                acc == spec_content_length(self@.take(i as int)),
            decreases self@.len() - i,
        {
            proof {
                let p = self@.take(i + 1);
                assert(p.drop_last() =~= self@.take(i as int));
                assert(p.last() == self@[i as int]);
            }
            if eq_ignore_case(self.items[i].name.as_slice(), key.as_slice()) {
                match parse_dec(self.items[i].value.as_slice()) {
                    None => {
                        acc = ContentLength::Bad;
                    },
                    Some(n) => {
                        acc = match acc {
                            ContentLength::Absent => ContentLength::Value(n),
                            ContentLength::Value(m) => if m == n {
                                ContentLength::Value(m)
                            } else {
                                ContentLength::Bad
                            },
                            ContentLength::Bad => ContentLength::Bad,
                        };
                    },
                }
            }
            i = i + 1;
        }
        proof {
            assert(self@.take(self@.len() as int) =~= self@);
        }
        acc
    }

    /// Whether some Transfer-Encoding header lists `chunked`.
    pub fn te_chunked(&self) -> (r: bool)
        ensures
            r == spec_te_chunked(self@),
    {
        let key = transfer_encoding_key();
        let tok = chunked_bytes();
        let mut i: usize = 0;
        while i < self.items.len()
            invariant
                i <= self@.len(),
                self@.len() == self.items@.len(),
                key@ == transfer_encoding_name(),
                tok@ == chunked_token(),
                forall|k: int|
                    0 <= k < i ==> !(name_is(self@[k], transfer_encoding_name())
                        && list_has_token(self@[k].1, chunked_token())),
            decreases self@.len() - i,
        {
            if eq_ignore_case(self.items[i].name.as_slice(), key.as_slice()) && list_contains(
                self.items[i].value.as_slice(),
                tok.as_slice(),
            ) {
                proof {
                    assert(name_is(self@[i as int], transfer_encoding_name())
                        && list_has_token(self@[i as int].1, chunked_token()));
                }
                return true;
            }
            i = i + 1;
        }
        false
    }

    /// Whether some Connection header lists the given option.
    pub fn connection_contains(&self, tok: &[u8]) -> (r: bool)
        ensures
            r == spec_conn_has(self@, tok@),
    {
        let key = connection_key();
        let mut i: usize = 0;
        while i < self.items.len()
            invariant
                i <= self@.len(),
                self@.len() == self.items@.len(),
                key@ == connection_name(),
                forall|k: int|
                    0 <= k < i ==> !(name_is(self@[k], connection_name()) && list_has_token(
                        self@[k].1,
                        tok@,
                    )),
            decreases self@.len() - i,
        {
            if eq_ignore_case(self.items[i].name.as_slice(), key.as_slice()) && list_contains(
                self.items[i].value.as_slice(),
                tok,
            ) {
                proof {
                    assert(name_is(self@[i as int], connection_name()) && list_has_token(
                        self@[i as int].1,
                        tok@,
                    ));
                }
                return true;
            }
            i = i + 1;
        }
        false
    }
}

} // verus!
