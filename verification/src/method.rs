//! Request methods: the closed set of standard tokens plus an
//! extension fallback that keeps the wire text.

use vstd::prelude::*;

verus! {

/// An HTTP request method.
#[derive(Clone, Debug)]
pub enum Method {
    Options,
    Get,
    Post,
    Put,
    Delete,
    Head,
    Trace,
    Connect,
    Patch,
    /// Any other token, kept as it appeared on the wire.
    Extension(Vec<u8>),
}

pub open spec fn get_token() -> Seq<u8> {
    seq![71u8, 69u8, 84u8]
}

pub open spec fn head_token() -> Seq<u8> {
    seq![72u8, 69u8, 65u8, 68u8]
}

impl Method {
    /// The method as it appears on the wire.
    pub open spec fn spec_bytes(self) -> Seq<u8> {
        match self {
            Method::Options => seq![79u8, 80u8, 84u8, 73u8, 79u8, 78u8, 83u8],
            Method::Get => get_token(),
            Method::Post => seq![80u8, 79u8, 83u8, 84u8],
            Method::Put => seq![80u8, 85u8, 84u8],
            Method::Delete => seq![68u8, 69u8, 76u8, 69u8, 84u8, 69u8],
            Method::Head => head_token(),
            Method::Trace => seq![84u8, 82u8, 65u8, 67u8, 69u8],
            Method::Connect => seq![67u8, 79u8, 78u8, 78u8, 69u8, 67u8, 84u8],
            Method::Patch => seq![80u8, 65u8, 84u8, 67u8, 72u8],
            Method::Extension(v) => v@,
        }
    }

    /// Renders the method token.
    pub fn wire_bytes(&self) -> (r: Vec<u8>)
        ensures
            r@ == self.spec_bytes(),
    {
        match self {
            Method::Options => {
                let a: [u8; 7] = [79u8, 80u8, 84u8, 73u8, 79u8, 78u8, 83u8];
                let r = crate::headers::copy_bytes(a.as_slice());
                proof {
                    assert(a@ =~= self.spec_bytes());
                }
                r
            },
            Method::Get => {
                let a: [u8; 3] = [71u8, 69u8, 84u8];
                let r = crate::headers::copy_bytes(a.as_slice());
                proof {
                    assert(a@ =~= self.spec_bytes());
                }
                r
            },
            Method::Post => {
                let a: [u8; 4] = [80u8, 79u8, 83u8, 84u8];
                let r = crate::headers::copy_bytes(a.as_slice());
                proof {
                    assert(a@ =~= self.spec_bytes());
                }
                r
            },
            Method::Put => {
                let a: [u8; 3] = [80u8, 85u8, 84u8];
                let r = crate::headers::copy_bytes(a.as_slice());
                proof {
                    assert(a@ =~= self.spec_bytes());
                }
                r
            },
            Method::Delete => {
                let a: [u8; 6] = [68u8, 69u8, 76u8, 69u8, 84u8, 69u8];
                let r = crate::headers::copy_bytes(a.as_slice());
                proof {
                    assert(a@ =~= self.spec_bytes());
                }
                r
            },
            Method::Head => {
                let a: [u8; 4] = [72u8, 69u8, 65u8, 68u8];
                let r = crate::headers::copy_bytes(a.as_slice());
                proof {
                    assert(a@ =~= self.spec_bytes());
                }
                r
            },
            Method::Trace => {
                let a: [u8; 5] = [84u8, 82u8, 65u8, 67u8, 69u8];
                let r = crate::headers::copy_bytes(a.as_slice());
                proof {
                    assert(a@ =~= self.spec_bytes());
                }
                r
            },
            Method::Connect => {
                let a: [u8; 7] = [67u8, 79u8, 78u8, 78u8, 69u8, 67u8, 84u8];
                let r = crate::headers::copy_bytes(a.as_slice());
                proof {
                    assert(a@ =~= self.spec_bytes());
                }
                r
            },
            Method::Patch => {
                let a: [u8; 5] = [80u8, 65u8, 84u8, 67u8, 72u8];
                let r = crate::headers::copy_bytes(a.as_slice());
                proof {
                    assert(a@ =~= self.spec_bytes());
                }
                r
            },
            Method::Extension(v) => crate::headers::copy_bytes(v.as_slice()),
        }
    }

    /// True for `GET`.
    pub fn is_get(&self) -> (r: bool)
        ensures
            r == (self.spec_bytes() == get_token()),
    {
        match self {
            Method::Get => true,
            Method::Extension(v) => {
                let a: [u8; 3] = [71u8, 69u8, 84u8];
                let eq = bytes_equal(v.as_slice(), a.as_slice());
                proof {
                    assert(a@ =~= get_token());
                }
                eq
            },
            _ => {
                proof {
                    lemma_std_tokens_distinct();
                }
                false
            },
        }
    }

    /// True for `CONNECT`.
    pub fn is_connect(&self) -> (r: bool)
        ensures
            r == (self.spec_bytes() == Method::Connect.spec_bytes()),
    {
        match self {
            Method::Connect => true,
            Method::Extension(v) => {
                let a: [u8; 7] = [67u8, 79u8, 78u8, 78u8, 69u8, 67u8, 84u8];
                let eq = bytes_equal(v.as_slice(), a.as_slice());
                proof {
                    assert(a@ =~= Method::Connect.spec_bytes());
                }
                eq
            },
            _ => {
                proof {
                    lemma_std_tokens_differ();
                    assert(self.spec_bytes() != Method::Connect.spec_bytes());
                }
                false
            },
        }
    }

    /// True for `HEAD`.
    pub fn is_head(&self) -> (r: bool)
        ensures
            r == (self.spec_bytes() == head_token()),
    {
        match self {
            Method::Head => true,
            Method::Extension(v) => {
                let a: [u8; 4] = [72u8, 69u8, 65u8, 68u8];
                let eq = bytes_equal(v.as_slice(), a.as_slice());
                proof {
                    assert(a@ =~= head_token());
                }
                eq
            },
            _ => {
                proof {
                    lemma_std_tokens_distinct();
                }
                false
            },
        }
    }
}

/// The standard tokens differ from one another.
proof fn lemma_std_tokens_distinct()
    ensures
        forall|m: Method| !(m is Extension) && !(m is Get) ==> m.spec_bytes() != get_token(),
        forall|m: Method| !(m is Extension) && !(m is Head) ==> m.spec_bytes() != head_token(),
{
    assert forall|m: Method| !(m is Extension) && !(m is Get) implies m.spec_bytes()
        != get_token() by {
        if m.spec_bytes().len() == get_token().len() {
            assert(m.spec_bytes()[0] != get_token()[0] || m.spec_bytes()[1] != get_token()[1]);
        }
    }
    assert forall|m: Method| !(m is Extension) && !(m is Head) implies m.spec_bytes()
        != head_token() by {
        if m.spec_bytes().len() == head_token().len() {
            assert(m.spec_bytes()[0] != head_token()[0] || m.spec_bytes()[1] != head_token()[1]);
        }
    }
}

/// Exact byte-string equality.
pub fn bytes_equal(a: &[u8], b: &[u8]) -> (r: bool)
    ensures
        r == (a@ == b@),
{
    if a.len() != b.len() {
        return false;
    }
    let mut i: usize = 0;
    while i < a.len()
        invariant
            i <= a@.len(),
            a@.len() == b@.len(),
            forall|k: int| 0 <= k < i ==> a@[k] == b@[k],
        decreases a@.len() - i,
    {
        if a[i] != b[i] {
            return false;
        }
        i = i + 1;
    }
    proof {
        assert(a@ =~= b@);
    }
    true
}

/// Parses a method token. A standard token becomes its variant; any
/// other token is kept as an extension, so the wire bytes are always
/// recoverable and each standard variant is returned exactly for its
/// own token.
pub fn parse_method(v: &[u8]) -> (r: Method)
    ensures
        r.spec_bytes() == v@,
        (r is Get) == (v@ == get_token()),
        (r is Head) == (v@ == head_token()),
        (r is Post) == (v@ == Method::Post.spec_bytes()),
        (r is Put) == (v@ == Method::Put.spec_bytes()),
        (r is Delete) == (v@ == Method::Delete.spec_bytes()),
        (r is Options) == (v@ == Method::Options.spec_bytes()),
        (r is Trace) == (v@ == Method::Trace.spec_bytes()),
        (r is Connect) == (v@ == Method::Connect.spec_bytes()),
        (r is Patch) == (v@ == Method::Patch.spec_bytes()),
{
    let g: [u8; 3] = [71u8, 69u8, 84u8];
    let h: [u8; 4] = [72u8, 69u8, 65u8, 68u8];
    let p: [u8; 4] = [80u8, 79u8, 83u8, 84u8];
    let pu: [u8; 3] = [80u8, 85u8, 84u8];
    let d: [u8; 6] = [68u8, 69u8, 76u8, 69u8, 84u8, 69u8];
    let o: [u8; 7] = [79u8, 80u8, 84u8, 73u8, 79u8, 78u8, 83u8];
    let t: [u8; 5] = [84u8, 82u8, 65u8, 67u8, 69u8];
    let c: [u8; 7] = [67u8, 79u8, 78u8, 78u8, 69u8, 67u8, 84u8];
    let pa: [u8; 5] = [80u8, 65u8, 84u8, 67u8, 72u8];
    proof {
        assert(g@ =~= get_token());
        assert(h@ =~= head_token());
        assert(p@ =~= Method::Post.spec_bytes());
        assert(pu@ =~= Method::Put.spec_bytes());
        assert(d@ =~= Method::Delete.spec_bytes());
        assert(o@ =~= Method::Options.spec_bytes());
        assert(t@ =~= Method::Trace.spec_bytes());
        assert(c@ =~= Method::Connect.spec_bytes());
        assert(pa@ =~= Method::Patch.spec_bytes());
        lemma_std_tokens_differ();
    }
    if bytes_equal(v, g.as_slice()) {
        return Method::Get;
    }
    if bytes_equal(v, h.as_slice()) {
        return Method::Head;
    }
    if bytes_equal(v, p.as_slice()) {
        return Method::Post;
    }
    if bytes_equal(v, pu.as_slice()) {
        return Method::Put;
    }
    if bytes_equal(v, d.as_slice()) {
        return Method::Delete;
    }
    if bytes_equal(v, o.as_slice()) {
        return Method::Options;
    }
    if bytes_equal(v, t.as_slice()) {
        return Method::Trace;
    }
    if bytes_equal(v, c.as_slice()) {
        return Method::Connect;
    }
    if bytes_equal(v, pa.as_slice()) {
        return Method::Patch;
    }
    Method::Extension(crate::headers::copy_bytes(v))
}

/// The nine standard tokens are pairwise distinct.
pub proof fn lemma_std_tokens_differ()
    ensures
        forall|a: Method, b: Method|
            !(a is Extension) && !(b is Extension) && !(a == b) ==> #[trigger] a.spec_bytes()
                != #[trigger] b.spec_bytes(),
{
    assert forall|a: Method, b: Method|
        !(a is Extension) && !(b is Extension) && !(a == b) implies #[trigger] a.spec_bytes()
        != #[trigger] b.spec_bytes() by {
        let x = a.spec_bytes();
        let y = b.spec_bytes();
        if x.len() == y.len() {
            assert(x[0] != y[0] || x[1] != y[1]);
        }
    }
}

} // verus!
