//! The HTTP versions the engine speaks.

use vstd::prelude::*;

verus! {

/// An HTTP/1.x protocol version.
#[derive(Clone, Copy, PartialEq, Eq, Structural, Debug)]
pub enum HttpVersion {
    /// HTTP/1.0
    Http10,
    /// HTTP/1.1
    Http11,
}

impl HttpVersion {
    /// The bytes of the version as it appears on the wire.
    pub open spec fn spec_bytes(self) -> Seq<u8> {
        match self {
            HttpVersion::Http10 => seq![72u8, 84u8, 84u8, 80u8, 47u8, 49u8, 46u8, 48u8],
            HttpVersion::Http11 => seq![72u8, 84u8, 84u8, 80u8, 47u8, 49u8, 46u8, 49u8],
        }
    }

    /// Renders the version as it appears on the wire, `HTTP/1.0` or `HTTP/1.1`.
    pub fn wire_bytes(&self) -> (r: Vec<u8>)
        ensures
            r@ == self.spec_bytes(),
    {
        let mut v: Vec<u8> = Vec::new();
        v.push(72u8); // H
        v.push(84u8); // T
        v.push(84u8); // T
        v.push(80u8); // P
        v.push(47u8); // /
        v.push(49u8); // 1
        v.push(46u8); // .
        if matches!(*self, HttpVersion::Http10) {
            v.push(48u8); // 0
        } else {
            v.push(49u8); // 1
        }
        proof {
            assert(v@ =~= self.spec_bytes());
        }
        v
    }
}

impl Default for HttpVersion {
    /// Messages default to HTTP/1.1, as the engine's own heads do.
    fn default() -> (r: HttpVersion)
        ensures
            r == HttpVersion::Http11,
    {
        HttpVersion::Http11
    }
}

} // verus!
