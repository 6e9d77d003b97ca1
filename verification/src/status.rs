//! The raw status of a response: numeric code and reason phrase.

use vstd::prelude::*;

verus! {

/// A status code with the reason phrase that accompanied it on the
/// wire (or that will be written with it).
#[derive(Clone, PartialEq, Eq, Debug)]
pub struct RawStatus(pub u16, pub Vec<u8>);

pub open spec fn ok_reason() -> Seq<u8> {
    seq![79u8, 75u8]
}

impl RawStatus {
    /// A copy of this status.
    pub fn duplicate(&self) -> (r: RawStatus)
        ensures
            r.0 == self.0,
            r.1@ == self.1@,
    {
        RawStatus(self.0, crate::headers::copy_bytes(self.1.as_slice()))
    }
}

impl Default for RawStatus {
    /// The default status is `200 OK`.
    fn default() -> (r: RawStatus)
        ensures
            r.0 == 200,
            r.1@ == ok_reason(),
    {
        let a: [u8; 2] = [79u8, 75u8];
        let reason = crate::headers::copy_bytes(a.as_slice());
        proof {
            assert(a@ =~= ok_reason());
        }
        RawStatus(200, reason)
    }
}

} // verus!
