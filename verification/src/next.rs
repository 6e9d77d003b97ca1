//! The directive a handler hands back from every callback, and the
//! reactor-facing interest it translates to.

use vstd::prelude::*;

verus! {

/// What the handler asks the engine to do next.
#[derive(Clone, Copy, PartialEq, Eq, Structural, Debug)]
pub enum NextKind {
    /// Register read interest; the handler wants to consume bytes.
    Read,
    /// Register write interest; the handler wants to produce bytes.
    Write,
    /// Register both interests.
    ReadWrite,
    /// Register no interest; the handler is parked on an outside event.
    Wait,
    /// This half of the exchange is finished; evaluate keep-alive.
    End,
    /// Abort the connection unconditionally.
    Remove,
}

/// The registration the engine reports to the reactor after a transition.
#[derive(Clone, Copy, PartialEq, Eq, Structural, Debug)]
pub enum Reg {
    /// Wake the connection when the transport is readable.
    Read,
    /// Wake the connection when the transport is writable.
    Write,
    /// Wake the connection on either readiness.
    ReadWrite,
    /// Park the connection; deliver no I/O events.
    Wait,
    /// Deregister and drop the connection.
    Remove,
}

/// A handler directive: the next interest, plus an optional timeout in
/// milliseconds.
#[must_use]
#[derive(Clone, Copy, PartialEq, Eq, Structural, Debug)]
pub struct Next {
    pub interest: NextKind,
    pub timeout_ms: Option<u64>,
}

impl Next {
    /// Builds a directive with the given interest and no timeout.
    pub fn new(interest: NextKind) -> (r: Next)
        ensures
            r.interest == interest,
            r.timeout_ms is None,
    {
        Next { interest, timeout_ms: None }
    }

    /// The reactor registration this directive selects: `End` and `Remove`
    /// both deregister; the others map to their namesakes.
    pub open spec fn spec_interest(self) -> Reg {
        match self.interest {
            NextKind::Read => Reg::Read,
            NextKind::Write => Reg::Write,
            NextKind::ReadWrite => Reg::ReadWrite,
            NextKind::Wait => Reg::Wait,
            NextKind::End => Reg::Remove,
            NextKind::Remove => Reg::Remove,
        }
    }

    /// Maps the directive to the reactor registration it selects.
    pub fn interest(&self) -> (r: Reg)
        ensures
            r == self.spec_interest(),
    {
        match self.interest {
            NextKind::Read => Reg::Read,
            NextKind::Write => Reg::Write,
            NextKind::ReadWrite => Reg::ReadWrite,
            NextKind::Wait => Reg::Wait,
            NextKind::End => Reg::Remove,
            NextKind::Remove => Reg::Remove,
        }
    }

    /// Asks for read interest.
    pub fn read() -> (r: Next)
        ensures
            r.interest == NextKind::Read,
            r.timeout_ms is None,
    {
        Next::new(NextKind::Read)
    }

    /// Asks for write interest.
    pub fn write() -> (r: Next)
        ensures
            r.interest == NextKind::Write,
            r.timeout_ms is None,
    {
        Next::new(NextKind::Write)
    }

    /// Asks for both read and write interest.
    pub fn read_and_write() -> (r: Next)
        ensures
            r.interest == NextKind::ReadWrite,
            r.timeout_ms is None,
    {
        Next::new(NextKind::ReadWrite)
    }

    /// Declares this half of the exchange finished.
    pub fn end() -> (r: Next)
        ensures
            r.interest == NextKind::End,
            r.timeout_ms is None,
    {
        Next::new(NextKind::End)
    }

    /// Parks the connection with no I/O interest.
    pub fn wait() -> (r: Next)
        ensures
            r.interest == NextKind::Wait,
            r.timeout_ms is None,
    {
        Next::new(NextKind::Wait)
    }

    /// Aborts the connection.
    pub fn remove() -> (r: Next)
        ensures
            r.interest == NextKind::Remove,
            r.timeout_ms is None,
    {
        Next::new(NextKind::Remove)
    }

    /// Attaches a timeout, in milliseconds, to the directive.
    pub fn timeout(self, ms: u64) -> (r: Next)
        ensures
            r.interest == self.interest,
            r.timeout_ms == Some(ms),
    {
        Next { interest: self.interest, timeout_ms: Some(ms) }
    }
}

} // verus!
