//! A verified HTTP/1.x protocol engine.
//!
//! The crate drives one connection's worth of HTTP/1 message exchange:
//! it parses incoming request or status heads, selects body framing
//! (Content-Length, chunked, close-delimited, or empty), runs a handler
//! through a small event interface, emits outgoing heads and bodies, and
//! decides whether the connection is kept alive for another exchange.
//! All transport I/O happens outside: callers feed bytes in and carry
//! bytes out, so every decision the engine makes is verified.

use vstd::prelude::*;

pub mod buffer;
pub mod client;
pub mod conn;
pub mod date;
pub mod decode;
pub mod encode;
pub mod events;
pub mod headers;
pub mod http;
pub mod method;
pub mod next;
pub mod parse;
pub mod pool;
pub mod status;
pub mod version;

verus! {

/// Errors the engine distinguishes. Every kind other than a transport
/// "would block" closes the connection.
#[derive(Clone, Copy, PartialEq, Eq, Structural, Debug)]
pub enum Error {
    /// An invalid request line, status line, or header line.
    Method,
    /// An invalid request target.
    Uri,
    /// An HTTP version other than 1.0 or 1.1.
    Version,
    /// Contradictory or unparsable framing headers.
    Header,
    /// Too many headers, or a head larger than the buffer cap.
    TooLarge,
    /// An invalid status code.
    Status,
    /// The transport reached EOF while a message was still expected.
    Eof,
}

} // verus!
