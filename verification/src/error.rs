//! The failures a connection can report.

use vstd::prelude::*;

verus! {

/// Why a frame, a request or a whole connection failed.
///
/// A typed error that a request handler returns is not among these: it is
/// delivered to the caller as an ordinary payload.
#[derive(Clone, Copy, Debug, PartialEq, Eq, Structural)]
pub enum Error {
    /// A value cannot be stored in a frame, or a frame cannot be written.
    Encoding,
    /// The bytes on the wire are not a frame, or the frame does not start
    /// with a known kind.
    Framing,
    /// The next section of a frame is absent or holds another type.
    Decoding,
    /// The underlying stream failed or ended in the middle of a frame.
    Io,
    /// A request names no registered handler.
    UnknownRequest,
    /// The request was abandoned or the connection closed before a reply.
    Cancelled,
}

} // verus!
