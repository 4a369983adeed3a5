//! Errors of the shell session and of the transfer protocol. The variants
//! follow the failure taxonomy of the protocol: deadline expiry, transport
//! failure, protocol rejection past the retry budget, malformed data, and a
//! missing environment value.

use vstd::prelude::*;

use crate::channel::TransportError;

verus! {

/// A terminal failure of a session or transfer operation.
#[derive(Debug)]
pub enum UbootError {
    /// A single byte stayed unanswered past the whole per-byte deadline.
    Timeout,
    /// The underlying transport failed outright; the text tells how.
    Broken(String),
    /// The receiver rejected a block past the retry budget, or a command
    /// never produced its success marker; carries the last diagnostic text
    /// observed on the wire.
    Rejected(String),
    /// Data observed on the wire, or handed in, that cannot be what the
    /// protocol asks for; carries the offending text.
    InvalidData(String),
    /// The named environment variable has no value.
    NotFound(String),
}

/// Maps a transport failure to the session failure it means: an expired
/// poll window is a timeout, anything else a broken transport.
pub fn transport_err(e: TransportError) -> (r: UbootError)
    ensures
        e matches TransportError::TimedOut ==> r matches UbootError::Timeout,
        e matches TransportError::Broken(s) ==> r matches UbootError::Broken(t) && s == t,
        r matches UbootError::Timeout || r matches UbootError::Broken(_),
{
    match e {
        TransportError::TimedOut => UbootError::Timeout,
        TransportError::Broken(s) => UbootError::Broken(s),
    }
}

} // verus!
