//! The duplex byte channel the session runs on: two independently owned
//! capabilities, one that writes bytes and one that reads them, plus a
//! progress listener for transfers. Implementations live with the caller
//! (a serial port, a pipe, a simulated loopback); the session's logic is
//! verified for every behaviour an implementation may show, so none of
//! these methods promises anything about the bytes that flow.

use vstd::prelude::*;

verus! {

/// Why a single send or receive attempt yielded nothing.
#[derive(Debug)]
pub enum TransportError {
    /// No byte arrived within the transport's own short poll window.
    TimedOut,
    /// The transport failed; the text tells how.
    Broken(String),
}

/// The write half of the duplex byte channel.
pub trait TxChannel {
    /// Writes all of `data` to the remote side.
    fn send_bytes(&mut self, data: &[u8]) -> Result<(), TransportError>;

    /// Pushes any buffered bytes out to the remote side.
    fn flush(&mut self) -> Result<(), TransportError>;
}

/// The read half of the duplex byte channel.
pub trait RxChannel {
    /// Blocks up to the transport's short poll window for one byte.
    fn poll_byte(&mut self) -> Result<u8, TransportError>;

    /// Reads and discards whatever bytes are promptly available.
    fn drain(&mut self);

    /// Milliseconds of a monotonic clock, used to turn the transport's
    /// short poll windows into one coherent per-byte deadline.
    fn now_millis(&mut self) -> u64;

    /// Waits briefly before a retry; the default does not wait.
    fn backoff(&mut self) {
    }
}

/// Listener for transfer progress.
pub trait ProgressSink {
    /// Called after every block with the cumulative count of payload bytes
    /// sent so far.
    fn on_progress(&mut self, sent: usize);
}

} // verus!
