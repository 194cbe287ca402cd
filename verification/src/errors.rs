//! Error taxonomy of the client core.
//!
//! Every failure surfaces to its immediate caller; there is no internal
//! retry or backoff anywhere in the core.  The sole mandatory local recovery
//! is terminal-mode restoration, always executed before an error is
//! re-raised.

use vstd::prelude::*;

verus! {

/// The kinds of failure the core distinguishes.
#[derive(Clone, Copy, Debug, PartialEq, Eq, Structural)]
pub enum ClientError {
    /// Connect or handshake failure; fatal at startup.
    Transport,
    /// A malformed or unreadable frame; surfaced without retry.
    Frame,
    /// A remote channel-level failure; delegated upstream.
    SessionProtocol,
    /// A local terminal or file open/I-O failure; fatal to the affected loop.
    LocalIo,
    /// Failure to subscribe to resize signals; fatal to interactive startup.
    SignalSubscription,
}

impl ClientError {
    /// A short stable name for logging; the core never formats errors
    /// itself.
    pub fn describe(&self) -> (r: &'static str)
        ensures
            r@ == match self {
                ClientError::Transport => "transport failure"@,
                ClientError::Frame => "frame failure"@,
                ClientError::SessionProtocol => "session protocol failure"@,
                ClientError::LocalIo => "local i/o failure"@,
                ClientError::SignalSubscription => "signal subscription failure"@,
            },
    {
        match self {
            ClientError::Transport => "transport failure",
            ClientError::Frame => "frame failure",
            ClientError::SessionProtocol => "session protocol failure",
            ClientError::LocalIo => "local i/o failure",
            ClientError::SignalSubscription => "signal subscription failure",
        }
    }
}

} // verus!
