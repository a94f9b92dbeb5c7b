use vstd::prelude::*;

verus! {

/// Failures that the networking core reports.
#[derive(Debug, Clone, PartialEq, Eq)]
pub enum NetError {
    /// The transport's process-wide initialisation failed.
    TransportUnavailable,
    /// Listening or connecting failed.
    SocketCreateFailed,
    /// `connect` was called while a session is open or being opened.
    AlreadyConnected,
    /// A client send was attempted before a socket was opened.
    NotConnected,
    /// A send named an identity that has no transport handle.
    UnknownPeer,
    /// A frame could not be encoded.
    EncodeFailed,
    /// A byte sequence is not a well-formed envelope.
    DecodeFailed,
    /// A command handler with this name is registered already.
    AlreadyRegistered(String),
    /// A callback re-entered the core in a forbidden way.
    ReentrancyViolation,
    /// The transport refused a message for one recipient.
    TransportError,
}

} // verus!
