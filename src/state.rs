use vstd::prelude::*;

verus! {

/// Lifecycle of a peer connection, as seen by an endpoint.
///
/// `NeverSeen` means the peer was never seen; `ConnectedUnverified` means the
/// transport session exists but the admission handshake has not completed;
/// `Connected` means the peer was admitted.
#[derive(Debug, Clone, Copy, PartialEq, Eq, Structural, Hash)]
pub enum ConnectionState {
    NeverSeen,
    Disconnected,
    Disconnecting,
    Connecting,
    ConnectedUnverified,
    Connected,
}

impl ConnectionState {
    /// Whether the state denotes an admitted peer.
    pub fn is_connected(&self) -> (r: bool)
        ensures
            r == (*self == ConnectionState::Connected),
    {
        match self {
            ConnectionState::Connected => true,
            _ => false,
        }
    }
}

} // verus!
