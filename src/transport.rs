use vstd::prelude::*;

verus! {

/// Connection states reported by the transport in its state-change events.
#[derive(Debug, Clone, Copy, PartialEq, Eq, Structural, Hash)]
pub enum TransportState {
    /// No connection (the transport's "none").
    Inactive,
    Connecting,
    FindingRoute,
    Connected,
    ClosedByPeer,
    ProblemDetectedLocally,
    FinWait,
    Linger,
    Dead,
}

/// Whether a transition ends a session: from `Connecting` or `Connected` to
/// `ClosedByPeer`, `Inactive` or `ProblemDetectedLocally`.
pub open spec fn is_session_end(from: TransportState, to: TransportState) -> bool {
    (from == TransportState::Connecting || from == TransportState::Connected) && (to
        == TransportState::ClosedByPeer || to == TransportState::Inactive || to
        == TransportState::ProblemDetectedLocally)
}

/// Executable [`is_session_end`].
pub fn session_ended(from: TransportState, to: TransportState) -> (r: bool)
    ensures
        r == is_session_end(from, to),
{
    let from_live = match from {
        TransportState::Connecting | TransportState::Connected => true,
        _ => false,
    };
    let to_closed = match to {
        TransportState::ClosedByPeer | TransportState::Inactive
        | TransportState::ProblemDetectedLocally => true,
        _ => false,
    };
    from_live && to_closed
}

/// Reason code used for every close.
pub const CLOSE_REASON_CODE: i32 = 0;

/// Close reason when the admission callback refuses a peer.
pub const REFUSED_REASON: &'static str = "You are not allowed to connect";

/// Close reason when a peer did not complete the handshake in time.
pub const UNVERIFIED_REASON: &'static str = "Unverified";

/// A batch to hand to the transport: one payload for each of `connections`.
#[derive(Debug)]
pub struct Outgoing {
    pub connections: Vec<u32>,
    pub reliable: bool,
    pub payload: Vec<u8>,
}

/// Model of an [`Outgoing`] batch.
pub struct OutgoingView {
    pub connections: Seq<u32>,
    pub reliable: bool,
    pub payload: Seq<u8>,
}

impl View for Outgoing {
    type V = OutgoingView;

    open spec fn view(&self) -> OutgoingView {
        OutgoingView { connections: self.connections@, reliable: self.reliable, payload: self.payload@ }
    }
}

/// A payload for the client's single connection.
#[derive(Debug)]
pub struct Packet {
    pub reliable: bool,
    pub payload: Vec<u8>,
}

} // verus!
