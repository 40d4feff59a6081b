//! The room protocol with 16-bit peer identifiers: requests from a client to
//! the server and events from the server to a client.
use vstd::prelude::*;

verus! {

pub type RoomID = u64;

pub type PeerID = u16;

/// Client to server.
#[derive(Clone, Debug, PartialEq, Eq)]
pub enum PeerRequest {
    KeepAlive,
    /// A signal for peer `0`.
    Signal(PeerID, String),
}

/// Server to client.
#[derive(Clone, Debug, PartialEq, Eq)]
pub enum PeerEvent {
    IdAssigned(PeerID),
    PeerConnect(PeerID),
    PeerDisconnect(PeerID),
    /// A signal from peer `0`.
    Signal(PeerID, String),
}

} // verus!
