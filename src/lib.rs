//! Rendezvous and handshake core of a peer-to-peer game lobby: the signaling
//! codec, the lobby actor and registry of the relay server, the client's
//! peer-network state machine and lobby roster, and the fixed-capacity queues
//! that carry the client's events.

pub mod message;
pub mod codec;
pub mod lobby;
pub mod registry;
pub mod error;
pub mod peer_network;
pub mod roster;
pub mod protocol;
pub mod marker;
pub mod ring_buffer;
pub mod fixed_ring_buffer;
