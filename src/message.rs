//! The values carried over the signaling socket and over the peer channels,
//! with their mathematical views.
use vstd::prelude::*;

verus! {

/// Identifier of a lobby: random, unique among the live lobbies.
pub type LobbyId = u64;

/// Identifier of a participant within one lobby, assigned in order of joining.
pub type MemberId = u32;

/// One network-reachability candidate discovered while setting up a peer
/// connection: the candidate line, its media stream identification tag and
/// its media line index.
#[derive(Clone, Debug, PartialEq, Eq)]
pub struct IceCandidate {
    pub candidate: String,
    pub sdp_mid: Option<String>,
    pub sdp_m_line_index: Option<u16>,
}

pub struct CandidateView {
    pub candidate: Seq<char>,
    pub sdp_mid: Option<Seq<char>>,
    pub sdp_m_line_index: Option<u16>,
}

impl View for IceCandidate {
    type V = CandidateView;

    open spec fn view(&self) -> CandidateView {
        CandidateView {
            candidate: self.candidate@,
            sdp_mid: match self.sdp_mid {
                None => None,
                Some(s) => Some(s@),
            },
            sdp_m_line_index: self.sdp_m_line_index,
        }
    }
}

pub open spec fn candidates_view(cs: Seq<IceCandidate>) -> Seq<CandidateView> {
    cs.map_values(|c: IceCandidate| c@)
}

/// One complete handshake step from `source_id` to `target_id`: the local
/// session description (an offer or an answer) and every candidate gathered
/// for it, sent as one unit.
#[derive(Clone, Debug, PartialEq, Eq)]
pub struct PeerHandshake {
    pub source_id: MemberId,
    pub target_id: MemberId,
    pub sdp_description: String,
    pub ice_candidates: Vec<IceCandidate>,
}

pub struct HandshakeView {
    pub source_id: MemberId,
    pub target_id: MemberId,
    pub sdp_description: Seq<char>,
    pub ice_candidates: Seq<CandidateView>,
}

impl View for PeerHandshake {
    type V = HandshakeView;

    open spec fn view(&self) -> HandshakeView {
        HandshakeView {
            source_id: self.source_id,
            target_id: self.target_id,
            sdp_description: self.sdp_description@,
            ice_candidates: candidates_view(self.ice_candidates@),
        }
    }
}

/// A message on the signaling socket.
#[derive(Clone, Debug, PartialEq, Eq)]
pub enum WebSocketMessage {
    /// Sent by the relay once, to a socket that has just joined a lobby: the
    /// lobby, the identifier assigned to the new member and the identifiers of
    /// the members that were already there.
    ConnectSuccess { lobby_id: LobbyId, user_id: MemberId, peers_id: Vec<MemberId> },
    /// A handshake step, addressed to its `target_id` and relayed unchanged.
    PeerHandshake(PeerHandshake),
}

pub enum MessageView {
    ConnectSuccess { lobby_id: LobbyId, user_id: MemberId, peers_id: Seq<MemberId> },
    PeerHandshake(HandshakeView),
}

impl View for WebSocketMessage {
    type V = MessageView;

    open spec fn view(&self) -> MessageView {
        match self {
            WebSocketMessage::ConnectSuccess { lobby_id, user_id, peers_id } => {
                MessageView::ConnectSuccess {
                    lobby_id: *lobby_id,
                    user_id: *user_id,
                    peers_id: peers_id@,
                }
            },
            WebSocketMessage::PeerHandshake(h) => MessageView::PeerHandshake(h@),
        }
    }
}

impl From<PeerHandshake> for WebSocketMessage {
    /// A handshake as the signaling message that carries it.
    fn from(h: PeerHandshake) -> (r: WebSocketMessage) {
        WebSocketMessage::PeerHandshake(h)
    }
}

impl vstd::std_specs::convert::FromSpecImpl<PeerHandshake> for WebSocketMessage {
    open spec fn obeys_from_spec() -> bool {
        true
    }

    open spec fn from_spec(h: PeerHandshake) -> WebSocketMessage {
        WebSocketMessage::PeerHandshake(h)
    }
}

/// The application message exchanged between peers once their channel is open.
#[derive(Clone, Debug, PartialEq, Eq)]
pub enum PeerMessage {
    Ping,
    Pong(String),
}

pub enum PeerMessageView {
    Ping,
    Pong(Seq<char>),
}

impl View for PeerMessage {
    type V = PeerMessageView;

    open spec fn view(&self) -> PeerMessageView {
        match self {
            PeerMessage::Ping => PeerMessageView::Ping,
            PeerMessage::Pong(s) => PeerMessageView::Pong(s@),
        }
    }
}

/// Every message on a peer channel names its sender, so that the receiver can
/// attribute it without a side channel.
#[derive(Clone, Debug, PartialEq, Eq)]
pub struct MessageEnvelope {
    pub sender_id: MemberId,
    pub payload: PeerMessage,
}

pub struct EnvelopeView {
    pub sender_id: MemberId,
    pub payload: PeerMessageView,
}

impl View for MessageEnvelope {
    type V = EnvelopeView;

    open spec fn view(&self) -> EnvelopeView {
        EnvelopeView { sender_id: self.sender_id, payload: self.payload@ }
    }
}

} // verus!
