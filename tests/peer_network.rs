use yahtzee_signaling::codec::{decode_envelope, encode_envelope};
use yahtzee_signaling::message::{IceCandidate, MessageEnvelope, PeerHandshake, PeerMessage};
use yahtzee_signaling::codec::encode_message;
use yahtzee_signaling::message::WebSocketMessage;
use yahtzee_signaling::peer_network::{
    HandshakeRole, PeerConnectionState, PeerNetwork, PeerNetworkEvent, SignalOutcome,
};

fn candidate(k: u16) -> IceCandidate {
    IceCandidate {
        candidate: format!("candidate:{k} 1 udp 1 10.0.0.{k} 5000 typ host"),
        sdp_mid: Some("0".to_string()),
        sdp_m_line_index: Some(k),
    }
}

fn answer_from(source: u32, target: u32) -> PeerHandshake {
    PeerHandshake { source_id: source, target_id: target, sdp_description: "answer".to_string(), ice_candidates: vec![candidate(1)] }
}

#[test]
fn initiate_creates_connecting_state_once() {
    let mut net = PeerNetwork::new(7);
    assert!(net.initiate_handshake(42));
    assert!(net.is_connecting(42));
    assert!(!net.initiate_handshake(42));
    assert!(net.is_connecting(42));
    assert_eq!(net.user_id(), 7);
}

#[test]
fn answer_alone_does_not_connect() {
    let mut net = PeerNetwork::new(0);
    net.initiate_handshake(42);
    let h = answer_from(42, 0);
    match net.receive_handshake(h.clone()) {
        HandshakeRole::Answer(back) => assert_eq!(back, h),
        HandshakeRole::Offer(_) => panic!("a handshake from a peer we called is an answer"),
    }
    assert!(net.is_connecting(42));
    assert!(!net.is_connected(42));
    assert!(matches!(net.channel_opened(42), Some(PeerNetworkEvent::Connect(42))));
    assert!(net.is_connected(42));
    assert!(!net.is_connecting(42));
}

#[test]
fn unknown_source_is_an_offer() {
    let mut net = PeerNetwork::new(1);
    let h = answer_from(0, 1);
    assert!(matches!(net.receive_handshake(h), HandshakeRole::Offer(_)));
    assert!(net.is_connecting(0));
}

#[test]
fn five_candidates_make_one_handshake() {
    let mut net = PeerNetwork::new(0);
    net.initiate_handshake(1);
    net.set_local_description(1, "offer-sdp".to_string());
    for k in 0..5u16 {
        assert!(net.ice_candidate(1, Some(candidate(k))).is_none());
    }
    match net.ice_candidate(1, None) {
        Some(PeerNetworkEvent::Handshake(h)) => {
            assert_eq!(h.source_id, 0);
            assert_eq!(h.target_id, 1);
            assert_eq!(h.sdp_description, "offer-sdp");
            assert_eq!(h.ice_candidates, (0..5u16).map(candidate).collect::<Vec<_>>());
        }
        _ => panic!("expected exactly one handshake"),
    }
    assert!(net.is_connecting(1));
}

#[test]
fn candidates_for_unknown_or_connected_peer_are_ignored() {
    let mut net = PeerNetwork::new(0);
    assert!(net.ice_candidate(3, Some(candidate(1))).is_none());
    assert!(net.ice_candidate(3, None).is_none());
    net.initiate_handshake(3);
    net.channel_opened(3);
    assert!(net.ice_candidate(3, None).is_none());
    assert!(net.is_connected(3));
}

#[test]
fn send_to_unconnected_peer_does_nothing() {
    let mut net = PeerNetwork::new(0);
    assert_eq!(net.send(5, &PeerMessage::Ping), None);
    net.initiate_handshake(5);
    assert_eq!(net.send(5, &PeerMessage::Ping), None);
    assert!(net.is_connecting(5));
}

#[test]
fn send_to_connected_peer_frames_envelope() {
    let mut net = PeerNetwork::new(4);
    net.initiate_handshake(5);
    net.channel_opened(5);
    let bytes = net.send(5, &PeerMessage::Pong("Bo".to_string())).unwrap();
    assert_eq!(bytes, encode_envelope(4, &PeerMessage::Pong("Bo".to_string())));
    assert_eq!(
        decode_envelope(&bytes),
        Some(MessageEnvelope { sender_id: 4, payload: PeerMessage::Pong("Bo".to_string()) })
    );
}

#[test]
fn broadcast_reaches_connected_peers_only() {
    let mut net = PeerNetwork::new(0);
    for p in [1u32, 2, 3, 4] {
        net.initiate_handshake(p);
    }
    net.channel_opened(2);
    net.channel_opened(4);
    let (bytes, mut targets) = net.broadcast(&PeerMessage::Ping);
    targets.sort();
    assert_eq!(targets, vec![2, 4]);
    assert_eq!(bytes, vec![0, 0, 0, 0, 0, 0, 0, 0]);
}

#[test]
fn teardown_removes_state_and_reports() {
    let mut net = PeerNetwork::new(0);
    net.initiate_handshake(8);
    net.channel_opened(8);
    assert!(net.connection_state_changed(8, PeerConnectionState::Connected).is_none());
    assert!(net.is_connected(8));
    assert!(matches!(net.connection_state_changed(8, PeerConnectionState::Failed), Some(PeerNetworkEvent::Disconnect(8))));
    assert!(!net.is_connected(8));
    assert!(!net.is_connecting(8));
    assert!(net.connection_state_changed(8, PeerConnectionState::Closed).is_none());
    assert!(net.initiate_handshake(8));
}

#[test]
fn closed_and_disconnected_tear_down_too() {
    let mut net = PeerNetwork::new(0);
    net.initiate_handshake(1);
    net.initiate_handshake(2);
    assert!(matches!(net.connection_state_changed(1, PeerConnectionState::Closed), Some(PeerNetworkEvent::Disconnect(1))));
    assert!(matches!(net.connection_state_changed(2, PeerConnectionState::Disconnected), Some(PeerNetworkEvent::Disconnect(2))));
    assert!(net.connection_state_changed(2, PeerConnectionState::New).is_none());
}

#[test]
fn bad_frame_is_dropped_and_connection_stays() {
    let mut net = PeerNetwork::new(0);
    net.initiate_handshake(1);
    net.channel_opened(1);
    assert!(net.receive_message(&[1, 2]).is_none());
    assert!(net.is_connected(1));
    match net.receive_message(&encode_envelope(1, &PeerMessage::Ping)) {
        Some(PeerNetworkEvent::Message(1, PeerMessage::Ping)) => {}
        _ => panic!("expected a ping from 1"),
    }
}

#[test]
fn set_user_id_changes_source_of_new_handshakes() {
    let mut net = PeerNetwork::new(0);
    net.set_user_id(9);
    net.initiate_handshake(2);
    match net.ice_candidate(2, None) {
        Some(PeerNetworkEvent::Handshake(h)) => {
            assert_eq!(h.source_id, 9);
            assert_eq!(h.target_id, 2);
            assert!(h.ice_candidates.is_empty());
        }
        _ => panic!("expected a handshake"),
    }
}

#[test]
fn failed_handshake_step_drops_state() {
    let mut net = PeerNetwork::new(0);
    assert!(net.handshake_failed(3).is_none());
    net.initiate_handshake(3);
    assert!(matches!(net.handshake_failed(3), Some(PeerNetworkEvent::Disconnect(3))));
    assert!(!net.is_connecting(3));
    assert!(net.initiate_handshake(3));
}

#[test]
fn open_report_without_handshake_reports_nothing() {
    let mut net = PeerNetwork::new(0);
    assert!(net.channel_opened(6).is_none());
    assert!(!net.is_connected(6));
    net.initiate_handshake(6);
    assert!(net.channel_opened(6).is_some());
    assert!(net.channel_opened(6).is_none());
    assert!(net.is_connected(6));
}

#[test]
fn malformed_signal_asks_to_close() {
    let mut net = PeerNetwork::new(0);
    net.initiate_handshake(1);
    assert!(matches!(net.signal(&[7, 7, 7]), SignalOutcome::Close));
    assert!(net.is_connecting(1));
}

#[test]
fn signal_greeting_starts_offers() {
    let mut net = PeerNetwork::new(0);
    let hello = encode_message(&WebSocketMessage::ConnectSuccess { lobby_id: 8, user_id: 3, peers_id: vec![0, 2] });
    match net.signal(&hello) {
        SignalOutcome::Joined { lobby_id, user_id, peers_id, offers } => {
            assert_eq!((lobby_id, user_id), (8, 3));
            assert_eq!(peers_id, vec![0, 2]);
            assert_eq!(offers, vec![0, 2]);
        }
        _ => panic!("expected a greeting"),
    }
    assert_eq!(net.user_id(), 3);
    assert!(net.is_connecting(0) && net.is_connecting(2));
    let offer = encode_message(&WebSocketMessage::PeerHandshake(answer_from(5, 3)));
    assert!(matches!(net.signal(&offer), SignalOutcome::Handshake(HandshakeRole::Offer(_))));
    let answer = encode_message(&WebSocketMessage::PeerHandshake(answer_from(2, 3)));
    assert!(matches!(net.signal(&answer), SignalOutcome::Handshake(HandshakeRole::Answer(_))));
}
