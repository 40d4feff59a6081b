use yahtzee_signaling::codec::{decode_message, encode_message};
use yahtzee_signaling::lobby::{reader_step, LobbyEffect, LobbyEvent, ReaderStep};
use yahtzee_signaling::message::{IceCandidate, PeerHandshake, PeerMessage, WebSocketMessage};
use yahtzee_signaling::peer_network::{HandshakeRole, PeerNetwork, PeerNetworkEvent};
use yahtzee_signaling::registry::{LobbyCollection, LobbyTask};

fn join(lobby: &mut LobbyTask<u8>) -> (u32, WebSocketMessage) {
    match lobby.handle(LobbyEvent::Connect) {
        LobbyEffect::Welcome { member_id, message } => (member_id, decode_message(&message).unwrap()),
        _ => panic!("expected a welcome"),
    }
}

/// Runs candidate gathering for `peer` on `net` and returns the handshake it hands out.
fn gather(net: &mut PeerNetwork, peer: u32, sdp: &str) -> PeerHandshake {
    net.set_local_description(peer, sdp.to_string());
    for k in 0..2u16 {
        assert!(net
            .ice_candidate(peer, Some(IceCandidate { candidate: format!("{sdp}-{k}"), sdp_mid: None, sdp_m_line_index: Some(k) }))
            .is_none());
    }
    match net.ice_candidate(peer, None) {
        Some(PeerNetworkEvent::Handshake(h)) => h,
        _ => panic!("expected a handshake"),
    }
}

/// Sends `h` from its source through the lobby and returns the bytes that reach the addressee.
fn relay(lobby: &mut LobbyTask<u8>, from: u32, h: PeerHandshake) -> Vec<u8> {
    let frame = encode_message(&WebSocketMessage::PeerHandshake(h));
    match reader_step(from, Some(frame)) {
        ReaderStep::Forward(event) => match lobby.handle(event) {
            LobbyEffect::Deliver { bytes, .. } => bytes,
            _ => panic!("addressee is a member"),
        },
        _ => panic!("a handshake is relayed"),
    }
}

fn as_handshake(bytes: &[u8]) -> PeerHandshake {
    match decode_message(bytes) {
        Some(WebSocketMessage::PeerHandshake(h)) => h,
        _ => panic!("expected a handshake"),
    }
}

#[test]
fn two_clients_meet_and_ping() {
    let registry: LobbyCollection<u8> = LobbyCollection::new();
    let mut lobby = registry.create(0).unwrap();
    let lobby_id = lobby.lobby_id();

    let (a_id, a_hello) = join(&mut lobby);
    assert_eq!(a_id, 0);
    assert_eq!(a_hello, WebSocketMessage::ConnectSuccess { lobby_id, user_id: 0, peers_id: vec![] });
    let mut a = PeerNetwork::new(a_id);

    assert_eq!(registry.join(lobby_id), Some(0));
    let (b_id, b_hello) = join(&mut lobby);
    assert_eq!(b_id, 1);
    assert_eq!(b_hello, WebSocketMessage::ConnectSuccess { lobby_id, user_id: 1, peers_id: vec![0] });
    let mut b = PeerNetwork::new(b_id);

    assert!(a.initiate_handshake(1));
    let offer = gather(&mut a, 1, "offer");
    assert_eq!((offer.source_id, offer.target_id), (0, 1));
    let at_b = as_handshake(&relay(&mut lobby, 0, offer.clone()));
    assert_eq!(at_b, offer);
    assert!(matches!(b.receive_handshake(at_b), HandshakeRole::Offer(_)));

    let answer = gather(&mut b, 0, "answer");
    assert_eq!((answer.source_id, answer.target_id), (1, 0));
    let at_a = as_handshake(&relay(&mut lobby, 1, answer.clone()));
    assert_eq!(at_a, answer);
    assert!(matches!(a.receive_handshake(at_a), HandshakeRole::Answer(_)));
    assert!(!a.is_connected(1));

    assert!(matches!(a.channel_opened(1), Some(PeerNetworkEvent::Connect(1))));
    assert!(matches!(b.channel_opened(0), Some(PeerNetworkEvent::Connect(0))));

    let wire = a.send(1, &PeerMessage::Ping).unwrap();
    match b.receive_message(&wire) {
        Some(PeerNetworkEvent::Message(sender, PeerMessage::Ping)) => assert_eq!(sender, 0),
        _ => panic!("B must see a ping from 0"),
    }
}
