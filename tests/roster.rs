use yahtzee_signaling::message::{PeerHandshake, PeerMessage, WebSocketMessage};
use yahtzee_signaling::peer_network::PeerNetworkEvent;
use yahtzee_signaling::roster::{LobbyRoster, RosterAction, CONNECTING_NAME};

#[test]
fn new_roster_lists_everyone() {
    let r = LobbyRoster::new("Ana".to_string(), 2, &vec![0, 1]);
    assert_eq!(r.name_of(0), Some(CONNECTING_NAME.to_string()));
    assert_eq!(r.name_of(1), Some("Connecting...".to_string()));
    assert_eq!(r.name_of(2), Some("Ana".to_string()));
    assert_eq!(r.name_of(3), None);
}

#[test]
fn connect_pings_and_pong_names() {
    let mut r = LobbyRoster::new("Ana".to_string(), 0, &vec![]);
    match r.peer_network_event(PeerNetworkEvent::Connect(1)) {
        Some(RosterAction::SendPeer(1, PeerMessage::Ping)) => {}
        _ => panic!("a new peer is pinged"),
    }
    assert_eq!(r.name_of(1), Some("Connecting...".to_string()));
    assert!(r.peer_network_event(PeerNetworkEvent::Message(1, PeerMessage::Pong("Bo".to_string()))).is_none());
    assert_eq!(r.name_of(1), Some("Bo".to_string()));
}

#[test]
fn ping_is_answered_with_own_name() {
    let mut r = LobbyRoster::new("Ana".to_string(), 0, &vec![]);
    match r.peer_network_event(PeerNetworkEvent::Message(4, PeerMessage::Ping)) {
        Some(RosterAction::SendPeer(4, PeerMessage::Pong(name))) => assert_eq!(name, "Ana"),
        _ => panic!("a ping is answered"),
    }
}

#[test]
fn pong_from_stranger_and_disconnect() {
    let mut r = LobbyRoster::new("Ana".to_string(), 0, &vec![1]);
    assert!(r.peer_network_event(PeerNetworkEvent::Message(7, PeerMessage::Pong("Zed".to_string()))).is_none());
    assert_eq!(r.name_of(7), None);
    assert!(r.peer_network_event(PeerNetworkEvent::Disconnect(1)).is_none());
    assert_eq!(r.name_of(1), None);
}

#[test]
fn handshake_goes_to_signaling() {
    let mut r = LobbyRoster::new("Ana".to_string(), 0, &vec![]);
    let h = PeerHandshake { source_id: 0, target_id: 1, sdp_description: "o".to_string(), ice_candidates: vec![] };
    match r.peer_network_event(PeerNetworkEvent::Handshake(h.clone())) {
        Some(RosterAction::SendSignal(m)) => assert_eq!(m, WebSocketMessage::PeerHandshake(h.clone())),
        _ => panic!("a handshake is sent"),
    }
    assert_eq!(WebSocketMessage::from(h.clone()), WebSocketMessage::PeerHandshake(h));
}
