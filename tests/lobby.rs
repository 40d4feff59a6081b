use yahtzee_signaling::codec::{decode_message, encode_message};
use yahtzee_signaling::error::Error;
use yahtzee_signaling::lobby::{
    classify_frame, reader_step, InboundFrame, LobbyActor, LobbyEffect, LobbyEvent, ReaderStep,
};
use yahtzee_signaling::message::{IceCandidate, PeerHandshake, WebSocketMessage};
use yahtzee_signaling::protocol::{PeerEvent, PeerRequest};
use yahtzee_signaling::registry::{create_step, CreateStep, LobbyCollection};

fn welcome(effect: LobbyEffect) -> (u32, WebSocketMessage) {
    match effect {
        LobbyEffect::Welcome { member_id, message } => (member_id, decode_message(&message).unwrap()),
        _ => panic!("expected a welcome"),
    }
}

#[test]
fn first_members_get_zero_then_one() {
    let mut lobby = LobbyActor::new(55);
    let (a, m) = welcome(lobby.connect());
    assert_eq!(a, 0);
    assert_eq!(m, WebSocketMessage::ConnectSuccess { lobby_id: 55, user_id: 0, peers_id: vec![] });
    let (b, m) = welcome(lobby.connect());
    assert_eq!(b, 1);
    assert_eq!(m, WebSocketMessage::ConnectSuccess { lobby_id: 55, user_id: 1, peers_id: vec![0] });
    assert_eq!(lobby.members(), vec![0, 1]);
    assert_eq!(lobby.lobby_id(), 55);
}

#[test]
fn member_ids_are_never_reused() {
    let mut lobby = LobbyActor::new(1);
    let mut seen = Vec::new();
    for round in 0..6u32 {
        let (id, _) = welcome(lobby.handle(LobbyEvent::Connect));
        seen.push(id);
        if round % 2 == 1 {
            match lobby.handle(LobbyEvent::Disconnect { member_id: id }) {
                LobbyEffect::Remove { member_id } => assert_eq!(member_id, id),
                _ => panic!("lobby still has members"),
            }
        }
    }
    assert_eq!(seen, vec![0, 1, 2, 3, 4, 5]);
    assert_eq!(lobby.members(), vec![0, 2, 4]);
    let (id, m) = welcome(lobby.connect());
    assert_eq!(id, 6);
    assert_eq!(m, WebSocketMessage::ConnectSuccess { lobby_id: 1, user_id: 6, peers_id: vec![0, 2, 4] });
}

#[test]
fn relay_to_member_is_verbatim() {
    let mut lobby = LobbyActor::new(9);
    lobby.connect();
    lobby.connect();
    let bytes = vec![1u8, 2, 3, 255, 0];
    match lobby.handle(LobbyEvent::Relay { target: 1, bytes: bytes.clone() }) {
        LobbyEffect::Deliver { target, bytes: out } => {
            assert_eq!(target, 1);
            assert_eq!(out, bytes);
        }
        _ => panic!("expected a delivery"),
    }
}

#[test]
fn relay_to_non_member_is_discarded() {
    let mut lobby = LobbyActor::new(9);
    lobby.connect();
    lobby.connect();
    assert!(matches!(lobby.relay(7, vec![1]), LobbyEffect::Discard));
    lobby.disconnect(1);
    assert!(!lobby.is_member(1));
    assert!(matches!(lobby.relay(1, vec![1]), LobbyEffect::Discard));
    assert!(matches!(lobby.relay(0, vec![1]), LobbyEffect::Deliver { target: 0, .. }));
}

#[test]
fn deliveries_keep_processing_order() {
    let mut lobby = LobbyActor::new(3);
    lobby.connect();
    lobby.connect();
    let mut delivered = Vec::new();
    for k in 0..5u8 {
        if let LobbyEffect::Deliver { target: 0, bytes } = lobby.handle(LobbyEvent::Relay { target: 0, bytes: vec![k] }) {
            delivered.push(bytes[0]);
        }
    }
    assert_eq!(delivered, vec![0, 1, 2, 3, 4]);
}

#[test]
fn last_member_leaving_terminates() {
    let mut lobby = LobbyActor::new(4);
    lobby.connect();
    assert!(matches!(lobby.disconnect(0), LobbyEffect::Terminate { member_id: 0 }));
    assert_eq!(lobby.members(), Vec::<u32>::new());
}

#[test]
fn last_member_leaving_removes_lobby_from_registry() {
    let registry: LobbyCollection<u32> = LobbyCollection::new();
    let mut task = registry.create(17).unwrap();
    let id = task.lobby_id();
    assert_eq!(registry.join(id), Some(17));
    assert!(task.members().is_empty());
    let (member, _) = welcome(task.handle(LobbyEvent::Connect));
    assert_eq!(member, 0);
    assert!(matches!(task.handle(LobbyEvent::Disconnect { member_id: 0 }), LobbyEffect::Terminate { member_id: 0 }));
    assert!(task.is_ended());
    assert_eq!(registry.join(id), None);
}

#[test]
fn lobby_with_members_left_stays_registered() {
    let registry: LobbyCollection<u32> = LobbyCollection::new();
    let mut task = registry.create(3).unwrap();
    let id = task.lobby_id();
    task.handle(LobbyEvent::Connect);
    task.handle(LobbyEvent::Connect);
    assert!(matches!(task.handle(LobbyEvent::Disconnect { member_id: 0 }), LobbyEffect::Remove { member_id: 0 }));
    assert!(!task.is_ended());
    assert_eq!(registry.join(id), Some(3));
    let (member, _) = welcome(task.handle(LobbyEvent::Connect));
    assert_eq!(member, 2);
}

#[test]
fn registry_creates_distinct_lobbies() {
    let registry: LobbyCollection<u32> = LobbyCollection::new();
    let a = registry.create(1).unwrap().lobby_id();
    let b = registry.create(2).unwrap().lobby_id();
    assert_ne!(a, b);
    assert_eq!(registry.join(a), Some(1));
    assert_eq!(registry.clone().join(b), Some(2));
}

#[test]
fn registry_join_of_unknown_lobby_is_none() {
    let registry: LobbyCollection<u32> = LobbyCollection::new();
    let a = registry.create(1).unwrap().lobby_id();
    assert_eq!(registry.join(a.wrapping_add(1)), None);
    assert_eq!(registry.join(a), Some(1));
}

#[test]
fn create_step_decisions() {
    assert!(matches!(create_step::<u8>(5, None, 0), CreateStep::Registered(5)));
    assert!(matches!(create_step(5, Some(9u8), 3), CreateStep::Retry(9)));
    assert!(matches!(create_step(5, Some(9u8), u64::MAX), CreateStep::GaveUp));
}

#[test]
fn reader_steps() {
    let handshake = encode_message(&WebSocketMessage::PeerHandshake(PeerHandshake {
        source_id: 2,
        target_id: 4,
        sdp_description: String::new(),
        ice_candidates: vec![],
    }));
    match reader_step(2, Some(handshake.clone())) {
        ReaderStep::Forward(LobbyEvent::Relay { target: 4, bytes }) => assert_eq!(bytes, handshake),
        _ => panic!("a handshake is forwarded"),
    }
    let hello = encode_message(&WebSocketMessage::ConnectSuccess { lobby_id: 1, user_id: 1, peers_id: vec![] });
    assert!(matches!(reader_step(2, Some(hello)), ReaderStep::Skip));
    assert!(matches!(reader_step(2, Some(vec![9])), ReaderStep::Leave(LobbyEvent::Disconnect { member_id: 2 })));
    assert!(matches!(reader_step(2, None), ReaderStep::Leave(LobbyEvent::Disconnect { member_id: 2 })));
}

#[test]
fn frames_are_classified() {
    let handshake = WebSocketMessage::PeerHandshake(PeerHandshake {
        source_id: 0,
        target_id: 1,
        sdp_description: "offer".to_string(),
        ice_candidates: vec![IceCandidate { candidate: "c".to_string(), sdp_mid: None, sdp_m_line_index: None }],
    });
    let bytes = encode_message(&handshake);
    match classify_frame(bytes.clone()) {
        InboundFrame::Relay { target, bytes: out } => {
            assert_eq!(target, 1);
            assert_eq!(out, bytes);
        }
        _ => panic!("expected a relay"),
    }
    let hello = encode_message(&WebSocketMessage::ConnectSuccess { lobby_id: 1, user_id: 1, peers_id: vec![] });
    assert!(matches!(classify_frame(hello), InboundFrame::Ignore));
    assert!(matches!(classify_frame(vec![1, 2, 3]), InboundFrame::Close));
    let mut trailing = bytes.clone();
    trailing.push(0);
    assert!(matches!(classify_frame(trailing), InboundFrame::Close));
}

#[test]
fn error_status_codes() {
    assert_eq!(Error::YahtzeeLobbyNotFound.client_status_and_error(), (400, "INVALID_LOBBY"));
    assert_eq!(Error::YahtzeeLobbyAlreadyExists.client_status_and_error(), (500, "SERVICE_ERROR"));
    assert_eq!(
        Error::YahtzeeMessageSerializationError.client_status_and_error(),
        (500, "SERVICE_ERROR")
    );
}

#[test]
fn room_protocol_values() {
    let r = PeerRequest::Signal(3, "x".to_string());
    assert_eq!(r.clone(), r);
    assert_ne!(PeerRequest::KeepAlive, r);
    assert_ne!(PeerEvent::PeerConnect(1), PeerEvent::PeerDisconnect(1));
    assert_eq!(PeerEvent::IdAssigned(2), PeerEvent::IdAssigned(2));
}
