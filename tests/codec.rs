use yahtzee_signaling::codec::{decode_envelope, decode_message, encode_envelope, encode_message};
use yahtzee_signaling::message::{
    IceCandidate, MessageEnvelope, PeerHandshake, PeerMessage, WebSocketMessage,
};

fn sample_handshake() -> PeerHandshake {
    PeerHandshake {
        source_id: 3,
        target_id: 9,
        sdp_description: "v=0 offer é".to_string(),
        ice_candidates: vec![
            IceCandidate {
                candidate: "candidate:1 1 udp 2122260223 10.0.0.2 54400 typ host".to_string(),
                sdp_mid: Some("0".to_string()),
                sdp_m_line_index: Some(0),
            },
            IceCandidate { candidate: String::new(), sdp_mid: None, sdp_m_line_index: Some(65535) },
            IceCandidate { candidate: "x".to_string(), sdp_mid: Some(String::new()), sdp_m_line_index: None },
        ],
    }
}

#[test]
fn connect_success_exact_bytes() {
    let m = WebSocketMessage::ConnectSuccess { lobby_id: 7, user_id: 1, peers_id: vec![0] };
    let bytes = encode_message(&m);
    assert_eq!(
        bytes,
        vec![0, 0, 0, 0, 7, 0, 0, 0, 0, 0, 0, 0, 1, 0, 0, 0, 1, 0, 0, 0, 0, 0, 0, 0, 0, 0, 0, 0]
    );
}

#[test]
fn handshake_exact_bytes() {
    let m = WebSocketMessage::PeerHandshake(PeerHandshake {
        source_id: 1,
        target_id: 2,
        sdp_description: "ab".to_string(),
        ice_candidates: vec![IceCandidate {
            candidate: "c".to_string(),
            sdp_mid: None,
            sdp_m_line_index: Some(258),
        }],
    });
    let bytes = encode_message(&m);
    let expected: Vec<u8> = vec![
        1, 0, 0, 0, // discriminant
        1, 0, 0, 0, // source
        2, 0, 0, 0, // target
        2, 0, 0, 0, 0, 0, 0, 0, b'a', b'b', // description
        1, 0, 0, 0, 0, 0, 0, 0, // one candidate
        1, 0, 0, 0, 0, 0, 0, 0, b'c', // candidate line
        0, // no media id
        1, 2, 1, // media line index 258
    ];
    assert_eq!(bytes, expected);
}

#[test]
fn connect_success_round_trip() {
    let m = WebSocketMessage::ConnectSuccess {
        lobby_id: u64::MAX,
        user_id: 4_000_000_000,
        peers_id: vec![0, 1, 5, 77],
    };
    assert_eq!(decode_message(&encode_message(&m)), Some(m));
}

#[test]
fn connect_success_round_trip_no_peers() {
    let m = WebSocketMessage::ConnectSuccess { lobby_id: 0, user_id: 0, peers_id: vec![] };
    assert_eq!(decode_message(&encode_message(&m)), Some(m));
}

#[test]
fn handshake_round_trip() {
    let m = WebSocketMessage::PeerHandshake(sample_handshake());
    assert_eq!(decode_message(&encode_message(&m)), Some(m));
}

#[test]
fn empty_handshake_round_trip() {
    let m = WebSocketMessage::PeerHandshake(PeerHandshake {
        source_id: 0,
        target_id: 0,
        sdp_description: String::new(),
        ice_candidates: vec![],
    });
    assert_eq!(decode_message(&encode_message(&m)), Some(m));
}

#[test]
fn truncated_message_is_rejected() {
    let bytes = encode_message(&WebSocketMessage::PeerHandshake(sample_handshake()));
    for cut in 0..bytes.len() {
        assert_eq!(decode_message(&bytes[..cut]), None, "prefix of length {cut}");
    }
}

#[test]
fn trailing_byte_is_rejected() {
    let mut bytes =
        encode_message(&WebSocketMessage::ConnectSuccess { lobby_id: 1, user_id: 2, peers_id: vec![] });
    bytes.push(0);
    assert_eq!(decode_message(&bytes), None);
}

#[test]
fn unknown_discriminant_is_rejected() {
    let mut bytes =
        encode_message(&WebSocketMessage::ConnectSuccess { lobby_id: 1, user_id: 2, peers_id: vec![] });
    bytes[0] = 2;
    assert_eq!(decode_message(&bytes), None);
}

#[test]
fn bad_option_flag_is_rejected() {
    let m = WebSocketMessage::PeerHandshake(PeerHandshake {
        source_id: 1,
        target_id: 2,
        sdp_description: String::new(),
        ice_candidates: vec![IceCandidate { candidate: String::new(), sdp_mid: None, sdp_m_line_index: None }],
    });
    let mut bytes = encode_message(&m);
    let n = bytes.len();
    assert_eq!(bytes[n - 2], 0);
    bytes[n - 2] = 2;
    assert_eq!(decode_message(&bytes), None);
}

#[test]
fn invalid_utf8_is_rejected() {
    let m = WebSocketMessage::PeerHandshake(PeerHandshake {
        source_id: 1,
        target_id: 2,
        sdp_description: "ab".to_string(),
        ice_candidates: vec![],
    });
    let mut bytes = encode_message(&m);
    assert_eq!(bytes[20], b'a');
    bytes[20] = 0xff;
    assert_eq!(decode_message(&bytes), None);
}

#[test]
fn huge_count_is_rejected() {
    let mut bytes =
        encode_message(&WebSocketMessage::ConnectSuccess { lobby_id: 1, user_id: 2, peers_id: vec![3] });
    bytes[16..24].copy_from_slice(&u64::MAX.to_le_bytes());
    assert_eq!(decode_message(&bytes), None);
}

#[test]
fn envelope_exact_bytes() {
    assert_eq!(encode_envelope(0, &PeerMessage::Ping), vec![0, 0, 0, 0, 0, 0, 0, 0]);
    assert_eq!(
        encode_envelope(258, &PeerMessage::Pong("hi".to_string())),
        vec![2, 1, 0, 0, 1, 0, 0, 0, 2, 0, 0, 0, 0, 0, 0, 0, b'h', b'i']
    );
}

#[test]
fn envelope_round_trip() {
    let bytes = encode_envelope(12, &PeerMessage::Pong("Ana".to_string()));
    assert_eq!(
        decode_envelope(&bytes),
        Some(MessageEnvelope { sender_id: 12, payload: PeerMessage::Pong("Ana".to_string()) })
    );
    let bytes = encode_envelope(u32::MAX, &PeerMessage::Ping);
    assert_eq!(
        decode_envelope(&bytes),
        Some(MessageEnvelope { sender_id: u32::MAX, payload: PeerMessage::Ping })
    );
}

#[test]
fn malformed_envelope_is_rejected() {
    assert_eq!(decode_envelope(&[]), None);
    assert_eq!(decode_envelope(&[0, 0, 0]), None);
    assert_eq!(decode_envelope(&[0, 0, 0, 0, 9, 0, 0, 0]), None);
    assert_eq!(decode_envelope(&[0, 0, 0, 0, 0, 0, 0, 0, 0]), None);
}
