use pos_chain::network::{
    decode_frame, decode_frame_length, encode_frame, handle_peer_event, make_handshake, route_message,
    to_tpi_hash, Channel, FrameError, PeerAction, PeerEvent, MAX_MESSAGE_SIZE,
};
use pos_chain::peer_manager::PeerManager;
use pos_chain::types::{Block, NetworkMessage};

#[test]
fn frame_is_length_then_body() {
    assert_eq!(encode_frame(b"").unwrap(), vec![0, 0, 0, 0]);
    assert_eq!(encode_frame(b"{}").unwrap(), vec![0, 0, 0, 2, b'{', b'}']);
    let body = vec![7u8; 0x1_02_03];
    let frame = encode_frame(&body).unwrap();
    assert_eq!(&frame[..4], &[0, 1, 2, 3]);
    assert_eq!(&frame[4..], &body[..]);
}

#[test]
fn framing_round_trips() {
    for body in [b"".to_vec(), b"\"Ping\"".to_vec(), vec![0u8; 300], vec![255u8; 70_000]] {
        let mut bytes = encode_frame(&body).unwrap();
        assert_eq!(decode_frame(&bytes).unwrap(), body);
        bytes.extend_from_slice(b"what follows");
        assert_eq!(decode_frame(&bytes).unwrap(), body);
    }
}

#[test]
fn largest_body_is_accepted_and_one_more_is_not() {
    let largest = vec![1u8; 262_144];
    let frame = encode_frame(&largest).unwrap();
    assert_eq!(decode_frame_length(&frame[..4]), Ok(262_144));
    assert_eq!(decode_frame(&frame).unwrap().len(), 262_144);

    assert_eq!(encode_frame(&vec![1u8; 262_145]), Err(FrameError::TooLarge));
    assert_eq!(decode_frame_length(&[0, 4, 0, 1]), Err(FrameError::TooLarge));
    assert_eq!(decode_frame_length(&[0, 4, 0, 0]), Ok(MAX_MESSAGE_SIZE));
    assert_eq!(decode_frame_length(&[255, 255, 255, 255]), Err(FrameError::TooLarge));
    let mut oversized = vec![0, 4, 0, 1];
    oversized.extend(vec![1u8; 262_145]);
    assert_eq!(decode_frame(&oversized), Err(FrameError::TooLarge));
}

#[test]
fn short_input_is_incomplete() {
    assert_eq!(decode_frame_length(&[0, 0, 1]), Err(FrameError::Incomplete));
    assert_eq!(decode_frame(&[]), Err(FrameError::Incomplete));
    assert_eq!(decode_frame(&[0, 0, 0, 3, 1, 2]), Err(FrameError::Incomplete));
    assert_eq!(decode_frame(&[0, 0, 0, 3, 1, 2, 3]), Ok(vec![1, 2, 3]));
}

fn tpi_hash() -> NetworkMessage {
    NetworkMessage::TpiHash {
        slot: 4,
        validator_id: "V1".to_string(),
        block_hash: "abc".to_string(),
        signature: "sig".to_string(),
    }
}

fn new_block() -> NetworkMessage {
    NetworkMessage::NewBlock(Block {
        slot: 1,
        parent_hash: "genesis".to_string(),
        hash: "h".to_string(),
        producer: "V1".to_string(),
        timestamp: 10,
        transactions: vec![],
    })
}

#[test]
fn committee_traffic_has_its_own_channel() {
    assert_eq!(route_message(&tpi_hash()), Channel::Tpi);
    assert_eq!(route_message(&NetworkMessage::Ping), Channel::Inbound);
    assert_eq!(route_message(&new_block()), Channel::Inbound);
    let handshake = NetworkMessage::Handshake { peer_addr: "a:1".to_string(), known_peers: vec![], genesis_timestamp: 5 };
    assert_eq!(route_message(&handshake), Channel::Inbound);

    let announcement = to_tpi_hash(&tpi_hash()).unwrap();
    assert_eq!(announcement.slot, 4);
    assert_eq!(announcement.validator_id, "V1");
    assert_eq!(announcement.block_hash, "abc");
    assert_eq!(announcement.signature, b"sig".to_vec());
    assert!(to_tpi_hash(&NetworkMessage::Ping).is_none());
}

#[test]
fn handshake_names_all_known_peers() {
    let mut peers = PeerManager::new(vec![]);
    peers.add_peer_at("10.0.0.1:9000".to_string(), 5);
    peers.add_peer_at("10.0.0.2:9000".to_string(), 6);
    match make_handshake("10.0.0.9:9000", &peers, 1_700_000_000) {
        NetworkMessage::Handshake { peer_addr, known_peers, genesis_timestamp } => {
            assert_eq!(peer_addr, "10.0.0.9:9000");
            assert_eq!(known_peers, vec!["10.0.0.1:9000", "10.0.0.2:9000"]);
            assert_eq!(genesis_timestamp, 1_700_000_000);
        }
        other => panic!("unexpected {:?}", other),
    }
}

#[test]
fn reader_follows_the_connection() {
    let mut peers = PeerManager::new(vec![]);
    let addr = "10.0.0.1:9000";
    assert!(matches!(handle_peer_event(&mut peers, addr, PeerEvent::Connected, 100), PeerAction::ReadPrefix));
    assert_eq!(peers.get_connected_peers(), vec![addr]);

    let action = handle_peer_event(&mut peers, addr, PeerEvent::Prefix(vec![0, 0, 1, 0]), 101);
    assert!(matches!(action, PeerAction::ReadBody(256)));

    let action = handle_peer_event(&mut peers, addr, PeerEvent::Message(NetworkMessage::Ping), 900);
    assert!(matches!(action, PeerAction::ForwardInbound(NetworkMessage::Ping)));
    let action = handle_peer_event(&mut peers, addr, PeerEvent::Message(tpi_hash()), 901);
    match action {
        PeerAction::ForwardTpi(message) => assert_eq!(message.slot, 4),
        other => panic!("unexpected {:?}", other),
    }
    assert_eq!(peers.get_connected_peers(), vec![addr]);

    let action = handle_peer_event(&mut peers, addr, PeerEvent::Lost, 902);
    assert!(matches!(action, PeerAction::Close));
    assert!(peers.get_connected_peers().is_empty());
    assert_eq!(peers.dialable_peers_at(901 + 299), vec![addr]);
    assert!(peers.dialable_peers_at(901 + 300).is_empty());
}

#[test]
fn protocol_errors_close_the_connection() {
    for event in [PeerEvent::Prefix(vec![0, 4, 0, 1]), PeerEvent::Malformed, PeerEvent::Prefix(vec![0, 0])] {
        let mut peers = PeerManager::new(vec![]);
        handle_peer_event(&mut peers, "p:1", PeerEvent::Connected, 1);
        assert!(matches!(handle_peer_event(&mut peers, "p:1", event, 2), PeerAction::Close));
        assert!(peers.get_connected_peers().is_empty());
        assert_eq!(peers.len(), 1);
    }
    let mut peers = PeerManager::new(vec![]);
    handle_peer_event(&mut peers, "p:1", PeerEvent::Connected, 1);
    let action = handle_peer_event(&mut peers, "p:1", PeerEvent::Prefix(vec![0, 4, 0, 0]), 2);
    assert!(matches!(action, PeerAction::ReadBody(262_144)));
    assert_eq!(peers.get_connected_peers(), vec!["p:1"]);
}
