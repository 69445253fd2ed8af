use net_client::codec::{get_new_flood_request_packet, message_to_packets, packets_to_message};
use net_client::error::NodeError;
use net_client::packet::{Message, NodeType, Packet, PacketType, SourceRoutingHeader, FRAGMENT_DSIZE};

fn make_test_message() -> Message {
    Message {
        source: 1,
        destination: 2,
        session_id: 42,
        content: b"DiscoveryRequest".to_vec(),
    }
}

#[test]
fn test_message_to_packets_and_back() {
    let message = make_test_message();
    let routing_header = SourceRoutingHeader::empty_route();
    let packets = message_to_packets(&message, &routing_header);
    assert!(!packets.is_empty());
    for packet in &packets {
        match &packet.pack_type {
            PacketType::MsgFragment(_) => (),
            _ => panic!("Expected MsgFragment packet type"),
        }
    }
    let reconstructed = packets_to_message(&packets).expect("Failed to reconstruct message");
    assert_eq!(message, reconstructed);
}

#[test]
fn test_get_new_flood_request_packet() {
    let session_id = 123;
    let initiator_id = 45;
    let packet = get_new_flood_request_packet(session_id, initiator_id);
    assert_eq!(packet.session_id, session_id);
    match &packet.pack_type {
        PacketType::FloodRequest(flood) => {
            assert_eq!(flood.flood_id, session_id);
            assert_eq!(flood.initiator_id, initiator_id);
            assert_eq!(flood.path_trace.len(), 1);
            assert_eq!(flood.path_trace[0].0, initiator_id);
            assert_eq!(flood.path_trace[0].1, NodeType::Client);
        }
        _ => panic!("Expected FloodRequest packet type"),
    }
    assert!(packet.routing_header.hops.is_empty());
}

fn round_trip(serialised_len: usize, expected_fragments: usize) {
    let message = Message {
        source: 3,
        destination: 4,
        session_id: 0x0102_0304_0506_0708,
        content: (0..serialised_len - 10).map(|i| (i % 251) as u8).collect(),
    };
    let header = SourceRoutingHeader::new(vec![3, 5, 4], 1);
    let packets = message_to_packets(&message, &header);
    assert_eq!(packets.len(), expected_fragments);
    let mut total = 0usize;
    for (i, p) in packets.iter().enumerate() {
        assert_eq!(p.routing_header, header);
        assert_eq!(p.session_id, message.session_id);
        match &p.pack_type {
            PacketType::MsgFragment(f) => {
                assert_eq!(f.fragment_index, i as u64);
                assert_eq!(f.total_n_fragments, expected_fragments as u64);
                assert_eq!(f.data.len(), FRAGMENT_DSIZE);
                total += f.length as usize;
            }
            _ => panic!("not a fragment"),
        }
    }
    assert_eq!(total, serialised_len);
    assert_eq!(packets_to_message(&packets), Ok(message));
}

#[test]
fn round_trip_at_the_fragment_boundaries() {
    round_trip(10, 1);
    round_trip(FRAGMENT_DSIZE - 1, 1);
    round_trip(FRAGMENT_DSIZE, 1);
    round_trip(FRAGMENT_DSIZE + 1, 2);
    round_trip(4 * FRAGMENT_DSIZE, 4);
    round_trip(5 * FRAGMENT_DSIZE + 3, 6);
}

#[test]
fn empty_content_serialises_to_one_fragment() {
    let message = Message { source: 1, destination: 2, session_id: 0, content: vec![] };
    let packets = message_to_packets(&message, &SourceRoutingHeader::empty_route());
    assert_eq!(packets.len(), 1);
    match &packets[0].pack_type {
        PacketType::MsgFragment(f) => {
            assert_eq!(f.length, 10);
            assert_eq!(&f.data[..10], &[1, 2, 0, 0, 0, 0, 0, 0, 0, 0]);
        }
        _ => panic!("not a fragment"),
    }
}

#[test]
fn serialised_header_is_big_endian() {
    let message = Message { source: 9, destination: 8, session_id: 258, content: vec![7] };
    let packets = message_to_packets(&message, &SourceRoutingHeader::empty_route());
    match &packets[0].pack_type {
        PacketType::MsgFragment(f) => {
            assert_eq!(f.length, 11);
            assert_eq!(&f.data[..11], &[9, 8, 0, 0, 0, 0, 0, 0, 1, 2, 7]);
            assert!(f.data[11..].iter().all(|b| *b == 0));
        }
        _ => panic!("not a fragment"),
    }
}

#[test]
fn other_packets_are_skipped_and_short_payload_is_malformed() {
    let message = make_test_message();
    let mut packets = message_to_packets(&message, &SourceRoutingHeader::empty_route());
    packets.insert(
        0,
        Packet {
            routing_header: SourceRoutingHeader::empty_route(),
            session_id: 1,
            pack_type: PacketType::Ack(0),
        },
    );
    assert_eq!(packets_to_message(&packets), Ok(message));
    assert_eq!(packets_to_message(&vec![]), Err(NodeError::MalformedPayload));
}
