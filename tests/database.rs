use net_client::database::Database;
use net_client::error::NodeError;
use net_client::ids::{FragmentID, MessageID, PacketID, SenderID, SessionID};
use net_client::packet::{Fragment, Message, Packet, PacketType, SourceRoutingHeader};
use rand::Rng;

fn get_msg_with_random_session_id() -> Message {
    let session_id = rand::rng().random_range(1..u64::MAX);
    Message {
        source: 1,
        destination: 2,
        session_id,
        content: b"Hello".to_vec(),
    }
}

fn get_fragment_packet_with_random_session_id() -> Packet {
    let session_id = rand::rng().random_range(1..u64::MAX);
    let hops = [3, 5, 6, 7, 4];
    let header = SourceRoutingHeader {
        hop_index: 0,
        hops: hops.to_vec(),
    };
    let fragment = Fragment {
        fragment_index: 0,
        total_n_fragments: 1,
        length: 13,
        data: vec![5; 128],
    };
    Packet {
        routing_header: header,
        session_id,
        pack_type: PacketType::MsgFragment(fragment),
    }
}

fn get_two_fragment_packets_with_random_session_id() -> Vec<Packet> {
    let session_id = rand::rng().random_range(1..u64::MAX);
    let hops = [3, 5, 6, 7, 4];
    let mut packets = vec![];
    for n in 0..=1 {
        let header = SourceRoutingHeader {
            hop_index: 0,
            hops: hops.to_vec(),
        };
        let fragment = Fragment {
            fragment_index: n,
            total_n_fragments: 2,
            length: 58,
            data: vec![5; 128],
        };
        packets.push(Packet {
            routing_header: header,
            session_id,
            pack_type: PacketType::MsgFragment(fragment),
        });
    }
    packets
}

#[test]
fn test_save_message() {
    let mut db = Database::new();
    let original_message = get_msg_with_random_session_id();
    db.save_message(&original_message);
    let message = db.get_message(MessageID(
        SessionID(original_message.session_id),
        SenderID(original_message.source),
    ));
    assert_eq!(original_message, message.unwrap());
}

#[test]
fn test_get_message() {
    let mut db = Database::new();
    let message = get_msg_with_random_session_id();
    db.save_message(&message);
    let session_id = message.session_id;
    let sender_id = message.source;
    let queried_message = db
        .get_message(MessageID(SessionID(session_id), SenderID(sender_id)))
        .unwrap();
    assert_eq!(message, queried_message);
}

#[test]
fn test_set_message_to_read() {
    let mut db = Database::new();
    let test_message = get_msg_with_random_session_id();
    let message_id = MessageID(
        SessionID(test_message.session_id),
        SenderID(test_message.source),
    );
    db.save_message(&test_message);
    let read_status = db.is_message_read(message_id);
    assert!(!read_status);
    db.update_message_to_read(message_id).unwrap();
    let read_status = db.is_message_read(MessageID(
        SessionID(test_message.session_id),
        SenderID(test_message.source),
    ));
    assert!(read_status);
}

#[test]
fn test_set_message_to_sent_to_sc() {
    let mut db = Database::new();
    let test_message = get_msg_with_random_session_id();
    let message_id = MessageID(
        SessionID(test_message.session_id),
        SenderID(test_message.source),
    );
    db.save_message(&test_message);
    let sent_status = db.is_message_sent_to_sc(message_id);
    assert!(!sent_status);
    db.update_message_sent_to_simulation_controller(message_id)
        .unwrap();
    let sent_status = db.is_message_sent_to_sc(MessageID(
        SessionID(test_message.session_id),
        SenderID(test_message.source),
    ));
    assert!(sent_status);
}

#[test]
fn test_save_packet() {
    let mut db = Database::new();
    let original_packet = get_fragment_packet_with_random_session_id();
    let session_id = SessionID(original_packet.session_id);
    let sender_id = SenderID(3);
    let fragment_id = FragmentID(0);
    let packet_id = PacketID(session_id, sender_id, fragment_id);
    db.save_packet(original_packet.clone()).unwrap();
    let packet = db.get_packet(packet_id).unwrap();
    assert_eq!(original_packet, packet);
}

#[test]
fn save_wrong_type_packet_is_refused() {
    let mut db = Database::new();
    let mut original_packet = get_fragment_packet_with_random_session_id();
    original_packet.pack_type = PacketType::Ack(1);
    assert_eq!(
        db.save_packet(original_packet.clone()),
        Err(NodeError::WrongPacketKind)
    );
}

#[test]
fn save_fragment_without_route_is_refused() {
    let mut db = Database::new();
    let mut packet = get_fragment_packet_with_random_session_id();
    packet.routing_header.hops.clear();
    assert_eq!(db.save_packet(packet), Err(NodeError::EmptyRoute));
}

#[test]
fn test_set_packet_to_sent_to_sc() {
    let mut db = Database::new();
    let packet = get_fragment_packet_with_random_session_id();
    let session_id = SessionID(packet.session_id);
    let sender_id = SenderID(packet.routing_header.hops[0]);
    let fragment_id = FragmentID(0);
    let packet_id = PacketID(session_id, sender_id, fragment_id);
    db.save_packet(packet.clone()).unwrap();
    let sent_status = db.is_packet_sent_to_sc(packet_id);
    assert!(!sent_status);
    db.update_packet_sent_to_simulation_controller(packet_id)
        .unwrap();
    let sent_status = db.is_packet_sent_to_sc(packet_id);
    assert!(sent_status);
}

#[test]
fn test_set_packet_to_ack_received() {
    let mut db = Database::new();
    let packet = get_fragment_packet_with_random_session_id();
    let session_id = SessionID(packet.session_id);
    let sender_id = SenderID(packet.routing_header.hops[0]);
    let fragment_id = FragmentID(0);
    let packet_id = PacketID(session_id, sender_id, fragment_id);
    db.save_packet(packet.clone()).unwrap();
    let ack_status = db.is_packet_ack_received(packet_id);
    assert!(!ack_status);
    db.update_packet_ack_received(packet_id).unwrap();
    let ack_status = db.is_packet_ack_received(packet_id);
    assert!(ack_status);
}

#[test]
fn test_getting_amount_of_frags_received() {
    let mut db = Database::new();
    let packets = get_two_fragment_packets_with_random_session_id();
    let session_id = packets[0].session_id;
    let sender_id = packets[0].routing_header.hops[0];
    db.save_packet(packets[0].clone()).unwrap();
    let amount_of_frags_received = db
        .get_amount_of_fragments_received(session_id, sender_id)
        .unwrap();
    assert_eq!(amount_of_frags_received, 1);
    db.save_packet(packets[1].clone()).unwrap();
    let amount_of_frags_received = db
        .get_amount_of_fragments_received(session_id, sender_id)
        .unwrap();
    assert_eq!(amount_of_frags_received, 2);
}

#[test]
fn duplicate_fragment_is_counted_once() {
    let mut db = Database::new();
    let packets = get_two_fragment_packets_with_random_session_id();
    let session_id = packets[0].session_id;
    db.save_packet(packets[0].clone()).unwrap();
    db.save_packet(packets[0].clone()).unwrap();
    assert_eq!(db.get_amount_of_fragments_received(session_id, 3), Some(1));
    assert_eq!(db.get_packets_for_session(session_id, 3).unwrap().len(), 1);
}

#[test]
fn test_getting_frags_for_a_session() {
    let mut db = Database::new();
    let packets = get_two_fragment_packets_with_random_session_id();
    let session_id = packets[0].session_id;
    let sender_id = packets[0].routing_header.hops[0];
    db.save_packet(packets[0].clone()).unwrap();
    let received_packets = db.get_packets_for_session(session_id, sender_id).unwrap();
    assert_eq!(received_packets.len(), 1);
    assert_eq!(packets[0], received_packets[0]);
    db.save_packet(packets[1].clone()).unwrap();
    let received_packets = db.get_packets_for_session(session_id, sender_id).unwrap();
    assert_eq!(received_packets.len(), 2);
    assert!(received_packets.contains(&packets[0]));
    assert!(received_packets.contains(&packets[1]));
}

#[test]
fn fragments_in_order_need_every_index() {
    let mut db = Database::new();
    let packets = get_two_fragment_packets_with_random_session_id();
    let session_id = packets[0].session_id;
    db.save_packet(packets[1].clone()).unwrap();
    assert_eq!(db.fragments_in_order(session_id, 3), None);
    db.save_packet(packets[0].clone()).unwrap();
    let ordered = db.fragments_in_order(session_id, 3).unwrap();
    assert_eq!(ordered, packets);
    assert_eq!(db.fragments_in_order(session_id, 4), None);
}

#[test]
fn test_are_all_acks_received() {
    let mut db = Database::new();
    let packets = get_two_fragment_packets_with_random_session_id();
    let session_id = packets[0].session_id;
    let sender_id = packets[0].routing_header.hops[0];
    db.save_packet(packets[0].clone()).unwrap();
    db.save_packet(packets[1].clone()).unwrap();
    let _ = db.update_packet_ack_received(PacketID(
        SessionID(session_id),
        SenderID(sender_id),
        FragmentID(0),
    ));
    let succssfully_sent = db
        .all_packets_successfully_sent(session_id, sender_id)
        .unwrap();
    assert!(!succssfully_sent);
    let _ = db.update_packet_ack_received(PacketID(
        SessionID(session_id),
        SenderID(sender_id),
        FragmentID(1),
    ));
    let succssfully_sent = db
        .all_packets_successfully_sent(session_id, sender_id)
        .unwrap();
    assert!(succssfully_sent);
}

#[test]
fn completion_of_a_two_fragment_session() {
    let mut db = Database::new();
    let packets = get_two_fragment_packets_with_random_session_id();
    let session_id = packets[0].session_id;
    db.save_packet(packets[0].clone()).unwrap();
    db.save_packet(packets[1].clone()).unwrap();
    db.update_packet_ack_received(PacketID(SessionID(session_id), SenderID(3), FragmentID(0)))
        .unwrap();
    assert_eq!(db.all_packets_successfully_sent(session_id, 3), Some(false));
    db.update_packet_ack_received(PacketID(SessionID(session_id), SenderID(3), FragmentID(1)))
        .unwrap();
    assert_eq!(db.all_packets_successfully_sent(session_id, 3), Some(true));
    assert_eq!(db.all_packets_successfully_sent(session_id.wrapping_add(1), 3), None);
}

#[test]
fn unknown_entities_are_refused() {
    let mut db = Database::new();
    let id = MessageID(SessionID(9), SenderID(9));
    assert_eq!(db.update_message_to_read(id), Err(NodeError::UnknownEntity));
    assert_eq!(
        db.update_message_sent_to_simulation_controller(id),
        Err(NodeError::UnknownEntity)
    );
    let pid = PacketID(SessionID(9), SenderID(9), FragmentID(0));
    assert_eq!(
        db.update_packet_sent_to_simulation_controller(pid),
        Err(NodeError::UnknownEntity)
    );
    assert_eq!(db.update_packet_ack_received(pid), Err(NodeError::UnknownPacket));
    let packet = get_fragment_packet_with_random_session_id();
    let session_id = packet.session_id;
    db.save_packet(packet).unwrap();
    let other = PacketID(SessionID(session_id), SenderID(3), FragmentID(7));
    assert_eq!(db.update_packet_ack_received(other), Err(NodeError::UnknownPacket));
    assert_eq!(
        db.update_packet_sent_to_simulation_controller(other),
        Err(NodeError::UnknownEntity)
    );
    assert!(!db.is_packet_sent_to_sc(other));
    assert_eq!(db.get_packet(other), None);
}

#[test]
fn unread_messages_are_drained_once_and_skip_own() {
    let mut db = Database::new();
    let own = Message { source: 7, destination: 2, session_id: 1, content: vec![1] };
    let first = Message { source: 2, destination: 7, session_id: 1, content: vec![2] };
    let second = Message { source: 3, destination: 7, session_id: 5, content: vec![3] };
    db.save_message(&own);
    db.save_message(&first);
    db.save_message(&second);
    let ids = db.get_undread_message_ids_from_server(7).unwrap();
    assert_eq!(
        ids,
        vec![
            MessageID(SessionID(1), SenderID(2)),
            MessageID(SessionID(5), SenderID(3))
        ]
    );
    assert_eq!(db.get_undread_message_ids_from_server(7), None);
    let third = Message { source: 4, destination: 7, session_id: 2, content: vec![] };
    db.save_message(&third);
    assert_eq!(
        db.get_undread_message_ids_from_server(7),
        Some(vec![MessageID(SessionID(2), SenderID(4))])
    );
    assert!(db.is_message_read(MessageID(SessionID(1), SenderID(2))));
    assert!(!db.is_message_read(MessageID(SessionID(1), SenderID(7))));
}
