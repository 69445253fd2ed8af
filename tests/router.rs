use net_client::codec::message_to_packets;
use net_client::error::NodeError;
use net_client::packet::{
    FloodRequest, FloodResponse, Message, NackType, NodeType, Packet, PacketType, SourceRoutingHeader,
};
use net_client::router::{Action, Command, NodeEvent, Router, ScCommand};

fn flood_response(trace: Vec<(u8, NodeType)>) -> Packet {
    Packet {
        routing_header: SourceRoutingHeader::empty_route(),
        session_id: 0,
        pack_type: PacketType::FloodResponse(FloodResponse { flood_id: 1, path_trace: trace }),
    }
}

/// Node 1 with neighbour 2, which knows the path 1 - 2 - 3 (server).
fn learned_router() -> Router {
    let mut router = Router::new(1, &vec![2]);
    let mut actions = vec![];
    router
        .process(
            flood_response(vec![(1, NodeType::Client), (2, NodeType::Drone), (3, NodeType::Server)]),
            &mut actions,
        )
        .unwrap();
    assert!(matches!(actions[0], Action::Notify(NodeEvent::KnownNetworkGraph(_))));
    router
}

#[test]
fn flood_request_is_answered_back_along_the_trace() {
    let mut router = Router::new(1, &vec![2]);
    let mut actions = vec![];
    let request = Packet {
        routing_header: SourceRoutingHeader::empty_route(),
        session_id: 77,
        pack_type: PacketType::FloodRequest(FloodRequest {
            flood_id: 5,
            initiator_id: 9,
            path_trace: vec![(9, NodeType::Client), (2, NodeType::Drone)],
        }),
    };
    router.process(request, &mut actions).unwrap();
    assert_eq!(actions.len(), 2);
    let expected = Packet {
        routing_header: SourceRoutingHeader::new(vec![1, 2, 9], 1),
        session_id: 1,
        pack_type: PacketType::FloodResponse(FloodResponse {
            flood_id: 5,
            path_trace: vec![(9, NodeType::Client), (2, NodeType::Drone), (1, NodeType::Client)],
        }),
    };
    assert_eq!(actions[0], Action::Send(2, expected.clone()));
    assert_eq!(actions[1], Action::Notify(NodeEvent::PacketSent(expected)));
}

#[test]
fn flood_request_to_a_stranger_is_refused() {
    let mut router = Router::new(1, &vec![4]);
    let mut actions = vec![];
    let request = Packet {
        routing_header: SourceRoutingHeader::empty_route(),
        session_id: 77,
        pack_type: PacketType::FloodRequest(FloodRequest {
            flood_id: 5,
            initiator_id: 9,
            path_trace: vec![(9, NodeType::Client), (2, NodeType::Drone)],
        }),
    };
    assert_eq!(router.process(request, &mut actions), Err(NodeError::NoSuchNeighbor));
    assert!(actions.is_empty());
}

#[test]
fn flood_goes_to_every_neighbour() {
    let mut router = Router::new(1, &vec![2, 3]);
    let mut actions = vec![];
    router.process_api_command(Command::InitializeFlood, &mut actions).unwrap();
    assert_eq!(actions.len(), 4);
    assert!(matches!(actions[0], Action::Send(2, _)));
    assert!(matches!(actions[2], Action::Send(3, _)));
    match &actions[1] {
        Action::Notify(NodeEvent::PacketSent(p)) => match &p.pack_type {
            PacketType::FloodRequest(r) => {
                assert_eq!(r.initiator_id, 1);
                assert_eq!(r.path_trace, vec![(1, NodeType::Client)]);
            }
            _ => panic!("not a flood request"),
        },
        _ => panic!("not a report"),
    }
}

#[test]
fn neighbour_changes_update_and_reflood() {
    let mut router = Router::new(1, &vec![2]);
    let mut actions = vec![];
    router.process_sc_command(ScCommand::AddSender(5), &mut actions);
    assert_eq!(actions.len(), 4);
    assert!(matches!(actions[2], Action::Send(5, _)));
    let mut actions = vec![];
    router.process_sc_command(ScCommand::RemoveSender(2), &mut actions);
    assert_eq!(actions.len(), 2);
    assert!(matches!(actions[0], Action::Send(5, _)));
    let mut actions = vec![];
    router.process_sc_command(ScCommand::Other, &mut actions);
    assert!(actions.is_empty());
}

#[test]
fn edge_nodes_are_reported_once_known() {
    let mut router = Router::new(1, &vec![2]);
    let mut actions = vec![];
    router.process_api_command(Command::GetEdgeNodesFromFlood, &mut actions).unwrap();
    assert!(actions.is_empty());
    let mut router = learned_router();
    router.process_api_command(Command::GetEdgeNodesFromFlood, &mut actions).unwrap();
    match &actions[0] {
        Action::EdgeNodes(nodes) => {
            let mut nodes = nodes.clone();
            nodes.sort_by_key(|n| n.0);
            assert_eq!(nodes, vec![(1, NodeType::Client), (3, NodeType::Server)]);
        }
        _ => panic!("no answer"),
    }
}

#[test]
fn message_is_fragmented_saved_and_sent() {
    let mut router = learned_router();
    let mut actions = vec![];
    let message = Message { source: 1, destination: 3, session_id: 0, content: vec![1; 200] };
    router.process_api_command(Command::SendMessage(message), &mut actions).unwrap();
    let sent = Message { source: 1, destination: 3, session_id: 1, content: vec![1; 200] };
    let packets = message_to_packets(&sent, &SourceRoutingHeader::new(vec![1, 2, 3], 1));
    assert_eq!(packets.len(), 2);
    assert_eq!(actions.len(), 5);
    assert_eq!(actions[0], Action::Notify(NodeEvent::StartingMessageTransmission(sent.clone())));
    assert_eq!(actions[1], Action::Send(2, packets[0].clone()));
    assert_eq!(actions[2], Action::Notify(NodeEvent::PacketSent(packets[0].clone())));
    assert_eq!(actions[3], Action::Send(2, packets[1].clone()));

    let mut actions = vec![];
    let ack = |index| Packet {
        routing_header: SourceRoutingHeader::new(vec![3, 2, 1], 2),
        session_id: 1,
        pack_type: PacketType::Ack(index),
    };
    router.process(ack(0), &mut actions).unwrap();
    assert!(actions.is_empty());
    router.process(ack(1), &mut actions).unwrap();
    assert_eq!(actions, vec![Action::Notify(NodeEvent::MessageSentSuccessfully(sent))]);
    assert_eq!(router.process(ack(9), &mut actions), Err(NodeError::UnknownPacket));
}

#[test]
fn message_to_an_unknown_node_is_refused() {
    let mut router = learned_router();
    let mut actions = vec![];
    let message = Message { source: 1, destination: 8, session_id: 0, content: vec![] };
    assert_eq!(
        router.process_api_command(Command::SendMessage(message), &mut actions),
        Err(NodeError::NotFound)
    );
    assert!(actions.is_empty());
    let mut router = Router::new(1, &vec![2]);
    let mut ignore = vec![];
    router
        .process(flood_response(vec![(4, NodeType::Drone), (5, NodeType::Server)]), &mut ignore)
        .unwrap();
    let message = Message { source: 1, destination: 5, session_id: 0, content: vec![] };
    assert_eq!(
        router.process_api_command(Command::SendMessage(message), &mut actions),
        Err(NodeError::NoRoute)
    );
}

#[test]
fn nacks_resend_on_a_fresh_route() {
    let mut router = learned_router();
    let mut actions = vec![];
    let message = Message { source: 1, destination: 3, session_id: 0, content: vec![4; 3] };
    router.process_api_command(Command::SendMessage(message), &mut actions).unwrap();
    let original = match &actions[1] {
        Action::Send(_, p) => p.clone(),
        _ => panic!("not a send"),
    };
    let nack = |kind| Packet {
        routing_header: SourceRoutingHeader::new(vec![2, 1], 1),
        session_id: 1,
        pack_type: PacketType::Nack(0, kind),
    };
    let mut actions = vec![];
    router.process(nack(NackType::Dropped), &mut actions).unwrap();
    assert_eq!(
        actions,
        vec![
            Action::Send(2, original.clone()),
            Action::Notify(NodeEvent::PacketSent(original.clone()))
        ]
    );
    let mut actions = vec![];
    router.process(nack(NackType::ErrorInRouting(2)), &mut actions).unwrap();
    assert_eq!(actions.len(), 4);
    assert!(matches!(&actions[0], Action::Send(2, p) if matches!(p.pack_type, PacketType::FloodRequest(_))));
    assert_eq!(actions[2], Action::Send(2, original.clone()));
    let mut actions = vec![];
    router.process(nack(NackType::DestinationIsDrone), &mut actions).unwrap();
    assert!(actions.is_empty());
    let mut missing = nack(NackType::Dropped);
    missing.pack_type = PacketType::Nack(5, NackType::Dropped);
    assert_eq!(router.process(missing, &mut actions), Err(NodeError::UnknownPacket));
}

#[test]
fn inbound_fragments_are_reassembled_and_drained() {
    let mut router = Router::new(1, &vec![2]);
    let message = Message { source: 3, destination: 1, session_id: 6, content: vec![9; 300] };
    let packets = message_to_packets(&message, &SourceRoutingHeader::new(vec![2, 1], 1));
    assert_eq!(packets.len(), 3);
    let mut actions = vec![];
    router.process(packets[2].clone(), &mut actions).unwrap();
    router.process(packets[0].clone(), &mut actions).unwrap();
    assert!(actions.is_empty());
    router.process(packets[1].clone(), &mut actions).unwrap();
    assert_eq!(actions, vec![Action::Notify(NodeEvent::MessageReceived(message.clone()))]);

    let mut actions = vec![];
    router.process_api_command(Command::GetUnreadMessagesFromServer, &mut actions).unwrap();
    assert_eq!(actions, vec![Action::UnreadMessages(vec![message])]);
    let mut actions = vec![];
    router.process_api_command(Command::GetUnreadMessagesFromServer, &mut actions).unwrap();
    assert!(actions.is_empty());
    router.process_api_command(Command::GetClientsFromServer(3), &mut actions).unwrap();
    assert!(actions.is_empty());
}

#[test]
fn fragment_without_route_is_refused() {
    let mut router = Router::new(1, &vec![2]);
    let message = Message { source: 3, destination: 1, session_id: 6, content: vec![] };
    let mut packets = message_to_packets(&message, &SourceRoutingHeader::empty_route());
    let mut actions = vec![];
    assert_eq!(router.process(packets.remove(0), &mut actions), Err(NodeError::EmptyRoute));
}

#[test]
fn malformed_reassembly_is_reported() {
    let mut router = Router::new(1, &vec![2]);
    let mut actions = vec![];
    let fragment = Packet {
        routing_header: SourceRoutingHeader::new(vec![2, 1], 1),
        session_id: 3,
        pack_type: PacketType::MsgFragment(net_client::packet::Fragment {
            fragment_index: 0,
            total_n_fragments: 1,
            length: 4,
            data: vec![0; 128],
        }),
    };
    assert_eq!(router.process(fragment, &mut actions), Err(NodeError::MalformedPayload));
    assert!(actions.is_empty());
}

#[test]
fn session_ids_increase() {
    let mut router = Router::new(1, &vec![2]);
    assert_eq!(router.get_new_session_id(), 1);
    assert_eq!(router.get_new_session_id(), 2);
}

#[test]
fn nack_resend_to_a_stranger_is_refused() {
    let mut router = learned_router();
    let mut actions = vec![];
    let message = Message { source: 1, destination: 3, session_id: 0, content: vec![1] };
    router.process_api_command(Command::SendMessage(message), &mut actions).unwrap();
    let mut actions = vec![];
    router.process_sc_command(ScCommand::RemoveSender(2), &mut actions);
    assert!(actions.is_empty());
    let nack = Packet {
        routing_header: SourceRoutingHeader::new(vec![2, 1], 1),
        session_id: 1,
        pack_type: PacketType::Nack(0, NackType::Dropped),
    };
    assert_eq!(router.process(nack, &mut actions), Err(NodeError::NoSuchNeighbor));
    assert!(actions.is_empty());
}
