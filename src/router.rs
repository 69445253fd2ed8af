//! The routing engine: reacts to one inbound packet or command at a time,
//! updating the topology graph and the store, and lists the outbound sends
//! and events that the surrounding program then carries out in order.
use vstd::prelude::*;
use crate::codec::{
    fragment_packets, get_new_flood_request_packet, message_to_packets, packets_to_message,
    reassemble, views, HEADER_LEN,
};
use crate::database::{
    all_acked, fragment_key, unread_drained, with_ack, with_fragment, with_message,
    Database, DatabaseView,
};
use crate::error::NodeError;
use crate::graph::{
    is_route, is_simple_path, kind_code, reports_topology, route_edges, route_vertices,
    EventNetworkGraph, NetGraph, Vertice,
};
use crate::ids::{session_key, FragmentID, MessageID, PacketID, SenderID, SessionID};
use crate::packet::{
    FloodRequest, FloodResponse, Message, MessageView, NackType, NodeType, Packet, PacketType,
    PacketTypeView, PacketView, SourceRoutingHeader,
};

verus! {

/// What the node reports to the supervisor.
#[derive(Clone, Debug, PartialEq, Eq)]
pub enum NodeEvent {
    PacketSent(Packet),
    KnownNetworkGraph(EventNetworkGraph),
    StartingMessageTransmission(Message),
    MessageReceived(Message),
    MessageSentSuccessfully(Message),
}

/// One outbound effect, to be carried out by the surrounding program.
#[derive(Clone, Debug, PartialEq, Eq)]
pub enum Action {
    /// Send the packet to the neighbour with this id.
    Send(u8, Packet),
    /// Report an event to the supervisor.
    Notify(NodeEvent),
    /// Answer the application with the known clients and servers.
    EdgeNodes(Vec<(u8, NodeType)>),
    /// Answer the application with the unread messages.
    UnreadMessages(Vec<Message>),
}

/// Mathematical value of an `Action`.
pub enum ActionView {
    Send(u8, PacketView),
    PacketSent(PacketView),
    KnownNetworkGraph(EventNetworkGraph),
    StartingMessageTransmission(MessageView),
    MessageReceived(MessageView),
    MessageSentSuccessfully(MessageView),
    EdgeNodes(Seq<(u8, NodeType)>),
    UnreadMessages(Seq<MessageView>),
}

impl View for Action {
    type V = ActionView;

    open spec fn view(&self) -> ActionView {
        match self {
            Action::Send(n, p) => ActionView::Send(*n, p@),
            Action::Notify(NodeEvent::PacketSent(p)) => ActionView::PacketSent(p@),
            Action::Notify(NodeEvent::KnownNetworkGraph(g)) => ActionView::KnownNetworkGraph(*g),
            Action::Notify(NodeEvent::StartingMessageTransmission(m)) => ActionView::StartingMessageTransmission(m@),
            Action::Notify(NodeEvent::MessageReceived(m)) => ActionView::MessageReceived(m@),
            Action::Notify(NodeEvent::MessageSentSuccessfully(m)) => ActionView::MessageSentSuccessfully(m@),
            Action::EdgeNodes(v) => ActionView::EdgeNodes(v@),
            Action::UnreadMessages(v) => ActionView::UnreadMessages(v@.map_values(|m: Message| m@)),
        }
    }
}

/// The views of a list of actions.
pub open spec fn action_views(a: Seq<Action>) -> Seq<ActionView> {
    a.map_values(|x: Action| x@)
}

/// Commands of the supervisor.
#[derive(Clone, Copy, Debug, PartialEq, Eq, Structural)]
pub enum ScCommand {
    /// A channel to this neighbour was added.
    AddSender(u8),
    /// The channel to this neighbour was removed.
    RemoveSender(u8),
    /// Any other command; it has no effect here.
    Other,
}

/// Commands of the application.
#[derive(Clone, Debug, PartialEq, Eq)]
pub enum Command {
    GetEdgeNodesFromFlood,
    InitializeFlood,
    GetUnreadMessagesFromServer,
    GetClientsFromServer(u8),
    SendMessage(Message),
}

/// The actions that send `p` to neighbour `n` and report the send.
pub open spec fn send_actions(n: u8, p: PacketView) -> Seq<ActionView> {
    seq![ActionView::Send(n, p), ActionView::PacketSent(p)]
}

/// The actions that send `p` to each neighbour in turn, reporting each send.
pub open spec fn flood_actions(neighbors: Seq<u8>, p: PacketView) -> Seq<ActionView> {
    Seq::new(
        2 * neighbors.len(),
        |i: int|
            if i % 2 == 0 {
                ActionView::Send(neighbors[i / 2], p)
            } else {
                ActionView::PacketSent(p)
            },
    )
}

/// The flood request that node `node_id` sends with flood id `session_id`.
pub open spec fn flood_request_view(session_id: u64, node_id: u8) -> PacketView {
    PacketView {
        hop_index: 0,
        hops: Seq::empty(),
        session_id,
        pack_type: PacketTypeView::FloodRequest {
            flood_id: session_id,
            initiator_id: node_id,
            path_trace: seq![(node_id, NodeType::Client)],
        },
    }
}

/// The hop that a packet goes to next, if its cursor is inside its route.
pub open spec fn next_hop(p: PacketView) -> Option<u8> {
    if p.hop_index < p.hops.len() {
        Some(p.hops[p.hop_index as int])
    } else {
        None
    }
}

/// The ids of a trace, last first.
pub open spec fn reversed_ids(trace: Seq<(u8, NodeType)>) -> Seq<u8> {
    Seq::new(trace.len(), |i: int| trace[trace.len() - 1 - i].0)
}

/// The response to a flood whose trace, the answering node included, is
/// `trace`: it retraces the trace back, its cursor on the first return hop.
pub open spec fn flood_response_view(flood_id: u64, trace: Seq<(u8, NodeType)>, session_id: u64) -> PacketView {
    PacketView {
        hop_index: 1,
        hops: reversed_ids(trace),
        session_id,
        pack_type: PacketTypeView::FloodResponse { flood_id, path_trace: trace },
    }
}

/// The packet `p` with its hops replaced by `hops`.
pub open spec fn with_hops(p: PacketView, hops: Seq<u8>) -> PacketView {
    PacketView { hops, ..p }
}

/// Whether `hops` are the ids of a simple path from `node` (a client) to a
/// known vertex with id `dest`.
pub open spec fn route_found(g: NetGraph, node: u8, dest: u8, hops: Seq<u8>) -> bool {
    exists|c: u8|
        #[trigger] g.vertices().contains((dest, c)) && is_route(
            g.edges(),
            (node, kind_code(NodeType::Client)),
            (dest, c),
            hops,
        )
}

/// Whether `e` is a right reason for finding no route from `node` to `dest`:
/// no vertex has that id, or a vertex with that id has no simple path from
/// `node` to it.
pub open spec fn route_error(g: NetGraph, node: u8, dest: u8, e: NodeError) -> bool {
    ||| e == NodeError::NotFound && forall|c: u8| !g.vertices().contains((dest, c))
    ||| e == NodeError::NoRoute && exists|c: u8|
        #[trigger] g.vertices().contains((dest, c)) && forall|p: Seq<(u8, u8)>|
            !is_simple_path(g.edges(), p, (node, kind_code(NodeType::Client)), (dest, c))
}

/// How resending packet `p` on a fresh route relates the actions before
/// (`a`) and after (`a2`) and the result.
pub open spec fn resent(
    g: NetGraph,
    node: u8,
    neighbors: Seq<u8>,
    p: PacketView,
    a: Seq<ActionView>,
    a2: Seq<ActionView>,
    r: Result<(), NodeError>,
) -> bool {
    match p.destination() {
        None => r == Err::<(), NodeError>(NodeError::EmptyRoute) && a2 == a,
        Some(dest) => match r {
            Ok(_) => exists|h: Seq<u8>|
                #[trigger] route_found(g, node, dest, h) && next_hop(with_hops(p, h)) is Some
                    && neighbors.contains(next_hop(with_hops(p, h))->0) && a2 == a + send_actions(
                    next_hop(with_hops(p, h))->0,
                    with_hops(p, h),
                ),
            Err(e) => a2 == a && (route_error(g, node, dest, e) || (e == NodeError::NoSuchNeighbor
                && exists|h: Seq<u8>|
                #[trigger] route_found(g, node, dest, h) && !(next_hop(with_hops(p, h)) is Some
                    && neighbors.contains(next_hop(with_hops(p, h))->0)))),
        },
    }
}

/// The fragments `0 .. total` of the session under key `k`, in index order,
/// when all of them are stored.
pub open spec fn ordered_fragments(d1: DatabaseView, k: u128) -> Option<Seq<PacketView>> {
    let g = d1.sessions[k];
    if forall|j: u64| j < g.total ==> #[trigger] g.fragments.contains_key(j) {
        Some(Seq::new(g.total as nat, |j: int| g.fragments[j as u64]))
    } else {
        None
    }
}

/// How handling an inbound fragment packet `p` relates the store before
/// (`d`) and after (`d2`), the actions before (`a`) and after (`a2`), and the
/// result: the fragment is saved; once the session's received count equals
/// the count that `p` declares, its fragments are reassembled in index
/// order, and the message is saved and reported.
pub open spec fn fragment_step(
    d: DatabaseView,
    d2: DatabaseView,
    p: PacketView,
    a: Seq<ActionView>,
    a2: Seq<ActionView>,
    r: Result<(), NodeError>,
) -> bool {
    if p.hops.len() == 0 {
        r == Err::<(), NodeError>(NodeError::EmptyRoute) && d2 == d && a2 == a
    } else {
        let d1 = with_fragment(d, p);
        let k = fragment_key(p);
        let f = p.pack_type->MsgFragment_0;
        if d1.sessions[k].received != f.total_n_fragments {
            r is Ok && d2 == d1 && a2 == a
        } else {
            match ordered_fragments(d1, k) {
                Some(ps) => match reassemble(ps) {
                    Some(m) => r is Ok && d2 == with_message(d1, m) && a2 == a.push(
                        ActionView::MessageReceived(m),
                    ),
                    None => r == Err::<(), NodeError>(NodeError::MalformedPayload) && d2 == d1 && a2
                        == a,
                },
                None => r == Err::<(), NodeError>(NodeError::MalformedPayload) && d2 == d1 && a2
                    == a,
            }
        }
    }
}

/// How handling the acknowledgement of fragment `index` of session
/// `session_id`, sent by `node`, relates store, actions and result: the
/// fragment is marked acknowledged; once all stored fragments of the session
/// are, the sent message is reported.
pub open spec fn ack_step(
    d: DatabaseView,
    d2: DatabaseView,
    node: u8,
    session_id: u64,
    index: u64,
    a: Seq<ActionView>,
    a2: Seq<ActionView>,
    r: Result<(), NodeError>,
) -> bool {
    let k = session_key(session_id, node);
    if !(d.sessions.contains_key(k) && d.sessions[k].fragments.contains_key(index)) {
        r == Err::<(), NodeError>(NodeError::UnknownPacket) && d2 == d && a2 == a
    } else {
        let d1 = with_ack(d, k, index);
        &&& d2 == d1
        &&& if !all_acked(d1.sessions[k]) {
            r is Ok && a2 == a
        } else if d1.messages.contains_key(k) {
            r is Ok && a2 == a.push(ActionView::MessageSentSuccessfully(d1.messages[k]))
        } else {
            r == Err::<(), NodeError>(NodeError::UnknownEntity) && a2 == a
        }
    }
}

/// Whether a nack of this kind asks for a new flood before the resend.
pub open spec fn refloods(nack: NackType) -> bool {
    nack is ErrorInRouting || nack is UnexpectedRecipient
}

/// How handling a nack for fragment `index` of session `session_id`
/// relates the actions and the result, in engine state `s`.
pub open spec fn nack_step(
    s: Router,
    session_id: u64,
    index: u64,
    nack: NackType,
    a: Seq<ActionView>,
    a2: Seq<ActionView>,
    r: Result<(), NodeError>,
) -> bool {
    let d = s.store();
    let k = session_key(session_id, s.node());
    if !(d.sessions.contains_key(k) && d.sessions[k].fragments.contains_key(index)) {
        r == Err::<(), NodeError>(NodeError::UnknownPacket) && a2 == a
    } else if nack is DestinationIsDrone {
        r is Ok && a2 == a
    } else {
        let pre = if refloods(nack) {
            a + flood_actions(s.neighbor_ids(), flood_request_view(s.session(), s.node()))
        } else {
            a
        };
        resent(s.net(), s.node(), s.neighbor_ids(), d.sessions[k].fragments[index], pre, a2, r)
    }
}

/// How answering a flood request with this id and trace, in engine state
/// `s`, under the new session id `session_id`, relates actions and result.
pub open spec fn flood_request_step(
    s: Router,
    session_id: u64,
    flood_id: u64,
    trace: Seq<(u8, NodeType)>,
    a: Seq<ActionView>,
    a2: Seq<ActionView>,
    r: Result<(), NodeError>,
) -> bool {
    let resp = flood_response_view(flood_id, trace.push((s.node(), NodeType::Client)), session_id);
    match next_hop(resp) {
        Some(n) if s.neighbor_ids().contains(n) => r is Ok && a2 == a + send_actions(n, resp),
        _ => r == Err::<(), NodeError>(NodeError::NoSuchNeighbor) && a2 == a,
    }
}

/// How learning a flood response's trace relates the engine states `s` and
/// `s2` and the actions: the trace goes into the graph, and the resulting
/// topology is reported.
pub open spec fn flood_response_step(
    s: Router,
    s2: Router,
    trace: Seq<(u8, NodeType)>,
    a: Seq<ActionView>,
    a2: Seq<ActionView>,
) -> bool {
    &&& s2.net().vertices() == s.net().vertices() + route_vertices(trace)
    &&& s2.net().edges() == s.net().edges() + route_edges(trace)
    &&& a2.len() == a.len() + 1
    &&& a2.drop_last() == a
    &&& a2.last() matches ActionView::KnownNetworkGraph(g) && reports_topology(
        g,
        s2.node(),
        s2.net().vertices(),
        s2.net().edges(),
    )
}

/// The actions that send each of `ps` to neighbour `n` in turn, reporting
/// each send.
pub open spec fn fragment_sends(n: u8, ps: Seq<PacketView>) -> Seq<ActionView> {
    Seq::new(
        2 * ps.len(),
        |i: int|
            if i % 2 == 0 {
                ActionView::Send(n, ps[i / 2])
            } else {
                ActionView::PacketSent(ps[i / 2])
            },
    )
}

/// The store after saving each of the fragment packets `ps` in turn.
pub open spec fn with_fragments(d: DatabaseView, ps: Seq<PacketView>) -> DatabaseView
    decreases ps.len(),
{
    if ps.len() == 0 {
        d
    } else {
        with_fragment(with_fragments(d, ps.drop_last()), ps.last())
    }
}

/// The message `m` under session id `session_id`.
pub open spec fn in_session(m: MessageView, session_id: u64) -> MessageView {
    MessageView { session_id, ..m }
}

/// How sending message `m` (already under its new session id) over the
/// route `h` relates store and actions before and after, and the result:
/// the start is reported, the message saved, and each fragment saved and
/// sent in turn to the route's first hop; when that hop is no neighbour,
/// the first fragment is saved and nothing is sent.
pub open spec fn sent_on_route(
    d: DatabaseView,
    d2: DatabaseView,
    neighbors: Seq<u8>,
    m: MessageView,
    h: Seq<u8>,
    a: Seq<ActionView>,
    a2: Seq<ActionView>,
    r: Result<(), NodeError>,
) -> bool {
    let ps = fragment_packets(m, h, 1);
    let a1 = a.push(ActionView::StartingMessageTransmission(m));
    let d1 = with_message(d, m);
    if neighbors.contains(h[1]) {
        r is Ok && a2 == a1 + fragment_sends(h[1], ps) && d2 == with_fragments(d1, ps)
    } else {
        r == Err::<(), NodeError>(NodeError::NoSuchNeighbor) && a2 == a1 && d2 == with_fragment(
            d1,
            ps[0],
        )
    }
}

/// How sending message `m` from engine state `s` relates the next state
/// `s2`, the actions and the result.
pub open spec fn send_step(
    s: Router,
    s2: Router,
    m: MessageView,
    a: Seq<ActionView>,
    a2: Seq<ActionView>,
    r: Result<(), NodeError>,
) -> bool {
    if m.content.len() + HEADER_LEN > usize::MAX {
        r == Err::<(), NodeError>(NodeError::MessageTooLarge) && s2.store() == s.store() && s2.session()
            == s.session() && a2 == a
    } else {
        &&& s2.session() == s.session() + 1
        &&& {
            ||| (r matches Err(e) && route_error(s.net(), s.node(), m.destination, e) && s2.store()
                == s.store() && a2 == a)
            ||| exists|h: Seq<u8>|
                #[trigger] route_found(s.net(), s.node(), m.destination, h) && sent_on_route(
                    s.store(),
                    s2.store(),
                    s.neighbor_ids(),
                    in_session(m, s2.session()),
                    h,
                    a,
                    a2,
                    r,
                )
        }
    }
}

/// `s` without the value `id`.
pub open spec fn without(s: Seq<u8>, id: u8) -> Seq<u8>
    decreases s.len(),
{
    if s.len() == 0 {
        s
    } else if s.last() == id {
        without(s.drop_last(), id)
    } else {
        without(s.drop_last(), id).push(s.last())
    }
}

/// The neighbours after a supervisor command.
pub open spec fn neighbors_after(neighbors: Seq<u8>, command: ScCommand) -> Seq<u8> {
    match command {
        ScCommand::AddSender(id) => if neighbors.contains(id) {
            neighbors
        } else {
            neighbors.push(id)
        },
        ScCommand::RemoveSender(id) => without(neighbors, id),
        ScCommand::Other => neighbors,
    }
}

/// Whether `x` is a known client or server of `g`.
pub open spec fn is_edge_node(g: NetGraph, x: (u8, NodeType)) -> bool {
    g.vertices().contains(crate::graph::node_key(x)) && x.1 != NodeType::Drone
}

/// How answering a request for the known clients and servers of graph `g`
/// relates the actions: the answer lists each of them once, and there is
/// no answer when there is none.
pub open spec fn edge_nodes_answered(g: NetGraph, a: Seq<ActionView>, a2: Seq<ActionView>) -> bool {
    ||| a2 == a && forall|x: (u8, NodeType)| !#[trigger] is_edge_node(g, x)
    ||| a2.len() == a.len() + 1 && a2.drop_last() == a && (a2.last() matches ActionView::EdgeNodes(v)
        && v.len() > 0 && v.no_duplicates() && forall|x: (u8, NodeType)|
        v.contains(x) <==> #[trigger] is_edge_node(g, x))
}

/// The stored messages with these ids.
pub open spec fn messages_of(d: DatabaseView, ids: Seq<MessageID>) -> Seq<MessageView> {
    ids.map_values(|id: MessageID| d.messages[id.key()])
}

/// The routing engine of one client node.
pub struct Router {
    graph: NetGraph,
    node_id: u8,
    session_id: u64,
    neighbors: Vec<u8>,
    database: Database,
}

impl Router {
    /// The topology graph.
    pub closed spec fn net(&self) -> NetGraph {
        self.graph
    }

    /// The store.
    pub closed spec fn store(&self) -> DatabaseView {
        self.database@
    }

    /// The id of this node.
    pub closed spec fn node(&self) -> u8 {
        self.node_id
    }

    /// The last session id handed out.
    pub closed spec fn session(&self) -> u64 {
        self.session_id
    }

    /// The neighbours that packets can be sent to.
    pub closed spec fn neighbor_ids(&self) -> Seq<u8> {
        self.neighbors@
    }

    /// The engine's invariant.
    pub closed spec fn wf(&self) -> bool {
        &&& self.graph.wf()
        &&& self.graph.owner() == self.node_id
        &&& self.database.wf()
        &&& self.neighbors@.no_duplicates()
    }

    /// A new engine for node `node_id` with these neighbours, with an empty
    /// graph and store.
    pub fn new(node_id: u8, neighbors: &Vec<u8>) -> (r: Router)
        requires
            neighbors@.no_duplicates(),
        ensures
            r.wf(),
            r.node() == node_id,
            r.session() == 0,
            r.neighbor_ids() == neighbors@,
            r.net().vertices().is_empty(),
            r.net().edges().is_empty(),
            r.store().messages.is_empty(),
            r.store().sessions.is_empty(),
    {
        let mut list: Vec<u8> = Vec::new();
        let mut i: usize = 0;
        while i < neighbors.len()
            invariant
                i <= neighbors@.len(),
                list@ == neighbors@.subrange(0, i as int),
            decreases neighbors@.len() - i,
        {
            list.push(neighbors[i]);
            i += 1;
            assert(list@ =~= neighbors@.subrange(0, i as int));
        }
        assert(neighbors@.subrange(0, i as int) == neighbors@);
        Router {
            graph: NetGraph::new(node_id),
            node_id,
            session_id: 0,
            neighbors: list,
            database: Database::new(),
        }
    }

    /// The last session id handed out.
    pub fn session_counter(&self) -> (r: u64)
        ensures
            r == self.session(),
    {
        self.session_id
    }

    /// Hands out the next session id.
    pub fn get_new_session_id(&mut self) -> (r: u64)
        requires
            old(self).session() < u64::MAX,
        ensures
            r == old(self).session() + 1,
            final(self).session() == r,
            final(self).wf() == old(self).wf(),
            final(self).net() == old(self).net(),
            final(self).store() == old(self).store(),
            final(self).node() == old(self).node(),
            final(self).neighbor_ids() == old(self).neighbor_ids(),
    {
        self.session_id = self.session_id + 1;
        self.session_id
    }

    fn is_neighbor(&self, id: u8) -> (r: bool)
        ensures
            r == self.neighbors@.contains(id),
    {
        let mut i: usize = 0;
        while i < self.neighbors.len()
            invariant
                i <= self.neighbors@.len(),
                forall|m: int| 0 <= m < i ==> self.neighbors@[m] != id,
            decreases self.neighbors@.len() - i,
        {
            if self.neighbors[i] == id {
                return true;
            }
            i += 1;
        }
        false
    }

    /// Sends `packet` to the hop under its cursor, if that hop is a
    /// neighbour, and reports the send.
    pub fn send_packet(&self, packet: Packet, actions: &mut Vec<Action>) -> (r: Result<(), NodeError>)
        ensures
            match next_hop(packet@) {
                Some(n) if self.neighbor_ids().contains(n) => r is Ok && action_views(final(actions)@)
                    == action_views(old(actions)@) + send_actions(n, packet@),
                _ => r == Err::<(), NodeError>(NodeError::NoSuchNeighbor) && final(actions)@
                    == old(actions)@,
            },
    {
        let index = packet.routing_header.hop_index;
        if index >= packet.routing_header.hops.len() {
            return Err(NodeError::NoSuchNeighbor);
        }
        let neighbor = packet.routing_header.hops[index];
        if !self.is_neighbor(neighbor) {
            return Err(NodeError::NoSuchNeighbor);
        }
        let copy = packet.duplicate();
        let ghost before = actions@;
        actions.push(Action::Send(neighbor, packet));
        actions.push(Action::Notify(NodeEvent::PacketSent(copy)));
        assert(action_views(actions@) =~= action_views(before) + send_actions(neighbor, copy@));
        Ok(())
    }

    /// Sends a flood request, under the current session id, to every
    /// neighbour, reporting each send.
    pub fn flood_network(&self, actions: &mut Vec<Action>)
        ensures
            action_views(final(actions)@) == action_views(old(actions)@) + flood_actions(
                self.neighbor_ids(),
                flood_request_view(self.session(), self.node()),
            ),
    {
        let packet = get_new_flood_request_packet(self.session_id, self.node_id);
        let ghost p = packet@;
        let ghost base = action_views(actions@);
        let mut i: usize = 0;
        while i < self.neighbors.len()
            invariant
                i <= self.neighbors@.len(),
                packet@ == p,
                p == flood_request_view(self.session(), self.node()),
                action_views(actions@) == base + flood_actions(self.neighbors@.subrange(0, i as int), p),
            decreases self.neighbors@.len() - i,
        {
            let ghost before = action_views(actions@);
            actions.push(Action::Send(self.neighbors[i], packet.duplicate()));
            actions.push(Action::Notify(NodeEvent::PacketSent(packet.duplicate())));
            proof {
                lemma_flood_actions_push(self.neighbors@.subrange(0, i as int), self.neighbors@[i as int], p);
                assert(self.neighbors@.subrange(0, i + 1 as int) == self.neighbors@.subrange(0, i as int).push(self.neighbors@[i as int]));
                assert(action_views(actions@) =~= before + send_actions(self.neighbors@[i as int], p));
            }
            i += 1;
        }
        assert(self.neighbors@.subrange(0, i as int) == self.neighbors@);
    }

    /// A fresh random route from this node, as a client, to a known vertex
    /// with id `destination_node`.
    pub fn get_route_to_node(&self, destination_node: u8) -> (r: Result<Vec<u8>, NodeError>)
        requires
            self.wf(),
        ensures
            match r {
                Ok(h) => route_found(self.net(), self.node(), destination_node, h@),
                Err(e) => route_error(self.net(), self.node(), destination_node, e),
            },
    {
        let from = Vertice::new((self.node_id, NodeType::Client));
        let node_type = match self.graph.get_node_type(destination_node) {
            Ok(t) => t,
            Err(e) => {
                return Err(e);
            },
        };
        let to = Vertice::new((destination_node, node_type));
        match self.graph.get_random_route(from, to) {
            Some(h) => Ok(h),
            None => Err(NodeError::NoRoute),
        }
    }

    /// Resends `packet` to its destination on a fresh random route.
    pub fn resend_on_new_route(&self, packet: Packet, actions: &mut Vec<Action>) -> (r: Result<
        (),
        NodeError,
    >)
        requires
            self.wf(),
        ensures
            resent(
                self.net(),
                self.node(),
                self.neighbor_ids(),
                packet@,
                action_views(old(actions)@),
                action_views(final(actions)@),
                r,
            ),
    {
        let destination = match packet.routing_header.destination() {
            Some(d) => d,
            None => {
                return Err(NodeError::EmptyRoute);
            },
        };
        let new_route = match self.get_route_to_node(destination) {
            Ok(h) => h,
            Err(e) => {
                return Err(e);
            },
        };
        let ghost h = new_route@;
        let ghost stored = packet@;
        let mut packet = packet;
        packet.routing_header.hops = new_route;
        assert(packet@ == with_hops(stored, h)) by {
            assert(packet@ =~= with_hops(stored, h));
        }
        let r = self.send_packet(packet, actions);
        assert(route_found(self.net(), self.node(), destination, h));
        r
    }

    /// Handles an inbound fragment.
    pub fn process_fragment(&mut self, packet: Packet, actions: &mut Vec<Action>) -> (r: Result<
        (),
        NodeError,
    >)
        requires
            old(self).wf(),
            packet@.pack_type is MsgFragment,
        ensures
            final(self).wf(),
            final(self).net() == old(self).net(),
            final(self).node() == old(self).node(),
            final(self).session() == old(self).session(),
            final(self).neighbor_ids() == old(self).neighbor_ids(),
            fragment_step(
                old(self).store(),
                final(self).store(),
                packet@,
                action_views(old(actions)@),
                action_views(final(actions)@),
                r,
            ),
    {
        let total = match &packet.pack_type {
            PacketType::MsgFragment(f) => f.total_n_fragments,
            _ => {
                return Err(NodeError::WrongPacketKind);
            },
        };
        let session_id = packet.session_id;
        let sender_id = match packet.routing_header.source() {
            Some(s) => s,
            None => {
                return Err(NodeError::EmptyRoute);
            },
        };
        let ghost p = packet@;
        match self.database.save_packet(packet) {
            Ok(()) => {},
            Err(e) => {
                return Err(e);
            },
        }
        let ghost d1 = self.database@;
        let ghost k = fragment_key(p);
        assert(k == session_key(session_id, sender_id));
        let received = match self.database.get_amount_of_fragments_received(session_id, sender_id) {
            Some(n) => n,
            None => {
                return Err(NodeError::UnknownSession);
            },
        };
        if received == total {
            let packets = match self.database.fragments_in_order(session_id, sender_id) {
                Some(v) => v,
                None => {
                    return Err(NodeError::MalformedPayload);
                },
            };
            assert(ordered_fragments(d1, k) == Some(views(packets@))) by {
                assert(views(packets@) =~= Seq::new(
                    d1.sessions[k].total as nat,
                    |j: int| d1.sessions[k].fragments[j as u64],
                ));
            }
            let message = match packets_to_message(&packets) {
                Ok(m) => m,
                Err(e) => {
                    return Err(e);
                },
            };
            self.database.save_message(&message);
            let ghost before = actions@;
            actions.push(Action::Notify(NodeEvent::MessageReceived(message)));
            assert(action_views(actions@) =~= action_views(before).push(
                ActionView::MessageReceived(message@),
            ));
        }
        Ok(())
    }

    /// Handles the acknowledgement of fragment `fragment_index` of a session
    /// this node sent.
    pub fn process_ack(&mut self, session_id: u64, fragment_index: u64, actions: &mut Vec<Action>) -> (r:
        Result<(), NodeError>)
        requires
            old(self).wf(),
        ensures
            final(self).wf(),
            final(self).net() == old(self).net(),
            final(self).node() == old(self).node(),
            final(self).session() == old(self).session(),
            final(self).neighbor_ids() == old(self).neighbor_ids(),
            ack_step(
                old(self).store(),
                final(self).store(),
                old(self).node(),
                session_id,
                fragment_index,
                action_views(old(actions)@),
                action_views(final(actions)@),
                r,
            ),
    {
        let packet_id = PacketID(
            SessionID(session_id),
            SenderID(self.node_id),
            FragmentID(fragment_index),
        );
        match self.database.update_packet_ack_received(packet_id) {
            Ok(()) => {},
            Err(e) => {
                return Err(e);
            },
        }
        let fully_sent = match self.database.all_packets_successfully_sent(session_id, self.node_id) {
            Some(b) => b,
            None => {
                return Err(NodeError::UnknownSession);
            },
        };
        if fully_sent {
            let message_id = MessageID(SessionID(session_id), SenderID(self.node_id));
            match self.database.get_message(message_id) {
                Some(message) => {
                    let ghost before = actions@;
                    actions.push(Action::Notify(NodeEvent::MessageSentSuccessfully(message)));
                    assert(action_views(actions@) =~= action_views(before).push(
                        ActionView::MessageSentSuccessfully(message@),
                    ));
                },
                None => {
                    return Err(NodeError::UnknownEntity);
                },
            }
        }
        Ok(())
    }

    /// Handles a nack for fragment `fragment_index` of a session this node
    /// sent: on a routing error or a wrong recipient, floods the network
    /// first; on those and on a drop, resends the stored fragment on a fresh
    /// route. A nack saying the destination is a relay is left unanswered.
    pub fn process_nack(
        &self,
        session_id: u64,
        fragment_index: u64,
        nack: NackType,
        actions: &mut Vec<Action>,
    ) -> (r: Result<(), NodeError>)
        requires
            self.wf(),
        ensures
            nack_step(
                *self,
                session_id,
                fragment_index,
                nack,
                action_views(old(actions)@),
                action_views(final(actions)@),
                r,
            ),
    {
        let packet_id = PacketID(
            SessionID(session_id),
            SenderID(self.node_id),
            FragmentID(fragment_index),
        );
        let packet = match self.database.get_packet(packet_id) {
            Some(p) => p,
            None => {
                return Err(NodeError::UnknownPacket);
            },
        };
        match nack {
            NackType::DestinationIsDrone => Ok(()),
            NackType::Dropped => self.resend_on_new_route(packet, actions),
            _ => {
                self.flood_network(actions);
                self.resend_on_new_route(packet, actions)
            },
        }
    }

    /// Answers a flood request: appends this node, as a client, to its
    /// trace, and sends the response back along the trace under a new
    /// session id.
    pub fn process_flood_request(&mut self, request: FloodRequest, actions: &mut Vec<Action>) -> (r:
        Result<(), NodeError>)
        requires
            old(self).wf(),
            old(self).session() < u64::MAX,
        ensures
            final(self).wf(),
            final(self).net() == old(self).net(),
            final(self).store() == old(self).store(),
            final(self).node() == old(self).node(),
            final(self).session() == old(self).session() + 1,
            final(self).neighbor_ids() == old(self).neighbor_ids(),
            flood_request_step(
                *old(self),
                final(self).session(),
                request.flood_id,
                request.path_trace@,
                action_views(old(actions)@),
                action_views(final(actions)@),
                r,
            ),
    {
        let mut trace = request.path_trace;
        trace.push((self.node_id, NodeType::Client));
        let session_id = self.get_new_session_id();
        let mut hops: Vec<u8> = Vec::new();
        let mut i: usize = trace.len();
        while i > 0
            invariant
                i <= trace@.len(),
                hops@ == Seq::new(
                    (trace@.len() - i) as nat,
                    |j: int| trace@[trace@.len() - 1 - j].0,
                ),
            decreases i,
        {
            i -= 1;
            hops.push(trace[i].0);
            assert(hops@ =~= Seq::new(
                (trace@.len() - i) as nat,
                |j: int| trace@[trace@.len() - 1 - j].0,
            ));
        }
        let ghost t = trace@;
        let response = Packet {
            routing_header: SourceRoutingHeader { hop_index: 1, hops },
            session_id,
            pack_type: PacketType::FloodResponse(
                FloodResponse { flood_id: request.flood_id, path_trace: trace },
            ),
        };
        assert(response@ == flood_response_view(request.flood_id, t, session_id)) by {
            assert(response@.hops =~= reversed_ids(t));
        }
        self.send_packet(response, actions)
    }

    /// Learns the trace of a flood response into the graph and reports the
    /// resulting topology.
    pub fn process_flood_response(&mut self, response: &FloodResponse, actions: &mut Vec<Action>)
        requires
            old(self).wf(),
        ensures
            final(self).wf(),
            final(self).store() == old(self).store(),
            final(self).node() == old(self).node(),
            final(self).session() == old(self).session(),
            final(self).neighbor_ids() == old(self).neighbor_ids(),
            flood_response_step(
                *old(self),
                *final(self),
                response.path_trace@,
                action_views(old(actions)@),
                action_views(final(actions)@),
            ),
    {
        let report = self.graph.add_route(&response.path_trace);
        let ghost before = actions@;
        actions.push(Action::Notify(NodeEvent::KnownNetworkGraph(report)));
        assert(action_views(actions@) =~= action_views(before).push(
            ActionView::KnownNetworkGraph(report),
        ));
        assert(action_views(actions@).drop_last() =~= action_views(before));
        assert(action_views(actions@).last() == ActionView::KnownNetworkGraph(report));
    }

    /// Sends an application message: allocates a session id for it, picks a
    /// random route to its destination, reports the start, saves the message
    /// and then saves and sends each fragment in turn.
    pub fn send_message(&mut self, message: Message, actions: &mut Vec<Action>) -> (r: Result<
        (),
        NodeError,
    >)
        requires
            old(self).wf(),
            old(self).session() < u64::MAX,
        ensures
            final(self).wf(),
            final(self).net() == old(self).net(),
            final(self).node() == old(self).node(),
            final(self).neighbor_ids() == old(self).neighbor_ids(),
            send_step(
                *old(self),
                *final(self),
                message@,
                action_views(old(actions)@),
                action_views(final(actions)@),
                r,
            ),
    {
        if message.content.len() > usize::MAX - HEADER_LEN {
            return Err(NodeError::MessageTooLarge);
        }
        let mut message = message;
        let ghost requested = message@;
        message.session_id = self.get_new_session_id();
        assert(message@ == in_session(requested, self.session_id));
        let hops = match self.get_route_to_node(message.destination) {
            Ok(h) => h,
            Err(e) => {
                return Err(e);
            },
        };
        let ghost h = hops@;
        proof {
            let c = choose|c: u8|
                #[trigger] self.net().vertices().contains((message.destination, c)) && is_route(
                    self.net().edges(),
                    (self.node(), kind_code(NodeType::Client)),
                    (message.destination, c),
                    h,
                );
            let p = choose|p: Seq<(u8, u8)>|
                is_simple_path(
                    self.net().edges(),
                    p,
                    (self.node(), kind_code(NodeType::Client)),
                    (message.destination, c),
                ) && h == crate::graph::path_ids(p);
            assert(h.len() >= 2);
        }
        let routing_header = SourceRoutingHeader::new(hops, 1);
        let packets = message_to_packets(&message, &routing_header);
        let ghost ps = views(packets@);
        let ghost a1 = action_views(actions@).push(
            ActionView::StartingMessageTransmission(message@),
        );
        actions.push(Action::Notify(NodeEvent::StartingMessageTransmission(message.duplicate())));
        assert(action_views(actions@) =~= a1);
        self.database.save_message(&message);
        let ghost d1 = self.database@;
        let next = routing_header.hops[1];
        assert(ps.len() >= 1);
        if !self.is_neighbor(next) {
            assert(ps[0].hops == h && ps[0].pack_type is MsgFragment);
            assert(packets@[0]@ == ps[0]);
            let saved = self.database.save_packet(packets[0].duplicate());
            assert(saved is Ok);
            assert(a1 + Seq::<ActionView>::empty() =~= a1);
            assert(route_found(old(self).net(), old(self).node(), requested.destination, h));
            return Err(NodeError::NoSuchNeighbor);
        }
        let mut i: usize = 0;
        while i < packets.len()
            invariant
                self.wf(),
                self.net() == old(self).net(),
                self.node() == old(self).node(),
                self.session() == old(self).session() + 1,
                self.neighbor_ids() == old(self).neighbor_ids(),
                self.neighbor_ids().contains(next),
                ps == views(packets@),
                ps == fragment_packets(message@, h, 1),
                h.len() >= 2,
                next == h[1],
                i <= ps.len(),
                self.store() == with_fragments(d1, ps.subrange(0, i as int)),
                action_views(actions@) == a1 + fragment_sends(next, ps.subrange(0, i as int)),
            decreases ps.len() - i,
        {
            let ghost p = ps[i as int];
            assert(p.hops == h && p.hop_index == 1);
            assert(p.pack_type is MsgFragment);
            let saved = self.database.save_packet(packets[i].duplicate());
            assert(saved is Ok);
            assert(ps.subrange(0, i + 1 as int).drop_last() == ps.subrange(0, i as int));
            assert(self.store() == with_fragments(d1, ps.subrange(0, i + 1 as int)));
            assert(next_hop(p) == Some(next));
            let sent = self.send_packet(packets[i].duplicate(), actions);
            assert(sent is Ok);
            proof {
                lemma_fragment_sends_push(next, ps.subrange(0, i as int), p);
                assert(ps.subrange(0, i + 1 as int) =~= ps.subrange(0, i as int).push(p));
            }
            i += 1;
        }
        assert(ps.subrange(0, i as int) == ps);
        assert(route_found(self.net(), self.node(), message.destination, h));
        Ok(())
    }

    /// Handles one inbound packet, by its kind.
    pub fn process(&mut self, packet: Packet, actions: &mut Vec<Action>) -> (r: Result<(), NodeError>)
        requires
            old(self).wf(),
            packet@.pack_type is FloodRequest ==> old(self).session() < u64::MAX,
        ensures
            final(self).wf(),
            final(self).node() == old(self).node(),
            final(self).neighbor_ids() == old(self).neighbor_ids(),
            ({
                let s = *old(self);
                let s2 = *final(self);
                let a = action_views(old(actions)@);
                let a2 = action_views(final(actions)@);
                match packet@.pack_type {
                    PacketTypeView::MsgFragment(_) => s2.net() == s.net() && s2.session()
                        == s.session() && fragment_step(s.store(), s2.store(), packet@, a, a2, r),
                    PacketTypeView::Ack(index) => s2.net() == s.net() && s2.session() == s.session()
                        && ack_step(s.store(), s2.store(), s.node(), packet.session_id, index, a, a2, r),
                    PacketTypeView::Nack(index, nack) => s2 == s && nack_step(
                        s,
                        packet.session_id,
                        index,
                        nack,
                        a,
                        a2,
                        r,
                    ),
                    PacketTypeView::FloodRequest { flood_id, path_trace, .. } => s2.net() == s.net()
                        && s2.store() == s.store() && s2.session() == s.session() + 1
                        && flood_request_step(s, s2.session(), flood_id, path_trace, a, a2, r),
                    PacketTypeView::FloodResponse { path_trace, .. } => s2.store() == s.store()
                        && s2.session() == s.session() && r is Ok && flood_response_step(
                        s,
                        s2,
                        path_trace,
                        a,
                        a2,
                    ),
                }
            }),
    {
        let session_id = packet.session_id;
        match packet.pack_type {
            PacketType::MsgFragment(f) => {
                let packet = Packet {
                    routing_header: packet.routing_header,
                    session_id,
                    pack_type: PacketType::MsgFragment(f),
                };
                self.process_fragment(packet, actions)
            },
            PacketType::Ack(index) => self.process_ack(session_id, index, actions),
            PacketType::Nack(index, nack) => self.process_nack(session_id, index, nack, actions),
            PacketType::FloodRequest(request) => self.process_flood_request(request, actions),
            PacketType::FloodResponse(response) => {
                self.process_flood_response(&response, actions);
                Ok(())
            },
        }
    }

    /// Handles a supervisor command: a neighbour added or removed updates
    /// the neighbours and floods the network anew; other commands do
    /// nothing.
    pub fn process_sc_command(&mut self, command: ScCommand, actions: &mut Vec<Action>)
        requires
            old(self).wf(),
        ensures
            final(self).wf(),
            final(self).net() == old(self).net(),
            final(self).store() == old(self).store(),
            final(self).node() == old(self).node(),
            final(self).session() == old(self).session(),
            final(self).neighbor_ids() == neighbors_after(old(self).neighbor_ids(), command),
            command is Other ==> final(actions)@ == old(actions)@,
            !(command is Other) ==> action_views(final(actions)@) == action_views(old(actions)@)
                + flood_actions(
                final(self).neighbor_ids(),
                flood_request_view(old(self).session(), old(self).node()),
            ),
    {
        match command {
            ScCommand::RemoveSender(id) => {
                self.remove_neighbor(id);
                self.flood_network(actions);
            },
            ScCommand::AddSender(id) => {
                if !self.is_neighbor(id) {
                    self.neighbors.push(id);
                    assert forall|i: int, j: int|
                        0 <= i < j < self.neighbors@.len() implies self.neighbors@[i]
                        != self.neighbors@[j] by {
                        if j == self.neighbors@.len() - 1 {
                            assert(old(self).neighbors@.contains(self.neighbors@[i]));
                        }
                    }
                }
                self.flood_network(actions);
            },
            ScCommand::Other => {},
        }
    }

    fn remove_neighbor(&mut self, id: u8)
        requires
            old(self).wf(),
        ensures
            final(self).wf(),
            final(self).net() == old(self).net(),
            final(self).store() == old(self).store(),
            final(self).node() == old(self).node(),
            final(self).session() == old(self).session(),
            final(self).neighbor_ids() == without(old(self).neighbor_ids(), id),
    {
        let ghost s = self.neighbors@;
        let mut kept: Vec<u8> = Vec::new();
        let mut i: usize = 0;
        while i < self.neighbors.len()
            invariant
                s == self.neighbors@,
                s.no_duplicates(),
                i <= s.len(),
                kept@ == without(s.subrange(0, i as int), id),
            decreases s.len() - i,
        {
            let ghost pre = s.subrange(0, i as int);
            assert(s.subrange(0, i + 1 as int).drop_last() == pre);
            if self.neighbors[i] != id {
                kept.push(self.neighbors[i]);
            }
            i += 1;
        }
        assert(s.subrange(0, i as int) == s);
        proof {
            lemma_without(s, id);
        }
        self.neighbors = kept;
    }

    /// Handles an application command.
    pub fn process_api_command(&mut self, command: Command, actions: &mut Vec<Action>) -> (r: Result<
        (),
        NodeError,
    >)
        requires
            old(self).wf(),
            command is SendMessage ==> old(self).session() < u64::MAX,
        ensures
            final(self).wf(),
            final(self).node() == old(self).node(),
            final(self).neighbor_ids() == old(self).neighbor_ids(),
            final(self).net() == old(self).net(),
            ({
                let s = *old(self);
                let s2 = *final(self);
                let a = action_views(old(actions)@);
                let a2 = action_views(final(actions)@);
                match command {
                    Command::GetEdgeNodesFromFlood => s2 == s && r is Ok && edge_nodes_answered(
                        s.net(),
                        a,
                        a2,
                    ),
                    Command::InitializeFlood => s2 == s && r is Ok && a2 == a + flood_actions(
                        s.neighbor_ids(),
                        flood_request_view(s.session(), s.node()),
                    ),
                    Command::GetUnreadMessagesFromServer => s2.session() == s.session() && r is Ok
                        && exists|ids: Option<Seq<MessageID>>|
                        #[trigger] unread_drained(s.store(), s2.store(), s.node(), ids) && match ids {
                            None => a2 == a,
                            Some(v) => a2 == a.push(
                                ActionView::UnreadMessages(messages_of(s.store(), v)),
                            ),
                        },
                    Command::GetClientsFromServer(_) => s2 == s && r is Ok && a2 == a,
                    Command::SendMessage(m) => send_step(s, s2, m@, a, a2, r),
                }
            }),
    {
        match command {
            Command::GetEdgeNodesFromFlood => {
                let found = self.graph.get_edge_nodes();
                match found {
                    Some(nodes) => {
                        let ghost before = action_views(actions@);
                        assert forall|x: (u8, NodeType)|
                            nodes@.contains(x) <==> #[trigger] is_edge_node(self.net(), x) by {}
                        actions.push(Action::EdgeNodes(nodes));
                        assert(action_views(actions@) =~= before.push(
                            ActionView::EdgeNodes(nodes@),
                        ));
                        assert(action_views(actions@).drop_last() =~= before);
                    },
                    None => {
                        assert forall|x: (u8, NodeType)| !#[trigger] is_edge_node(self.net(), x) by {}
                    },
                }
                Ok(())
            },
            Command::InitializeFlood => {
                self.flood_network(actions);
                Ok(())
            },
            Command::SendMessage(message) => self.send_message(message, actions),
            Command::GetUnreadMessagesFromServer => {
                let ghost d = self.database@;
                let drained = self.database.get_undread_message_ids_from_server(self.node_id);
                let ghost ids = match &drained {
                    Some(v) => Some(v@),
                    None => None::<Seq<MessageID>>,
                };
                assert(unread_drained(d, self.database@, self.node_id, ids));
                if let Some(unread_ids) = drained {
                    let mut messages: Vec<Message> = Vec::new();
                    let mut i: usize = 0;
                    while i < unread_ids.len()
                        invariant
                            self.wf(),
                            unread_drained(d, self.database@, self.node_id, Some(unread_ids@)),
                            i <= unread_ids@.len(),
                            messages@.map_values(|m: Message| m@) == messages_of(
                                d,
                                unread_ids@.subrange(0, i as int),
                            ),
                        decreases unread_ids@.len() - i,
                    {
                        let id = unread_ids[i];
                        assert(crate::database::is_fresh(d, self.node_id, id.key()));
                        assert(self.database@.messages == d.messages);
                        let ghost before = messages@;
                        match self.database.get_message(id) {
                            Some(m) => {
                                messages.push(m);
                                assert(messages@.map_values(|m: Message| m@) =~= before.map_values(
                                    |m: Message| m@,
                                ).push(d.messages[id.key()]));
                            },
                            None => {
                                assert(false);
                            },
                        }
                        i += 1;
                        assert(messages@.map_values(|m: Message| m@) =~= messages_of(
                            d,
                            unread_ids@.subrange(0, i as int),
                        ));
                    }
                    assert(unread_ids@.subrange(0, i as int) == unread_ids@);
                    let ghost before = action_views(actions@);
                    actions.push(Action::UnreadMessages(messages));
                    assert(action_views(actions@) =~= before.push(
                        ActionView::UnreadMessages(messages_of(d, unread_ids@)),
                    ));
                    assert(unread_drained(d, self.database@, self.node_id, Some(unread_ids@)));
                    assert(ids == Some(unread_ids@));
                }
                assert(unread_drained(old(self).store(), self.store(), old(self).node(), ids));
                Ok(())
            },
            Command::GetClientsFromServer(_) => Ok(()),
        }
    }
}

proof fn lemma_flood_actions_push(ns: Seq<u8>, n: u8, p: PacketView)
    ensures
        flood_actions(ns.push(n), p) == flood_actions(ns, p) + send_actions(n, p),
{
    let l = flood_actions(ns.push(n), p);
    let r = flood_actions(ns, p) + send_actions(n, p);
    assert forall|j: int| 0 <= j < l.len() implies l[j] == r[j] by {
        if j < 2 * ns.len() {
            assert(ns.push(n)[j / 2] == ns[j / 2]);
        }
    }
    assert(l =~= r);
}

proof fn lemma_fragment_sends_push(n: u8, ps: Seq<PacketView>, p: PacketView)
    ensures
        fragment_sends(n, ps.push(p)) == fragment_sends(n, ps) + send_actions(n, p),
{
    let l = fragment_sends(n, ps.push(p));
    let r = fragment_sends(n, ps) + send_actions(n, p);
    assert forall|j: int| 0 <= j < l.len() implies l[j] == r[j] by {
        if j < 2 * ps.len() {
            assert(ps.push(p)[j / 2] == ps[j / 2]);
        }
    }
    assert(l =~= r);
}

proof fn lemma_without(s: Seq<u8>, id: u8)
    requires
        s.no_duplicates(),
    ensures
        without(s, id).no_duplicates(),
        forall|x: u8| without(s, id).contains(x) <==> (s.contains(x) && x != id),
    decreases s.len(),
{
    if s.len() > 0 {
        let t = s.drop_last();
        assert(t.no_duplicates());
        lemma_without(t, id);
        assert forall|x: u8| s.contains(x) <==> (t.contains(x) || x == s.last()) by {
            if s.contains(x) && x != s.last() {
                let i = choose|i: int| 0 <= i < s.len() && s[i] == x;
                assert(t[i] == x);
            }
            if t.contains(x) {
                let i = choose|i: int| 0 <= i < t.len() && t[i] == x;
                assert(s[i] == x);
            }
            if x == s.last() {
                assert(s[s.len() - 1] == x);
            }
        }
        assert(!t.contains(s.last())) by {
            if t.contains(s.last()) {
                let i = choose|i: int| 0 <= i < t.len() && t[i] == s.last();
                assert(s[i] == s[s.len() - 1]);
            }
        }
        if s.last() != id {
            let w = without(t, id);
            assert forall|x: u8| w.push(s.last()).contains(x) <==> (w.contains(x) || x == s.last()) by {
                if w.push(s.last()).contains(x) && x != s.last() {
                    let i = choose|i: int| 0 <= i < w.len() + 1 && w.push(s.last())[i] == x;
                    assert(w[i] == x);
                }
                if w.contains(x) {
                    let i = choose|i: int| 0 <= i < w.len() && w[i] == x;
                    assert(w.push(s.last())[i] == x);
                }
                if x == s.last() {
                    assert(w.push(s.last())[w.len() as int] == x);
                }
            }
            assert forall|i: int, j: int|
                0 <= i < j < w.len() + 1 implies w.push(s.last())[i] != w.push(s.last())[j] by {
                if j == w.len() {
                    assert(w.contains(w[i]));
                }
            }
        }
    }
}

} // verus!
