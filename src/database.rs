//! The session and fragment store: messages, fragments per session, and the
//! read, acknowledged and reported marks.
//!
//! A (session, sender) pair is keyed by `session_key`; all marks only grow.
use std::collections::{HashMap, HashSet};
use vstd::prelude::*;
use crate::codec::views;
use crate::error::NodeError;
use crate::ids::{
    lemma_session_key_injective, session_key, session_key_of, MessageID, PacketID,
    SenderID, SessionID,
};
use crate::packet::{Message, MessageView, Packet, PacketType, PacketView};

verus! {

broadcast use vstd::std_specs::hash::group_hash_axioms;

/// What is known of one session from one sender.
pub struct SessionView {
    /// Stored fragments by index.
    pub fragments: Map<u64, PacketView>,
    /// Fragment indices in the order in which they first arrived.
    pub order: Seq<u64>,
    /// The fragment count that the session's first fragment declared.
    pub total: u64,
    /// How many distinct fragments arrived.
    pub received: u64,
    /// Whether the received count has reached the declared count.
    pub complete: bool,
    /// Fragment indices whose acknowledgement arrived.
    pub acked: Set<u64>,
    /// Fragment indices reported to the supervisor.
    pub sent_to_sc: Set<u64>,
}

/// Mathematical value of the store.
pub struct DatabaseView {
    /// Messages by `session_key(session, source)`.
    pub messages: Map<u128, MessageView>,
    /// Message keys in the order in which they were first saved.
    pub message_order: Seq<u128>,
    /// Sessions by `session_key(session, sender)`.
    pub sessions: Map<u128, SessionView>,
    pub messages_sent_to_sc: Set<u128>,
    pub messages_read: Set<u128>,
}

/// A session that has not received anything yet.
pub open spec fn empty_session(total: u64) -> SessionView {
    SessionView {
        fragments: Map::empty(),
        order: Seq::empty(),
        total,
        received: 0,
        complete: false,
        acked: Set::empty(),
        sent_to_sc: Set::empty(),
    }
}

/// The session key under which a fragment packet is stored: its session and
/// the first hop of its route.
pub open spec fn fragment_key(p: PacketView) -> u128 {
    session_key(p.session_id, p.hops[0])
}

/// The store after saving the fragment packet `p`: the fragment is stored
/// under its index, and counted only if that index is new.
pub open spec fn with_fragment(d: DatabaseView, p: PacketView) -> DatabaseView
    recommends
        p.pack_type is MsgFragment,
        p.hops.len() > 0,
{
    let f = p.pack_type->MsgFragment_0;
    let k = fragment_key(p);
    let g = if d.sessions.contains_key(k) {
        d.sessions[k]
    } else {
        empty_session(f.total_n_fragments)
    };
    let is_new = !g.fragments.contains_key(f.fragment_index);
    let received = if is_new {
        (g.received + 1) as u64
    } else {
        g.received
    };
    let g2 = SessionView {
        fragments: g.fragments.insert(f.fragment_index, p),
        order: if is_new {
            g.order.push(f.fragment_index)
        } else {
            g.order
        },
        received,
        complete: g.complete || received == g.total,
        ..g
    };
    DatabaseView { sessions: d.sessions.insert(k, g2), ..d }
}

/// The store after saving message `m` under its session and source.
pub open spec fn with_message(d: DatabaseView, m: MessageView) -> DatabaseView {
    let k = session_key(m.session_id, m.source);
    DatabaseView {
        messages: d.messages.insert(k, m),
        message_order: if d.messages.contains_key(k) {
            d.message_order
        } else {
            d.message_order.push(k)
        },
        ..d
    }
}

/// Whether every stored fragment of the session was acknowledged.
pub open spec fn all_acked(g: SessionView) -> bool {
    forall|j: u64| #[trigger] g.fragments.contains_key(j) ==> g.acked.contains(j)
}

/// The store after the acknowledgement of fragment `index` of the session
/// under key `k` arrived.
pub open spec fn with_ack(d: DatabaseView, k: u128, index: u64) -> DatabaseView {
    DatabaseView {
        sessions: d.sessions.insert(
            k,
            SessionView { acked: d.sessions[k].acked.insert(index), ..d.sessions[k] },
        ),
        ..d
    }
}

/// A message that a drain for `node_id` would hand out: stored, not read,
/// and not sent by `node_id`.
pub open spec fn is_fresh(d: DatabaseView, node_id: u8, k: u128) -> bool {
    &&& d.messages.contains_key(k)
    &&& !d.messages_read.contains(k)
    &&& d.messages[k].source != node_id
}

/// The id under which a stored message is known.
pub open spec fn message_id_of(m: MessageView) -> MessageID {
    MessageID(SessionID(m.session_id), SenderID(m.source))
}

/// How a drain of unread messages for `node_id` relates the store before,
/// the store after, and what it returned.
pub open spec fn unread_drained(
    d: DatabaseView,
    d2: DatabaseView,
    node_id: u8,
    r: Option<Seq<MessageID>>,
) -> bool {
    &&& d2 == DatabaseView {
        messages_read: d.messages_read + Set::new(|k: u128| is_fresh(d, node_id, k)),
        ..d
    }
    &&& match r {
        None => forall|k: u128| !is_fresh(d, node_id, k),
        Some(s) => {
            &&& s.len() > 0
            &&& s.no_duplicates()
            &&& forall|i: int|
                0 <= i < s.len() ==> #[trigger] is_fresh(d, node_id, s[i].key()) && s[i]
                    == message_id_of(d.messages[s[i].key()])
            &&& forall|k: u128| is_fresh(d, node_id, k) ==> exists|i: int|
                0 <= i < s.len() && #[trigger] s[i].key() == k
        },
    }
}

/// The fragments of one session from one sender.
struct PacketStore {
    packets: HashMap<u64, Packet>,
    order: Vec<u64>,
    all_fragments_received: bool,
    total_amount_of_frags: u64,
    received_amount_of_frags: u64,
    acked: HashSet<u64>,
    sent_to_sc: HashSet<u64>,
}

impl PacketStore {
    closed spec fn view(&self) -> SessionView {
        SessionView {
            fragments: self.packets@.map_values(|p: Packet| p@),
            order: self.order@,
            total: self.total_amount_of_frags,
            received: self.received_amount_of_frags,
            complete: self.all_fragments_received,
            acked: self.acked@,
            sent_to_sc: self.sent_to_sc@,
        }
    }

    closed spec fn wf(&self) -> bool {
        &&& self.order@.no_duplicates()
        &&& forall|i: int| 0 <= i < self.order@.len() ==> self.packets@.contains_key(#[trigger] self.order@[i])
        &&& forall|j: u64| self.packets@.contains_key(j) ==> self.order@.contains(j)
        &&& self.received_amount_of_frags == self.order@.len()
        &&& forall|j: u64| self.acked@.contains(j) ==> self.packets@.contains_key(j)
    }

    fn new(total_amount_of_frags: u64) -> (r: PacketStore)
        ensures
            r.wf(),
            r.view() == empty_session(total_amount_of_frags),
    {
        let r = PacketStore {
            packets: HashMap::new(),
            order: Vec::new(),
            all_fragments_received: false,
            total_amount_of_frags,
            received_amount_of_frags: 0,
            acked: HashSet::new(),
            sent_to_sc: HashSet::new(),
        };
        assert(r.view().fragments =~= Map::empty());
        r
    }
}

/// The store of messages, fragments and their marks.
pub struct Database {
    messages: HashMap<u128, Message>,
    message_keys: Vec<u128>,
    packets: HashMap<u128, PacketStore>,
    messages_sent_to_sc: HashSet<u128>,
    messages_read: HashSet<u128>,
}

impl View for Database {
    type V = DatabaseView;

    closed spec fn view(&self) -> DatabaseView {
        DatabaseView {
            messages: self.messages@.map_values(|m: Message| m@),
            message_order: self.message_keys@,
            sessions: self.packets@.map_values(|s: PacketStore| s.view()),
            messages_sent_to_sc: self.messages_sent_to_sc@,
            messages_read: self.messages_read@,
        }
    }
}

impl Database {
    /// The store's invariant.
    pub closed spec fn wf(&self) -> bool {
        &&& self.message_keys@.no_duplicates()
        &&& forall|i: int|
            0 <= i < self.message_keys@.len() ==> self.messages@.contains_key(
                #[trigger] self.message_keys@[i],
            )
        &&& forall|k: u128| self.messages@.contains_key(k) ==> self.message_keys@.contains(k)
        &&& forall|k: u128| #[trigger]
            self.messages@.contains_key(k) ==> k == session_key(
                self.messages@[k].session_id,
                self.messages@[k].source,
            )
        &&& forall|k: u128| #[trigger] self.packets@.contains_key(k) ==> self.packets@[k].wf()
    }

    /// An empty store.
    pub fn new() -> (r: Database)
        ensures
            r.wf(),
            r@.messages.is_empty(),
            r@.message_order.len() == 0,
            r@.sessions.is_empty(),
            r@.messages_sent_to_sc.is_empty(),
            r@.messages_read.is_empty(),
    {
        let r = Database {
            messages: HashMap::new(),
            message_keys: Vec::new(),
            packets: HashMap::new(),
            messages_sent_to_sc: HashSet::new(),
            messages_read: HashSet::new(),
        };
        assert(r@.messages =~= Map::empty());
        assert(r@.sessions =~= Map::empty());
        r
    }

    /// Stores `message` under its session and source, replacing any message
    /// stored there before.
    pub fn save_message(&mut self, message: &Message)
        requires
            old(self).wf(),
        ensures
            final(self).wf(),
            final(self)@ == with_message(old(self)@, message@),
    {
        let k = session_key_of(message.session_id, message.source);
        let is_new = !self.messages.contains_key(&k);
        self.messages.insert(k, message.duplicate());
        if is_new {
            self.message_keys.push(k);
        }
        assert(self@.messages =~= old(self)@.messages.insert(k, message@));
        assert forall|j: u128| self.messages@.contains_key(j) implies self.message_keys@.contains(
            j,
        ) by {
            if j != k {
                assert(old(self).message_keys@.contains(j));
                let i = choose|i: int|
                    0 <= i < old(self).message_keys@.len() && old(self).message_keys@[i] == j;
                assert(self.message_keys@[i] == j);
            } else {
                if is_new {
                    assert(self.message_keys@[self.message_keys@.len() - 1] == k);
                }
            }
        }
        assert forall|i: int|
            0 <= i < self.message_keys@.len() implies self.messages@.contains_key(
            #[trigger] self.message_keys@[i],
        ) by {
            if i < old(self).message_keys@.len() {
                assert(old(self).messages@.contains_key(old(self).message_keys@[i]));
            }
        }
    }

    /// Stores a fragment packet under its session, the first hop of its
    /// route, and its fragment index.
    pub fn save_packet(&mut self, packet: Packet) -> (r: Result<(), NodeError>)
        requires
            old(self).wf(),
        ensures
            final(self).wf(),
            packet@.pack_type !is MsgFragment ==> r == Err::<(), NodeError>(
                NodeError::WrongPacketKind,
            ) && final(self)@ == old(self)@,
            packet@.pack_type is MsgFragment && packet@.hops.len() == 0 ==> r == Err::<
                (),
                NodeError,
            >(NodeError::EmptyRoute) && final(self)@ == old(self)@,
            packet@.pack_type is MsgFragment && packet@.hops.len() > 0 ==> r is Ok
                && final(self)@ == with_fragment(old(self)@, packet@),
    {
        let (fragment_index, total) = match &packet.pack_type {
            PacketType::MsgFragment(f) => (f.fragment_index, f.total_n_fragments),
            _ => {
                return Err(NodeError::WrongPacketKind);
            },
        };
        if packet.routing_header.hops.len() == 0 {
            return Err(NodeError::EmptyRoute);
        }
        let k = session_key_of(packet.session_id, packet.routing_header.hops[0]);
        let ghost pv = packet@;
        let ghost old_view = self@;
        let ghost old_packets = self.packets@;
        let mut store = match self.packets.remove(&k) {
            Some(s) => {
                assert(old_packets.contains_key(k));
                s
            },
            None => PacketStore::new(total),
        };
        assert(store.wf());
        let ghost g = store.view();
        let ghost g_packets = store.packets@;
        assert(g == (if old_view.sessions.contains_key(k) {
            old_view.sessions[k]
        } else {
            empty_session(total)
        }));
        let is_new = !store.packets.contains_key(&fragment_index);
        store.packets.insert(fragment_index, packet);
        if is_new {
            store.order.push(fragment_index);
            store.received_amount_of_frags = store.order.len() as u64;
        }
        if store.received_amount_of_frags == store.total_amount_of_frags {
            store.all_fragments_received = true;
        }
        assert(store.view().fragments =~= g.fragments.insert(fragment_index, pv));
        assert forall|j: u64| store.packets@.contains_key(j) implies store.order@.contains(j) by {
            if j != fragment_index {
                assert(g_packets.contains_key(j));
                assert(g.order.contains(j));
                let i = choose|i: int| 0 <= i < g.order.len() && g.order[i] == j;
                assert(store.order@[i] == j);
            } else if is_new {
                assert(store.order@[store.order@.len() - 1] == j);
            }
        }
        self.packets.insert(k, store);
        assert(self@.sessions =~= with_fragment(old_view, pv).sessions);
        assert(self@ =~= with_fragment(old_view, pv));
        Ok(())
    }

    /// The message stored under `message_id`.
    pub fn get_message(&self, message_id: MessageID) -> (r: Option<Message>)
        ensures
            match r {
                Some(m) => self@.messages.contains_key(message_id.key()) && m@
                    == self@.messages[message_id.key()],
                None => !self@.messages.contains_key(message_id.key()),
            },
    {
        let k = session_key_of(message_id.0.0, message_id.1.0);
        match self.messages.get(&k) {
            Some(m) => Some(m.duplicate()),
            None => None,
        }
    }

    /// Whether the message was reported to the supervisor.
    pub fn is_message_sent_to_sc(&self, message_id: MessageID) -> (r: bool)
        ensures
            r == self@.messages_sent_to_sc.contains(message_id.key()),
    {
        let k = session_key_of(message_id.0.0, message_id.1.0);
        self.messages_sent_to_sc.contains(&k)
    }

    /// Whether the message was marked read.
    pub fn is_message_read(&self, message_id: MessageID) -> (r: bool)
        ensures
            r == self@.messages_read.contains(message_id.key()),
    {
        let k = session_key_of(message_id.0.0, message_id.1.0);
        self.messages_read.contains(&k)
    }

    /// Whether the fragment's acknowledgement arrived.
    pub fn is_packet_ack_received(&self, packet_id: PacketID) -> (r: bool)
        ensures
            r == (self@.sessions.contains_key(session_key(packet_id.0.0, packet_id.1.0))
                && self@.sessions[session_key(packet_id.0.0, packet_id.1.0)].acked.contains(
                packet_id.2.0,
            )),
    {
        let k = session_key_of(packet_id.0.0, packet_id.1.0);
        match self.packets.get(&k) {
            Some(store) => store.acked.contains(&packet_id.2.0),
            None => false,
        }
    }

    /// Whether the fragment was reported to the supervisor.
    pub fn is_packet_sent_to_sc(&self, packet_id: PacketID) -> (r: bool)
        ensures
            r == (self@.sessions.contains_key(session_key(packet_id.0.0, packet_id.1.0))
                && self@.sessions[session_key(packet_id.0.0, packet_id.1.0)].sent_to_sc.contains(
                packet_id.2.0,
            )),
    {
        let k = session_key_of(packet_id.0.0, packet_id.1.0);
        match self.packets.get(&k) {
            Some(store) => store.sent_to_sc.contains(&packet_id.2.0),
            None => false,
        }
    }

    /// The stored fragment packet with this identifier.
    pub fn get_packet(&self, packet_id: PacketID) -> (r: Option<Packet>)
        ensures
            ({
                let k = session_key(packet_id.0.0, packet_id.1.0);
                match r {
                    Some(p) => self@.sessions.contains_key(k)
                        && self@.sessions[k].fragments.contains_key(packet_id.2.0) && p@
                        == self@.sessions[k].fragments[packet_id.2.0],
                    None => !(self@.sessions.contains_key(k)
                        && self@.sessions[k].fragments.contains_key(packet_id.2.0)),
                }
            }),
    {
        let k = session_key_of(packet_id.0.0, packet_id.1.0);
        match self.packets.get(&k) {
            Some(store) => match store.packets.get(&packet_id.2.0) {
                Some(p) => Some(p.duplicate()),
                None => None,
            },
            None => None,
        }
    }

    /// Marks a stored message as read.
    pub fn update_message_to_read(&mut self, message_id: MessageID) -> (r: Result<(), NodeError>)
        requires
            old(self).wf(),
        ensures
            final(self).wf(),
            old(self)@.messages.contains_key(message_id.key()) ==> r is Ok && final(self)@ == (
            DatabaseView {
                messages_read: old(self)@.messages_read.insert(message_id.key()),
                ..old(self)@
            }),
            !old(self)@.messages.contains_key(message_id.key()) ==> r == Err::<(), NodeError>(
                NodeError::UnknownEntity,
            ) && final(self)@ == old(self)@,
    {
        let k = session_key_of(message_id.0.0, message_id.1.0);
        if self.messages.contains_key(&k) {
            self.messages_read.insert(k);
            Ok(())
        } else {
            Err(NodeError::UnknownEntity)
        }
    }

    /// Marks a stored message as reported to the supervisor.
    pub fn update_message_sent_to_simulation_controller(&mut self, message_id: MessageID) -> (r:
        Result<(), NodeError>)
        requires
            old(self).wf(),
        ensures
            final(self).wf(),
            old(self)@.messages.contains_key(message_id.key()) ==> r is Ok && final(self)@ == (
            DatabaseView {
                messages_sent_to_sc: old(self)@.messages_sent_to_sc.insert(message_id.key()),
                ..old(self)@
            }),
            !old(self)@.messages.contains_key(message_id.key()) ==> r == Err::<(), NodeError>(
                NodeError::UnknownEntity,
            ) && final(self)@ == old(self)@,
    {
        let k = session_key_of(message_id.0.0, message_id.1.0);
        if self.messages.contains_key(&k) {
            self.messages_sent_to_sc.insert(k);
            Ok(())
        } else {
            Err(NodeError::UnknownEntity)
        }
    }

    /// Marks a stored fragment as reported to the supervisor.
    pub fn update_packet_sent_to_simulation_controller(&mut self, packet_id: PacketID) -> (r:
        Result<(), NodeError>)
        requires
            old(self).wf(),
        ensures
            final(self).wf(),
            ({
                let k = session_key(packet_id.0.0, packet_id.1.0);
                let known = old(self)@.sessions.contains_key(k)
                    && old(self)@.sessions[k].fragments.contains_key(packet_id.2.0);
                &&& known ==> r is Ok && final(self)@ == (DatabaseView {
                    sessions: old(self)@.sessions.insert(
                        k,
                        SessionView {
                            sent_to_sc: old(self)@.sessions[k].sent_to_sc.insert(packet_id.2.0),
                            ..old(self)@.sessions[k]
                        },
                    ),
                    ..old(self)@
                })
                &&& !known ==> r == Err::<(), NodeError>(NodeError::UnknownEntity)
                    && final(self)@ == old(self)@
            }),
    {
        let k = session_key_of(packet_id.0.0, packet_id.1.0);
        let ghost old_packets = self.packets@;
        match self.packets.remove(&k) {
            Some(mut store) => {
                assert(old_packets.contains_key(k));
                let ghost g = store.view();
                if store.packets.contains_key(&packet_id.2.0) {
                    store.sent_to_sc.insert(packet_id.2.0);
                    assert(store.view().fragments == g.fragments);
                    self.packets.insert(k, store);
                    assert(self.packets@ =~= old_packets.insert(k, store));
                    assert(self@.sessions =~= old(self)@.sessions.insert(k, store.view()));
                    Ok(())
                } else {
                    self.packets.insert(k, store);
                    assert(self.packets@ =~= old_packets);
                    Err(NodeError::UnknownEntity)
                }
            },
            None => {
                assert(self.packets@ =~= old_packets);
                Err(NodeError::UnknownEntity)
            },
        }
    }

    /// Marks the acknowledgement of a stored fragment as received.
    pub fn update_packet_ack_received(&mut self, packet_id: PacketID) -> (r: Result<(), NodeError>)
        requires
            old(self).wf(),
        ensures
            final(self).wf(),
            ({
                let k = session_key(packet_id.0.0, packet_id.1.0);
                let known = old(self)@.sessions.contains_key(k)
                    && old(self)@.sessions[k].fragments.contains_key(packet_id.2.0);
                &&& known ==> r is Ok && final(self)@ == (DatabaseView {
                    sessions: old(self)@.sessions.insert(
                        k,
                        SessionView {
                            acked: old(self)@.sessions[k].acked.insert(packet_id.2.0),
                            ..old(self)@.sessions[k]
                        },
                    ),
                    ..old(self)@
                })
                &&& !known ==> r == Err::<(), NodeError>(NodeError::UnknownPacket)
                    && final(self)@ == old(self)@
            }),
    {
        let k = session_key_of(packet_id.0.0, packet_id.1.0);
        let ghost old_packets = self.packets@;
        match self.packets.remove(&k) {
            Some(mut store) => {
                assert(old_packets.contains_key(k));
                let ghost g = store.view();
                if store.packets.contains_key(&packet_id.2.0) {
                    store.acked.insert(packet_id.2.0);
                    assert(store.view().fragments == g.fragments);
                    self.packets.insert(k, store);
                    assert(self@.sessions =~= old(self)@.sessions.insert(k, store.view()));
                    Ok(())
                } else {
                    self.packets.insert(k, store);
                    assert(self.packets@ =~= old_packets);
                    Err(NodeError::UnknownPacket)
                }
            },
            None => {
                assert(self.packets@ =~= old_packets);
                Err(NodeError::UnknownPacket)
            },
        }
    }

    /// How many distinct fragments of the session arrived.
    pub fn get_amount_of_fragments_received(&self, session_id: u64, sender_id: u8) -> (r: Option<
        u64,
    >)
        ensures
            ({
                let k = session_key(session_id, sender_id);
                match r {
                    Some(n) => self@.sessions.contains_key(k) && n == self@.sessions[k].received,
                    None => !self@.sessions.contains_key(k),
                }
            }),
    {
        let k = session_key_of(session_id, sender_id);
        match self.packets.get(&k) {
            Some(store) => Some(store.received_amount_of_frags),
            None => None,
        }
    }

    /// The stored fragments of the session, in the order in which they
    /// first arrived.
    pub fn get_packets_for_session(&self, session_id: u64, sender_id: u8) -> (r: Option<
        Vec<Packet>,
    >)
        requires
            self.wf(),
        ensures
            ({
                let k = session_key(session_id, sender_id);
                match r {
                    Some(v) => self@.sessions.contains_key(k) && views(v@)
                        == self@.sessions[k].order.map_values(
                        |j: u64| self@.sessions[k].fragments[j],
                    ) && self@.sessions[k].order.no_duplicates() && forall|j: u64|
                        #[trigger] self@.sessions[k].order.contains(j)
                            <==> self@.sessions[k].fragments.contains_key(j),
                    None => !self@.sessions.contains_key(k),
                }
            }),
    {
        let k = session_key_of(session_id, sender_id);
        match self.packets.get(&k) {
            Some(store) => {
                assert(store.wf());
                let ghost g = store.view();
                let mut v: Vec<Packet> = Vec::new();
                let mut i: usize = 0;
                while i < store.order.len()
                    invariant
                        store.wf(),
                        g == store.view(),
                        i <= store.order@.len(),
                        views(v@) == g.order.subrange(0, i as int).map_values(
                            |j: u64| g.fragments[j],
                        ),
                    decreases store.order@.len() - i,
                {
                    let j = store.order[i];
                    assert(store.packets@.contains_key(j));
                    let p = store.packets.get(&j).unwrap().duplicate();
                    let ghost before = v@;
                    v.push(p);
                    assert(views(v@) =~= views(before).push(p@));
                    i += 1;
                    assert(views(v@) =~= g.order.subrange(0, i as int).map_values(
                        |j: u64| g.fragments[j],
                    ));
                }
                assert(g.order.subrange(0, i as int) == g.order);
                Some(v)
            },
            None => None,
        }
    }

    /// Whether every stored fragment of the session was acknowledged.
    pub fn all_packets_successfully_sent(&self, session: u64, sender_id: u8) -> (r: Option<bool>)
        requires
            self.wf(),
        ensures
            ({
                let k = session_key(session, sender_id);
                match r {
                    Some(b) => self@.sessions.contains_key(k) && (b <==> forall|j: u64|
                        #[trigger] self@.sessions[k].fragments.contains_key(j)
                            ==> self@.sessions[k].acked.contains(j)),
                    None => !self@.sessions.contains_key(k),
                }
            }),
    {
        let k = session_key_of(session, sender_id);
        match self.packets.get(&k) {
            Some(store) => {
                assert(store.wf());
                let ghost g = store.view();
                assert(self@.sessions[k] == g);
                let mut all_received = true;
                let mut i: usize = 0;
                while i < store.order.len()
                    invariant
                        store.wf(),
                        g == store.view(),
                        i <= store.order@.len(),
                        all_received <==> forall|m: int|
                            0 <= m < i ==> store.acked@.contains(#[trigger] store.order@[m]),
                    decreases store.order@.len() - i,
                {
                    if !store.acked.contains(&store.order[i]) {
                        all_received = false;
                    }
                    i += 1;
                }
                assert(all_received <==> forall|j: u64|
                    #[trigger] g.fragments.contains_key(j) ==> g.acked.contains(j)) by {
                    if all_received {
                        assert forall|j: u64| #[trigger]
                            g.fragments.contains_key(j) implies g.acked.contains(j) by {
                            assert(store.packets@.contains_key(j));
                            assert(store.order@.contains(j));
                            let m = choose|m: int|
                                0 <= m < store.order@.len() && store.order@[m] == j;
                            assert(store.acked@.contains(store.order@[m]));
                        }
                    } else {
                        let m = choose|m: int|
                            0 <= m < i && !store.acked@.contains(#[trigger] store.order@[m]);
                        assert(store.packets@.contains_key(store.order@[m]));
                        assert(g.fragments.contains_key(store.order@[m]));
                    }
                }
                Some(all_received)
            },
            None => None,
        }
    }

    /// The fragments of the session with indices `0 .. total`, in index
    /// order; `None` when the session is unknown or one of them is missing.
    pub fn fragments_in_order(&self, session_id: u64, sender_id: u8) -> (r: Option<Vec<Packet>>)
        ensures
            ({
                let k = session_key(session_id, sender_id);
                let all_there = self@.sessions.contains_key(k) && forall|j: u64|
                    j < self@.sessions[k].total ==> #[trigger] self@.sessions[k].fragments.contains_key(j);
                match r {
                    Some(v) => all_there && views(v@) == Seq::new(
                        self@.sessions[k].total as nat,
                        |j: int| self@.sessions[k].fragments[j as u64],
                    ),
                    None => !all_there,
                }
            }),
    {
        let k = session_key_of(session_id, sender_id);
        match self.packets.get(&k) {
            Some(store) => {
                let ghost g = store.view();
                assert(self@.sessions[k] == g);
                let mut v: Vec<Packet> = Vec::new();
                let mut j: u64 = 0;
                while j < store.total_amount_of_frags
                    invariant
                        g == store.view(),
                        k == session_key(session_id, sender_id),
                        self@.sessions.contains_key(k),
                        self@.sessions[k] == g,
                        j <= g.total,
                        forall|m: u64| m < j ==> #[trigger] g.fragments.contains_key(m),
                        views(v@) == Seq::new(j as nat, |m: int| g.fragments[m as u64]),
                    decreases g.total - j,
                {
                    match store.packets.get(&j) {
                        Some(p) => {
                            let p = p.duplicate();
                            let ghost before = v@;
                            v.push(p);
                            assert(views(v@) =~= views(before).push(p@));
                            j += 1;
                            assert(views(v@) =~= Seq::new(j as nat, |m: int| g.fragments[m as u64]));
                        },
                        None => {
                            assert(!g.fragments.contains_key(j));
                            assert(j < self@.sessions[k].total);
                            assert(!self@.sessions[k].fragments.contains_key(j));
                            return None;
                        },
                    }
                }
                Some(v)
            },
            None => None,
        }
    }

    /// Hands out every stored message that is not read yet and was not sent
    /// by `node_id`, in the order in which the messages were first saved,
    /// and marks each of them read; `None` when there is none.
    pub fn get_undread_message_ids_from_server(&mut self, node_id: u8) -> (r: Option<
        Vec<MessageID>,
    >)
        requires
            old(self).wf(),
        ensures
            final(self).wf(),
            unread_drained(
                old(self)@,
                final(self)@,
                node_id,
                match r {
                    Some(v) => Some(v@),
                    None => None,
                },
            ),
    {
        let ghost d = self@;
        let ghost keys = self.message_keys@;
        let mut unread: Vec<MessageID> = Vec::new();
        let mut i: usize = 0;
        while i < self.message_keys.len()
            invariant
                self.wf(),
                d == old(self)@,
                keys == self.message_keys@,
                self.messages@ == old(self).messages@,
                self.packets@ == old(self).packets@,
                self.messages_sent_to_sc@ == old(self).messages_sent_to_sc@,
                i <= keys.len(),
                self.messages_read@ == d.messages_read + Set::new(
                    |k: u128| is_fresh(d, node_id, k) && keys.subrange(0, i as int).contains(k),
                ),
                unread@.no_duplicates(),
                forall|m: int|
                    0 <= m < unread@.len() ==> #[trigger] is_fresh(d, node_id, unread@[m].key())
                        && unread@[m] == message_id_of(d.messages[unread@[m].key()])
                        && keys.subrange(0, i as int).contains(unread@[m].key()),
                forall|k: u128|
                    is_fresh(d, node_id, k) && keys.subrange(0, i as int).contains(k) ==> exists|
                        m: int,
                    |
                        0 <= m < unread@.len() && #[trigger] unread@[m].key() == k,
            decreases keys.len() - i,
        {
            let k = self.message_keys[i];
            assert(self.messages@.contains_key(k));
            assert(!keys.subrange(0, i as int).contains(k)) by {
                if keys.subrange(0, i as int).contains(k) {
                    let m = choose|m: int| 0 <= m < i && keys.subrange(0, i as int)[m] == k;
                    assert(keys[m] == keys[i as int]);
                }
            }
            let ghost prev_read = self.messages_read@;
            let ghost prev_unread = unread@;
            let ghost mut added = false;
            assert(prev_read.contains(k) <==> d.messages_read.contains(k));
            assert(d.messages.contains_key(k) && d.messages[k] == self.messages@[k]@);
            if !self.messages_read.contains(&k) {
                let m = self.messages.get(&k).unwrap();
                if m.source != node_id {
                    let id = MessageID(SessionID(m.session_id), SenderID(m.source));
                    proof {
                        lemma_session_key_injective(m.session_id, m.source, m.session_id, m.source);
                        assert(id.key() == k);
                        assert forall|q: int| 0 <= q < prev_unread.len() implies prev_unread[q]
                            != id by {
                            assert(is_fresh(d, node_id, prev_unread[q].key()));
                            assert(keys.subrange(0, i as int).contains(prev_unread[q].key()));
                        }
                    }
                    unread.push(id);
                    self.messages_read.insert(k);
                    assert(is_fresh(d, node_id, k));
                    assert(unread@ == prev_unread.push(id));
                    assert(id == message_id_of(d.messages[k]));
                    proof {
                        added = true;
                    }
                } else {
                    assert(!is_fresh(d, node_id, k));
                    assert(unread@ == prev_unread);
                }
            } else {
                assert(!is_fresh(d, node_id, k));
                assert(unread@ == prev_unread);
            }
            assert(added ==> is_fresh(d, node_id, k) && unread@.len() == prev_unread.len() + 1
                && unread@.last().key() == k && unread@.last() == message_id_of(d.messages[k])
                && unread@.drop_last() == prev_unread && self.messages_read@ == prev_read.insert(k));
            assert(!added ==> !is_fresh(d, node_id, k) && unread@ == prev_unread
                && self.messages_read@ == prev_read);
            i += 1;
            assert(keys.subrange(0, i as int) == keys.subrange(0, i - 1 as int).push(k));
            assert forall|j: u128|
                #![auto]
                self.messages_read@.contains(j) <==> (d.messages_read.contains(j) || (is_fresh(
                    d,
                    node_id,
                    j,
                ) && keys.subrange(0, i as int).contains(j))) by {
                if j != k {
                    assert(keys.subrange(0, i as int).contains(j) <==> keys.subrange(
                        0,
                        i - 1 as int,
                    ).contains(j));
                } else {
                    assert(keys.subrange(0, i as int)[i - 1] == k);
                }
            }
            assert(self.messages_read@ =~= d.messages_read + Set::new(
                |j: u128| is_fresh(d, node_id, j) && keys.subrange(0, i as int).contains(j),
            ));
            assert forall|m: int| 0 <= m < unread@.len() implies #[trigger] is_fresh(
                d,
                node_id,
                unread@[m].key(),
            ) && unread@[m] == message_id_of(d.messages[unread@[m].key()])
                && keys.subrange(0, i as int).contains(unread@[m].key()) by {
                if m < prev_unread.len() {
                    assert(unread@[m] == prev_unread[m]);
                    assert(is_fresh(d, node_id, prev_unread[m].key()));
                    assert(keys.subrange(0, i - 1 as int).contains(unread@[m].key()));
                }
            }
            assert forall|j: u128|
                is_fresh(d, node_id, j) && keys.subrange(0, i as int).contains(j) implies exists|
                m: int,
            |
                0 <= m < unread@.len() && #[trigger] unread@[m].key() == j by {
                if j == k {
                    assert(unread@[unread@.len() - 1].key() == j);
                } else {
                    assert(keys.subrange(0, i - 1 as int).contains(j));
                    let m = choose|m: int|
                        0 <= m < prev_unread.len() && #[trigger] prev_unread[m].key() == j;
                    assert(unread@[m] == prev_unread[m]);
                }
            }
        }
        assert(keys.subrange(0, i as int) == keys);
        assert forall|k: u128| is_fresh(d, node_id, k) implies keys.contains(k) by {
            assert(self.messages@.contains_key(k));
        }
        assert(self.messages_read@ =~= d.messages_read + Set::new(
            |k: u128| is_fresh(d, node_id, k),
        ));
        assert(self@ =~= DatabaseView {
            messages_read: d.messages_read + Set::new(|k: u128| is_fresh(d, node_id, k)),
            ..d
        });
        if unread.len() == 0 {
            assert forall|k: u128| !is_fresh(d, node_id, k) by {
                if is_fresh(d, node_id, k) {
                    assert(keys.contains(k));
                }
            }
            None
        } else {
            Some(unread)
        }
    }
}

/// Draining the unread messages for `node_id` never hands out a message that
/// `node_id` sent; the next drain hands out none of what the first one did,
/// and, with nothing saved in between, it finds nothing at all.
pub proof fn lemma_unread_drain(
    d0: DatabaseView,
    d1: DatabaseView,
    d2: DatabaseView,
    node_id: u8,
    r1: Option<Seq<MessageID>>,
    r2: Option<Seq<MessageID>>,
)
    requires
        unread_drained(d0, d1, node_id, r1),
        unread_drained(d1, d2, node_id, r2),
    ensures
        r1 matches Some(s) ==> forall|i: int| 0 <= i < s.len() ==> (#[trigger] s[i]).1.0 != node_id,
        r2 is None,
{
    if let Some(s) = r1 {
        assert forall|i: int| 0 <= i < s.len() implies (#[trigger] s[i]).1.0 != node_id by {
            assert(is_fresh(d0, node_id, s[i].key()));
        }
    }
    if let Some(s2) = r2 {
        let k = s2[0].key();
        assert(is_fresh(d1, node_id, k));
        assert(is_fresh(d0, node_id, k));
        assert(d1.messages_read.contains(k));
    }
}

/// A message handed out by one drain is not handed out by a later one, as
/// long as the read marks in between only grew.
pub proof fn lemma_unread_at_most_once(
    d0: DatabaseView,
    d1: DatabaseView,
    d2: DatabaseView,
    d3: DatabaseView,
    node_id: u8,
    s1: Seq<MessageID>,
    r2: Option<Seq<MessageID>>,
)
    requires
        unread_drained(d0, d1, node_id, Some(s1)),
        d1.messages_read.subset_of(d2.messages_read),
        unread_drained(d2, d3, node_id, r2),
    ensures
        r2 matches Some(s2) ==> forall|i: int, j: int|
            0 <= i < s1.len() && 0 <= j < s2.len() ==> s1[i] != s2[j],
{
    if let Some(s2) = r2 {
        assert forall|i: int, j: int| 0 <= i < s1.len() && 0 <= j < s2.len() implies s1[i]
            != s2[j] by {
            assert(is_fresh(d0, node_id, s1[i].key()));
            assert(is_fresh(d2, node_id, s2[j].key()));
        }
    }
}

} // verus!
