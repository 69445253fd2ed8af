//! Packets and application messages as the node sees them.
use vstd::prelude::*;

verus! {

/// Payload capacity of one fragment, in bytes.
pub const FRAGMENT_DSIZE: usize = 128;

/// The kind of a network participant.
#[derive(Clone, Copy, Debug, PartialEq, Eq, Hash, Structural)]
pub enum NodeType {
    Client,
    Drone,
    Server,
}

/// Hops from source to destination and the index of the current hop.
#[derive(Clone, Debug, PartialEq, Eq)]
pub struct SourceRoutingHeader {
    pub hop_index: usize,
    pub hops: Vec<u8>,
}

/// One slice of a serialised message.
#[derive(Clone, Debug, PartialEq, Eq)]
pub struct Fragment {
    pub fragment_index: u64,
    pub total_n_fragments: u64,
    pub length: u8,
    pub data: Vec<u8>,
}

/// Why a fragment was not delivered.
#[derive(Clone, Copy, Debug, PartialEq, Eq, Hash, Structural)]
pub enum NackType {
    ErrorInRouting(u8),
    DestinationIsDrone,
    Dropped,
    UnexpectedRecipient(u8),
}

/// A discovery request; it collects the nodes it passes in `path_trace`.
#[derive(Clone, Debug, PartialEq, Eq)]
pub struct FloodRequest {
    pub flood_id: u64,
    pub initiator_id: u8,
    pub path_trace: Vec<(u8, NodeType)>,
}

/// The answer to a flood request, carrying the full trace back.
#[derive(Clone, Debug, PartialEq, Eq)]
pub struct FloodResponse {
    pub flood_id: u64,
    pub path_trace: Vec<(u8, NodeType)>,
}

/// What a packet carries.
#[derive(Clone, Debug, PartialEq, Eq)]
pub enum PacketType {
    MsgFragment(Fragment),
    Ack(u64),
    Nack(u64, NackType),
    FloodRequest(FloodRequest),
    FloodResponse(FloodResponse),
}

/// A packet with its source routing header and session.
#[derive(Clone, Debug, PartialEq, Eq)]
pub struct Packet {
    pub routing_header: SourceRoutingHeader,
    pub session_id: u64,
    pub pack_type: PacketType,
}

/// An application message; `content` is its application payload.
#[derive(Clone, Debug, PartialEq, Eq)]
pub struct Message {
    pub source: u8,
    pub destination: u8,
    pub session_id: u64,
    pub content: Vec<u8>,
}

/// Mathematical value of a `Message`.
pub struct MessageView {
    pub source: u8,
    pub destination: u8,
    pub session_id: u64,
    pub content: Seq<u8>,
}

/// Mathematical value of a `Fragment`.
pub struct FragmentView {
    pub fragment_index: u64,
    pub total_n_fragments: u64,
    pub length: u8,
    pub data: Seq<u8>,
}

/// Mathematical value of a `PacketType`.
pub enum PacketTypeView {
    MsgFragment(FragmentView),
    Ack(u64),
    Nack(u64, NackType),
    FloodRequest { flood_id: u64, initiator_id: u8, path_trace: Seq<(u8, NodeType)> },
    FloodResponse { flood_id: u64, path_trace: Seq<(u8, NodeType)> },
}

/// Mathematical value of a `Packet`.
pub struct PacketView {
    pub hop_index: usize,
    pub hops: Seq<u8>,
    pub session_id: u64,
    pub pack_type: PacketTypeView,
}

impl View for Message {
    type V = MessageView;

    open spec fn view(&self) -> MessageView {
        MessageView {
            source: self.source,
            destination: self.destination,
            session_id: self.session_id,
            content: self.content@,
        }
    }
}

impl View for Fragment {
    type V = FragmentView;

    open spec fn view(&self) -> FragmentView {
        FragmentView {
            fragment_index: self.fragment_index,
            total_n_fragments: self.total_n_fragments,
            length: self.length,
            data: self.data@,
        }
    }
}

impl View for PacketType {
    type V = PacketTypeView;

    open spec fn view(&self) -> PacketTypeView {
        match self {
            PacketType::MsgFragment(f) => PacketTypeView::MsgFragment(f@),
            PacketType::Ack(i) => PacketTypeView::Ack(*i),
            PacketType::Nack(i, n) => PacketTypeView::Nack(*i, *n),
            PacketType::FloodRequest(r) => PacketTypeView::FloodRequest {
                flood_id: r.flood_id,
                initiator_id: r.initiator_id,
                path_trace: r.path_trace@,
            },
            PacketType::FloodResponse(r) => PacketTypeView::FloodResponse {
                flood_id: r.flood_id,
                path_trace: r.path_trace@,
            },
        }
    }
}

impl View for Packet {
    type V = PacketView;

    open spec fn view(&self) -> PacketView {
        PacketView {
            hop_index: self.routing_header.hop_index,
            hops: self.routing_header.hops@,
            session_id: self.session_id,
            pack_type: self.pack_type@,
        }
    }
}

impl PacketView {
    /// The node that sent this packet: the first hop of its route.
    pub open spec fn source(self) -> Option<u8> {
        if self.hops.len() > 0 {
            Some(self.hops[0])
        } else {
            None
        }
    }

    /// The last hop of its route.
    pub open spec fn destination(self) -> Option<u8> {
        if self.hops.len() > 0 {
            Some(self.hops.last())
        } else {
            None
        }
    }
}

impl SourceRoutingHeader {
    /// A header with no hops.
    pub fn empty_route() -> (r: SourceRoutingHeader)
        ensures
            r.hop_index == 0,
            r.hops@.len() == 0,
    {
        SourceRoutingHeader { hop_index: 0, hops: Vec::new() }
    }

    /// A header over `hops` whose cursor stands at `hop_index`.
    pub fn new(hops: Vec<u8>, hop_index: usize) -> (r: SourceRoutingHeader)
        ensures
            r.hop_index == hop_index,
            r.hops@ == hops@,
    {
        SourceRoutingHeader { hop_index, hops }
    }

    /// The first hop, if there is one.
    pub fn source(&self) -> (r: Option<u8>)
        ensures
            r == (if self.hops@.len() > 0 { Some(self.hops@[0]) } else { None::<u8> }),
    {
        if self.hops.len() > 0 {
            Some(self.hops[0])
        } else {
            None
        }
    }

    /// The last hop, if there is one.
    pub fn destination(&self) -> (r: Option<u8>)
        ensures
            r == (if self.hops@.len() > 0 { Some(self.hops@.last()) } else { None::<u8> }),
    {
        if self.hops.len() > 0 {
            Some(self.hops[self.hops.len() - 1])
        } else {
            None
        }
    }

    /// A copy with the same hops and cursor.
    pub fn duplicate(&self) -> (r: SourceRoutingHeader)
        ensures
            r.hop_index == self.hop_index,
            r.hops@ == self.hops@,
    {
        SourceRoutingHeader { hop_index: self.hop_index, hops: self.hops.clone() }
    }
}

/// A copy of a path trace.
pub fn copy_trace(trace: &Vec<(u8, NodeType)>) -> (r: Vec<(u8, NodeType)>)
    ensures
        r@ == trace@,
{
    let mut r: Vec<(u8, NodeType)> = Vec::new();
    let mut i: usize = 0;
    while i < trace.len()
        invariant
            i <= trace.len(),
            r@ == trace@.subrange(0, i as int),
        decreases trace.len() - i,
    {
        r.push((trace[i].0, trace[i].1));
        i += 1;
    }
    assert(r@ == trace@);
    r
}

impl Message {
    /// A copy of this message.
    pub fn duplicate(&self) -> (r: Message)
        ensures
            r@ == self@,
    {
        Message {
            source: self.source,
            destination: self.destination,
            session_id: self.session_id,
            content: self.content.clone(),
        }
    }
}

impl Packet {
    /// A copy of this packet.
    pub fn duplicate(&self) -> (r: Packet)
        ensures
            r@ == self@,
    {
        let pack_type = match &self.pack_type {
            PacketType::MsgFragment(f) => PacketType::MsgFragment(
                Fragment {
                    fragment_index: f.fragment_index,
                    total_n_fragments: f.total_n_fragments,
                    length: f.length,
                    data: f.data.clone(),
                },
            ),
            PacketType::Ack(i) => PacketType::Ack(*i),
            PacketType::Nack(i, n) => PacketType::Nack(*i, *n),
            PacketType::FloodRequest(r) => PacketType::FloodRequest(
                FloodRequest {
                    flood_id: r.flood_id,
                    initiator_id: r.initiator_id,
                    path_trace: copy_trace(&r.path_trace),
                },
            ),
            PacketType::FloodResponse(r) => PacketType::FloodResponse(
                FloodResponse { flood_id: r.flood_id, path_trace: copy_trace(&r.path_trace) },
            ),
        };
        Packet {
            routing_header: self.routing_header.duplicate(),
            session_id: self.session_id,
            pack_type,
        }
    }
}

} // verus!
