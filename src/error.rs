//! Errors reported by the node's stores, graph and codec.
use vstd::prelude::*;

verus! {

/// Why an operation of the node failed.
#[derive(Clone, Copy, Debug, PartialEq, Eq, Structural)]
pub enum NodeError {
    /// A packet of another kind was given where a fragment was expected.
    WrongPacketKind,
    /// No fragment with this identifier was ever stored.
    UnknownPacket,
    /// No session with this session id and sender was ever stored.
    UnknownSession,
    /// The message or packet to be marked is not stored.
    UnknownEntity,
    /// The node id is not known to the topology graph.
    NotFound,
    /// The reassembled bytes are not a serialised message.
    MalformedPayload,
    /// The packet's route has no hops.
    EmptyRoute,
    /// No route to the destination is known.
    NoRoute,
    /// The hop that the packet should go to next is not a neighbour.
    NoSuchNeighbor,
    /// The message is too large to be serialised.
    MessageTooLarge,
}

} // verus!
