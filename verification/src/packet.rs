//! The frames that travel over the overlay, as plain data.

use vstd::prelude::*;

verus! {

/// Identifier of a node. The network holds at most 256 nodes.
pub type NodeId = u8;

/// Identifier that a sender gives to one fragmented message.
pub type SessionId = u64;

/// Zero-based position of a fragment within its message.
pub type FragmentIndex = u64;

/// Number of a flood probe.
pub type FloodId = u64;

/// Key of an outbound fragment: its session and its index.
pub type FragmentId = (SessionId, FragmentIndex);

/// Payload bytes carried by one fragment.
pub const FRAGMENT_DSIZE: usize = 128;

/// What a node is. Only drones forward traffic.
#[derive(Clone, Copy, Debug, PartialEq, Eq, Structural)]
pub enum NodeType {
    Client,
    Drone,
    Server,
}

/// One fixed-size piece of a message. `length` counts the valid bytes of
/// `data`; it matters for the last fragment of a message only.
#[derive(Clone, Copy, Debug, PartialEq, Eq)]
pub struct Fragment {
    pub fragment_index: FragmentIndex,
    pub total_n_fragments: u64,
    pub length: u8,
    pub data: [u8; 128],
}

/// Route of a frame: the nodes to cross and the position of the next one.
#[derive(Debug, Clone, PartialEq, Eq)]
pub struct SourceRoutingHeader {
    pub hop_index: u8,
    pub hops: Vec<NodeId>,
}

/// Acknowledgement of one fragment.
#[derive(Clone, Copy, Debug, PartialEq, Eq)]
pub struct Ack {
    pub fragment_index: FragmentIndex,
}

/// Why a fragment was not delivered.
#[derive(Clone, Copy, Debug, PartialEq, Eq, Structural)]
pub enum NackType {
    ErrorInRouting(NodeId),
    DestinationIsDrone,
    Dropped,
    UnexpectedRecipient(NodeId),
}

/// Negative acknowledgement of one fragment.
#[derive(Clone, Copy, Debug, PartialEq, Eq)]
pub struct Nack {
    pub fragment_index: FragmentIndex,
    pub nack_type: NackType,
}

/// A flood probe, with the nodes it has crossed so far.
#[derive(Debug, Clone, PartialEq, Eq)]
pub struct FloodRequest {
    pub flood_id: FloodId,
    pub initiator_id: NodeId,
    pub path_trace: Vec<(NodeId, NodeType)>,
}

/// The answer to a flood probe: the full trace of the probe.
#[derive(Debug, Clone, PartialEq, Eq)]
pub struct FloodResponse {
    pub flood_id: FloodId,
    pub path_trace: Vec<(NodeId, NodeType)>,
}

/// Body of a frame.
#[derive(Debug, Clone, PartialEq, Eq)]
pub enum PacketType {
    MsgFragment(Fragment),
    Ack(Ack),
    Nack(Nack),
    FloodRequest(FloodRequest),
    FloodResponse(FloodResponse),
}

/// A frame: route, session and body.
#[derive(Debug, Clone, PartialEq, Eq)]
pub struct Packet {
    pub routing_header: SourceRoutingHeader,
    pub session_id: SessionId,
    pub pack_type: PacketType,
}

/// The body of a frame as mathematics.
pub enum PacketTypeView {
    MsgFragment(Fragment),
    Ack(Ack),
    Nack(Nack),
    FloodRequest { flood_id: FloodId, initiator_id: NodeId, path_trace: Seq<(NodeId, NodeType)> },
    FloodResponse { flood_id: FloodId, path_trace: Seq<(NodeId, NodeType)> },
}

/// A frame as mathematics.
pub struct PacketView {
    pub hop_index: u8,
    pub hops: Seq<NodeId>,
    pub session_id: SessionId,
    pub pack_type: PacketTypeView,
}

impl View for PacketType {
    type V = PacketTypeView;

    open spec fn view(&self) -> PacketTypeView {
        match *self {
            PacketType::MsgFragment(fragment) => PacketTypeView::MsgFragment(fragment),
            PacketType::Ack(ack) => PacketTypeView::Ack(ack),
            PacketType::Nack(nack) => PacketTypeView::Nack(nack),
            PacketType::FloodRequest(request) => PacketTypeView::FloodRequest {
                flood_id: request.flood_id,
                initiator_id: request.initiator_id,
                path_trace: request.path_trace@,
            },
            PacketType::FloodResponse(response) => PacketTypeView::FloodResponse {
                flood_id: response.flood_id,
                path_trace: response.path_trace@,
            },
        }
    }
}

impl View for Packet {
    type V = PacketView;

    open spec fn view(&self) -> PacketView {
        PacketView {
            hop_index: self.routing_header.hop_index,
            hops: self.routing_header.hops@,
            session_id: self.session_id,
            pack_type: self.pack_type@,
        }
    }
}

} // verus!
