//! The packets that travel through the network.

use crate::network::{NodeId, RouteView, SourceRoutingHeader};
use vstd::prelude::*;

verus! {

#[derive(Debug, Clone, Copy, PartialEq, Eq)]
pub enum NodeType {
    Client,
    Drone,
    Server,
}

/// A piece of a message.
#[derive(Debug, Clone, Copy, PartialEq, Eq)]
pub struct Fragment {
    pub fragment_index: u64,
    pub total_n_fragments: u64,
    pub length: u8,
    pub data: [u8; 128],
}

#[derive(Debug, Clone, Copy, PartialEq, Eq)]
pub struct Ack {
    pub fragment_index: u64,
}

/// Why a fragment was not delivered.
#[derive(Debug, Clone, Copy, PartialEq, Eq)]
pub enum NackType {
    /// The next node of the route is no neighbour.
    ErrorInRouting(NodeId),
    /// The route ends at a drone.
    DestinationIsDrone,
    /// The fragment was lost on purpose.
    Dropped,
    /// The fragment reached a node that the route did not name.
    UnexpectedRecipient(NodeId),
}

#[derive(Debug, Clone, Copy, PartialEq, Eq)]
pub struct Nack {
    pub fragment_index: u64,
    pub nack_type: NackType,
}

/// A request that spreads over the network to explore it.
#[derive(Debug, PartialEq, Eq)]
pub struct FloodRequest {
    pub flood_id: u64,
    pub initiator_id: NodeId,
    pub path_trace: Vec<(NodeId, NodeType)>,
}

/// The answer to a flood request, with the path that the request took.
#[derive(Debug, PartialEq, Eq)]
pub struct FloodResponse {
    pub flood_id: u64,
    pub path_trace: Vec<(NodeId, NodeType)>,
}

#[derive(Debug, PartialEq, Eq)]
pub enum PacketType {
    MsgFragment(Fragment),
    Ack(Ack),
    Nack(Nack),
    FloodRequest(FloodRequest),
    FloodResponse(FloodResponse),
}

#[derive(Debug, PartialEq, Eq)]
pub struct Packet {
    pub routing_header: SourceRoutingHeader,
    pub session_id: u64,
    pub pack_type: PacketType,
}

#[verifier::ext_equal]
pub struct FloodRequestView {
    pub flood_id: u64,
    pub initiator_id: NodeId,
    pub path_trace: Seq<(NodeId, NodeType)>,
}

#[verifier::ext_equal]
pub struct FloodResponseView {
    pub flood_id: u64,
    pub path_trace: Seq<(NodeId, NodeType)>,
}

#[verifier::ext_equal]
pub enum PacketTypeView {
    MsgFragment(Fragment),
    Ack(Ack),
    Nack(Nack),
    FloodRequest(FloodRequestView),
    FloodResponse(FloodResponseView),
}

/// A packet as a mathematical value.
#[verifier::ext_equal]
pub struct PacketView {
    pub routing_header: RouteView,
    pub session_id: u64,
    pub pack_type: PacketTypeView,
}

impl View for FloodRequest {
    type V = FloodRequestView;

    open spec fn view(&self) -> FloodRequestView {
        FloodRequestView {
            flood_id: self.flood_id,
            initiator_id: self.initiator_id,
            path_trace: self.path_trace@,
        }
    }
}

impl View for FloodResponse {
    type V = FloodResponseView;

    open spec fn view(&self) -> FloodResponseView {
        FloodResponseView { flood_id: self.flood_id, path_trace: self.path_trace@ }
    }
}

impl View for PacketType {
    type V = PacketTypeView;

    open spec fn view(&self) -> PacketTypeView {
        match *self {
            PacketType::MsgFragment(f) => PacketTypeView::MsgFragment(f),
            PacketType::Ack(a) => PacketTypeView::Ack(a),
            PacketType::Nack(n) => PacketTypeView::Nack(n),
            PacketType::FloodRequest(r) => PacketTypeView::FloodRequest(r@),
            PacketType::FloodResponse(r) => PacketTypeView::FloodResponse(r@),
        }
    }
}

impl View for Packet {
    type V = PacketView;

    open spec fn view(&self) -> PacketView {
        PacketView {
            routing_header: self.routing_header@,
            session_id: self.session_id,
            pack_type: self.pack_type@,
        }
    }
}

impl FloodRequestView {
    /// The node that a request comes from: the last one on its path, or the initiator where the
    /// path is still empty.
    pub open spec fn sender(self) -> NodeId {
        if self.path_trace.len() > 0 {
            self.path_trace.last().0
        } else {
            self.initiator_id
        }
    }

    /// The request after one more node was put on its path.
    pub open spec fn incremented(self, id: NodeId, node_type: NodeType) -> FloodRequestView {
        FloodRequestView { path_trace: self.path_trace.push((id, node_type)), ..self }
    }

    /// The nodes of the path, the latest first.
    pub open spec fn path_back(self) -> Seq<NodeId> {
        self.path_trace.map_values(|visited: (NodeId, NodeType)| visited.0).reverse()
    }

    /// The route of a response: back along the path, and on to the initiator where the path does
    /// not begin with it.
    pub open spec fn response_hops(self) -> Seq<NodeId> {
        let back = self.path_back();
        if back.len() > 0 && back.last() != self.initiator_id {
            back.push(self.initiator_id)
        } else {
            back
        }
    }

    /// The response to the request, still at the node that made it.
    pub open spec fn response(self, session_id: u64) -> PacketView {
        PacketView {
            routing_header: RouteView { hop_index: 0, hops: self.response_hops() },
            session_id,
            pack_type: PacketTypeView::FloodResponse(
                FloodResponseView { flood_id: self.flood_id, path_trace: self.path_trace },
            ),
        }
    }
}

impl PacketView {
    /// The packet, one node further on its route.
    pub open spec fn advanced(self) -> PacketView {
        PacketView { routing_header: self.routing_header.advanced(), ..self }
    }

    /// The packet, one node back on its route.
    pub open spec fn retreated(self) -> PacketView {
        PacketView { routing_header: self.routing_header.retreated(), ..self }
    }

    pub open spec fn is_fragment(self) -> bool {
        self.pack_type is MsgFragment
    }

    pub open spec fn is_flood_request(self) -> bool {
        self.pack_type is FloodRequest
    }

    /// Acknowledgements, negative acknowledgements and flood responses: the packets that answer
    /// others. The network must not lose them.
    pub open spec fn is_reply(self) -> bool {
        self.pack_type is Ack || self.pack_type is Nack || self.pack_type is FloodResponse
    }
}

/// A flood request as a packet.
pub open spec fn flood_request_packet(
    route: RouteView,
    session_id: u64,
    request: FloodRequestView,
) -> PacketView {
    PacketView {
        routing_header: route,
        session_id,
        pack_type: PacketTypeView::FloodRequest(request),
    }
}

fn clone_path(path: &Vec<(NodeId, NodeType)>) -> (copy: Vec<(NodeId, NodeType)>)
    ensures
        copy@ == path@,
{
    let mut copy: Vec<(NodeId, NodeType)> = Vec::new();
    let mut i: usize = 0;
    while i < path.len()
        invariant
            i <= path.len(),
            copy@ == path@.take(i as int),
        decreases path.len() - i,
    {
        copy.push(path[i]);
        i = i + 1;
        assert(copy@ == path@.take(i as int));
    }
    assert(path@.take(i as int) == path@);
    copy
}

impl Clone for FloodRequest {
    fn clone(&self) -> (copy: Self)
        ensures
            copy@ == self@,
            copy.flood_id == self.flood_id,
            copy.initiator_id == self.initiator_id,
            copy.path_trace@ == self.path_trace@,
    {
        FloodRequest {
            flood_id: self.flood_id,
            initiator_id: self.initiator_id,
            path_trace: clone_path(&self.path_trace),
        }
    }
}

impl Clone for FloodResponse {
    fn clone(&self) -> (copy: Self)
        ensures
            copy@ == self@,
            copy.flood_id == self.flood_id,
            copy.path_trace@ == self.path_trace@,
    {
        FloodResponse { flood_id: self.flood_id, path_trace: clone_path(&self.path_trace) }
    }
}

impl Clone for PacketType {
    fn clone(&self) -> (copy: Self)
        ensures
            copy@ == self@,
    {
        match self {
            PacketType::MsgFragment(f) => PacketType::MsgFragment(*f),
            PacketType::Ack(a) => PacketType::Ack(*a),
            PacketType::Nack(n) => PacketType::Nack(*n),
            PacketType::FloodRequest(r) => PacketType::FloodRequest(r.clone()),
            PacketType::FloodResponse(r) => PacketType::FloodResponse(r.clone()),
        }
    }
}

impl Clone for Packet {
    fn clone(&self) -> (copy: Self)
        ensures
            copy@ == self@,
    {
        Packet {
            routing_header: self.routing_header.clone(),
            session_id: self.session_id,
            pack_type: self.pack_type.clone(),
        }
    }
}

impl FloodRequest {
    /// A request that its initiator has put itself on the path of.
    pub fn initialize(flood_id: u64, initiator_id: NodeId, initiator_type: NodeType) -> (request:
        Self)
        ensures
            request@ == (FloodRequestView {
                flood_id,
                initiator_id,
                path_trace: seq![(initiator_id, initiator_type)],
            }),
    {
        let mut path_trace: Vec<(NodeId, NodeType)> = Vec::new();
        path_trace.push((initiator_id, initiator_type));
        FloodRequest { flood_id, initiator_id, path_trace }
    }

    /// The node that the request comes from.
    pub fn sender(&self) -> (id: NodeId)
        ensures
            id == self@.sender(),
            id == if self.path_trace@.len() > 0 {
                self.path_trace@[self.path_trace@.len() - 1].0
            } else {
                self.initiator_id
            },
    {
        if self.path_trace.len() > 0 {
            self.path_trace[self.path_trace.len() - 1].0
        } else {
            self.initiator_id
        }
    }

    pub fn increment(&mut self, id: NodeId, node_type: NodeType)
        ensures
            final(self)@ == old(self)@.incremented(id, node_type),
            final(self).flood_id == old(self).flood_id,
            final(self).initiator_id == old(self).initiator_id,
            final(self).path_trace@ == old(self).path_trace@.push((id, node_type)),
    {
        self.path_trace.push((id, node_type));
    }

    /// The response to the request, still at the node that makes it.
    pub fn generate_response(&self, session_id: u64) -> (response: Packet)
        ensures
            response@ == self@.response(session_id),
            response.session_id == session_id,
            response.routing_header.hop_index == 0,
            response.pack_type is FloodResponse,
            response.pack_type->FloodResponse_0.flood_id == self.flood_id,
            response.pack_type->FloodResponse_0.path_trace@ == self.path_trace@,
            ({
                let path = self.path_trace@;
                let hops = response.routing_header.hops@;
                let more: int = if path.len() > 0 && path[0].0 != self.initiator_id {
                    1
                } else {
                    0
                };
                &&& hops.len() == path.len() + more
                &&& forall|i: int|
                    0 <= i < path.len() ==> #[trigger] hops[i] == path[path.len() - 1 - i].0
                &&& more == 1 ==> hops[path.len() as int] == self.initiator_id
            }),
    {
        let ghost ids = self.path_trace@.map_values(|visited: (NodeId, NodeType)| visited.0);
        let mut hops: Vec<NodeId> = Vec::new();
        let mut i: usize = self.path_trace.len();
        while i > 0
            invariant
                i <= self.path_trace.len(),
                ids == self.path_trace@.map_values(|visited: (NodeId, NodeType)| visited.0),
                hops@ == ids.skip(i as int).reverse(),
            decreases i,
        {
            i = i - 1;
            hops.push(self.path_trace[i].0);
            assert(hops@ == ids.skip(i as int).reverse());
        }
        assert(ids.skip(0) == ids);
        let n: usize = hops.len();
        if n > 0 && hops[n - 1] != self.initiator_id {
            hops.push(self.initiator_id);
        }
        Packet::new_flood_response(
            SourceRoutingHeader::new(hops, 0),
            session_id,
            FloodResponse { flood_id: self.flood_id, path_trace: clone_path(&self.path_trace) },
        )
    }
}

impl Packet {
    pub fn new_fragment(
        routing_header: SourceRoutingHeader,
        session_id: u64,
        fragment: Fragment,
    ) -> (packet: Self)
        ensures
            packet@ == (PacketView {
                routing_header: routing_header@,
                session_id,
                pack_type: PacketTypeView::MsgFragment(fragment),
            }),
    {
        Packet { routing_header, session_id, pack_type: PacketType::MsgFragment(fragment) }
    }

    pub fn new_ack(
        routing_header: SourceRoutingHeader,
        session_id: u64,
        fragment_index: u64,
    ) -> (packet: Self)
        ensures
            packet@ == (PacketView {
                routing_header: routing_header@,
                session_id,
                pack_type: PacketTypeView::Ack(Ack { fragment_index }),
            }),
    {
        Packet { routing_header, session_id, pack_type: PacketType::Ack(Ack { fragment_index }) }
    }

    pub fn new_nack(routing_header: SourceRoutingHeader, session_id: u64, nack: Nack) -> (packet:
        Self)
        ensures
            packet@ == (PacketView {
                routing_header: routing_header@,
                session_id,
                pack_type: PacketTypeView::Nack(nack),
            }),
    {
        Packet { routing_header, session_id, pack_type: PacketType::Nack(nack) }
    }

    pub fn new_flood_request(
        routing_header: SourceRoutingHeader,
        session_id: u64,
        flood_request: FloodRequest,
    ) -> (packet: Self)
        ensures
            packet@ == flood_request_packet(routing_header@, session_id, flood_request@),
    {
        Packet { routing_header, session_id, pack_type: PacketType::FloodRequest(flood_request) }
    }

    pub fn new_flood_response(
        routing_header: SourceRoutingHeader,
        session_id: u64,
        flood_response: FloodResponse,
    ) -> (packet: Self)
        ensures
            packet@ == (PacketView {
                routing_header: routing_header@,
                session_id,
                pack_type: PacketTypeView::FloodResponse(flood_response@),
            }),
    {
        Packet { routing_header, session_id, pack_type: PacketType::FloodResponse(flood_response) }
    }
}

/// The response that a node gives to a request, after it has put itself on the path, starts at
/// that node, goes next to the node that the request came from, and ends at the initiator.
pub proof fn law_response_goes_back_to_the_sender(
    request: FloodRequestView,
    id: NodeId,
    node_type: NodeType,
)
    requires
        request.path_trace.len() > 0 || request.initiator_id != id,
    ensures
        ({
            let hops = request.incremented(id, node_type).response_hops();
            &&& hops.len() >= 2
            &&& hops[0] == id
            &&& hops[1] == request.sender()
            &&& hops.last() == request.initiator_id
        }),
{
    let back = request.incremented(id, node_type).path_back();
    assert(back.len() == request.path_trace.len() + 1);
    assert(back[0] == id);
    if request.path_trace.len() > 0 {
        assert(back[1] == request.path_trace.last().0);
    }
}

/// The route of a response is the whole path of the request in reverse. It goes on to the
/// initiator where the path does not begin with it, and nowhere else.
pub proof fn law_a_response_retraces_the_path(request: FloodRequestView, session_id: u64)
    ensures
        ({
            let path = request.path_trace;
            let hops = request.response_hops();
            let response = request.response(session_id);
            &&& forall|i: int|
                0 <= i < path.len() ==> #[trigger] hops[i] == path[path.len() - 1 - i].0
            &&& path.len() == 0 || path[0].0 == request.initiator_id ==> hops.len() == path.len()
            &&& path.len() > 0 && path[0].0 != request.initiator_id ==> {
                &&& hops.len() == path.len() + 1
                &&& hops[path.len() as int] == request.initiator_id
            }
            &&& response.routing_header.hop_index == 0
            &&& response.routing_header.hops == hops
            &&& response.session_id == session_id
            &&& response.pack_type == PacketTypeView::FloodResponse(
                FloodResponseView { flood_id: request.flood_id, path_trace: path },
            )
        }),
{
}

/// A node that puts itself on the path of a request comes after all the nodes on it, and changes
/// nothing else. The node that a request comes from is the one that put itself on the path last,
/// and the initiator where none has.
pub proof fn law_a_path_grows_at_its_end(
    request: FloodRequestView,
    id: NodeId,
    node_type: NodeType,
)
    ensures
        ({
            let visited = request.incremented(id, node_type);
            let n = request.path_trace.len();
            &&& visited.flood_id == request.flood_id
            &&& visited.initiator_id == request.initiator_id
            &&& visited.path_trace.len() == n + 1
            &&& visited.path_trace[n as int] == (id, node_type)
            &&& forall|i: int|
                0 <= i < n ==> #[trigger] visited.path_trace[i] == request.path_trace[i]
            &&& visited.sender() == id
            &&& n > 0 ==> request.sender() == request.path_trace[n - 1].0
            &&& n == 0 ==> request.sender() == request.initiator_id
        }),
{
}

/// A packet that moves on its route keeps everything but the index.
pub proof fn law_moving_keeps_the_packet(packet: PacketView)
    ensures
        packet.advanced() == (PacketView {
            routing_header: RouteView {
                hop_index: packet.routing_header.hop_index + 1,
                hops: packet.routing_header.hops,
            },
            session_id: packet.session_id,
            pack_type: packet.pack_type,
        }),
        packet.retreated() == (PacketView {
            routing_header: RouteView {
                hop_index: packet.routing_header.hop_index - 1,
                hops: packet.routing_header.hops,
            },
            session_id: packet.session_id,
            pack_type: packet.pack_type,
        }),
{
}

/// Every packet is a fragment, a flood request or a reply, and only one of them.
pub proof fn law_a_packet_is_of_one_kind(packet: PacketView)
    ensures
        match packet.pack_type {
            PacketTypeView::MsgFragment(_) => packet.is_fragment() && !packet.is_flood_request()
                && !packet.is_reply(),
            PacketTypeView::FloodRequest(_) => !packet.is_fragment() && packet.is_flood_request()
                && !packet.is_reply(),
            PacketTypeView::Ack(_) => !packet.is_fragment() && !packet.is_flood_request()
                && packet.is_reply(),
            PacketTypeView::Nack(_) => !packet.is_fragment() && !packet.is_flood_request()
                && packet.is_reply(),
            PacketTypeView::FloodResponse(_) => !packet.is_fragment() && !packet.is_flood_request()
                && packet.is_reply(),
        },
{
}

/// The view of a packet shows everything that it holds.
pub proof fn law_a_packet_is_seen_as_it_is(packet: Packet)
    ensures
        packet@.session_id == packet.session_id,
        packet@.routing_header.hop_index == packet.routing_header.hop_index,
        packet@.routing_header.hops == packet.routing_header.hops@,
        match packet.pack_type {
            PacketType::MsgFragment(f) => packet@.pack_type == PacketTypeView::MsgFragment(f),
            PacketType::Ack(a) => packet@.pack_type == PacketTypeView::Ack(a),
            PacketType::Nack(n) => packet@.pack_type == PacketTypeView::Nack(n),
            PacketType::FloodRequest(r) => packet@.pack_type == PacketTypeView::FloodRequest(
                FloodRequestView {
                    flood_id: r.flood_id,
                    initiator_id: r.initiator_id,
                    path_trace: r.path_trace@,
                },
            ),
            PacketType::FloodResponse(r) => packet@.pack_type == PacketTypeView::FloodResponse(
                FloodResponseView { flood_id: r.flood_id, path_trace: r.path_trace@ },
            ),
        },
{
}

/// A flood request as a packet carries the given route, session and request.
pub proof fn law_a_flood_request_is_carried_whole(
    route: RouteView,
    session_id: u64,
    request: FloodRequestView,
)
    ensures
        flood_request_packet(route, session_id, request) == (PacketView {
            routing_header: route,
            session_id,
            pack_type: PacketTypeView::FloodRequest(request),
        }),
{
}

} // verus!
