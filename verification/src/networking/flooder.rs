//! Nodes that take part in floods.

use crate::network::{NodeId, SourceRoutingHeader};
use crate::packet::{
    flood_request_packet, law_a_packet_is_seen_as_it_is, law_a_response_retraces_the_path,
    law_response_goes_back_to_the_sender, FloodRequest, FloodRequestView, FloodResponseView,
    NodeType, Packet, PacketTypeView, PacketView,
};
use vstd::prelude::*;

verus! {

/// Packets and the neighbours that they go to, as mathematical values.
pub open spec fn sends(packets: Seq<(NodeId, Packet)>) -> Seq<(NodeId, PacketView)> {
    packets.map_values(|send: (NodeId, Packet)| (send.0, send.1@))
}

/// `packet` for each of the given nodes but `sender`, in their order.
pub open spec fn send_to_all_but(nodes: Seq<NodeId>, sender: NodeId, packet: PacketView) -> Seq<
    (NodeId, PacketView),
>
    decreases nodes.len(),
{
    if nodes.len() == 0 {
        Seq::empty()
    } else {
        let earlier = send_to_all_but(nodes.drop_last(), sender, packet);
        if nodes.last() == sender {
            earlier
        } else {
            earlier.push((nodes.last(), packet))
        }
    }
}

/// Whether a node answers a flood request rather than passing it on: it knows the flood already,
/// or there is nobody to pass it on to.
pub open spec fn answers(known: bool, nodes: Seq<NodeId>) -> bool {
    known || nodes.len() <= 1
}

/// What a node that was put on the path of `visited` answers: the response goes to the next node
/// of its route, if that is one of the given neighbours.
pub open spec fn answer(nodes: Seq<NodeId>, sid: u64, visited: FloodRequestView) -> Option<
    Seq<(NodeId, PacketView)>,
> {
    let next_hop = visited.response_hops()[1];
    if nodes.contains(next_hop) {
        Some(seq![(next_hop, visited.response(sid).advanced())])
    } else {
        None
    }
}

fn is_among(nodes: &Vec<NodeId>, node: NodeId) -> (found: bool)
    ensures
        found == nodes@.contains(node),
{
    let mut i: usize = 0;
    while i < nodes.len()
        invariant
            i <= nodes.len(),
            forall|j: int| 0 <= j < i ==> nodes@[j] != node,
        decreases nodes.len() - i,
    {
        if nodes[i] == node {
            return true;
        }
        i = i + 1;
    }
    false
}

/// A node that takes part in floods. It has an identifier and a type, knows its neighbours, and
/// remembers floods in a way of its own: what it does with a flood request is stated over whatever
/// its own methods answer.
pub trait Flooder: Sized {
    const ID: u8;

    const NODE_TYPE: NodeType;

    /// The neighbours, in the order in which floods are passed on to them.
    fn get_neighbours(&self) -> (nodes: Vec<NodeId>);

    /// Whether the node knows a flood, named by its initiator and its identifier.
    fn has_seen_flood(&self, flood_id: (u8, u64)) -> (seen: bool);

    /// Enters a flood among those that the node knows.
    fn insert_flood(&mut self, flood_id: (u8, u64));

    /// Answers a flood request, or passes it on to all neighbours but the one that it came from.
    /// Hands out the packets to send; an answer to a node that is no neighbour is an error.
    fn handle_flood_request(
        &mut self,
        routing_header: SourceRoutingHeader,
        sid: u64,
        flood_r: FloodRequest,
    ) -> (result: Result<Vec<(NodeId, Packet)>, ()>)
        requires
            forall|nodes: Vec<NodeId>, seen: bool|
                #[trigger] call_ensures(Self::get_neighbours, (&*old(self),), nodes)
                    && #[trigger] call_ensures(
                    Self::has_seen_flood,
                    (&*old(self), (flood_r.initiator_id, flood_r.flood_id)),
                    seen,
                ) && (seen || nodes@.len() <= 1) ==> flood_r.path_trace@.len() > 0
                    || flood_r.initiator_id != Self::ID,
        ensures
            exists|nodes: Vec<NodeId>, seen: bool|
                {
                    let flood_id = (flood_r.initiator_id, flood_r.flood_id);
                    let visited = flood_r@.incremented(Self::ID, Self::NODE_TYPE);
                    let packets = match result {
                        Ok(packets) => Some(sends(packets@)),
                        Err(_) => None,
                    };
                    &&& call_ensures(Self::get_neighbours, (&*old(self),), nodes)
                    &&& call_ensures(Self::has_seen_flood, (&*old(self), flood_id), seen)
                    &&& #[trigger] answers(seen, nodes@) <==> seen || nodes@.len() <= 1
                    &&& if seen || nodes@.len() <= 1 {
                        &&& *final(self) == *old(self)
                        &&& packets == answer(nodes@, sid, visited)
                    } else {
                        &&& exists|node: &mut Self|
                            *node == *old(self) && *final(node) == *final(self)
                                && #[trigger] call_ensures(
                                Self::insert_flood,
                                (node, flood_id),
                                (),
                            )
                        &&& packets == Some(
                            send_to_all_but(
                                nodes@,
                                flood_r@.sender(),
                                flood_request_packet(routing_header@, sid, visited),
                            ),
                        )
                    }
                },
    {
        let mut flood_r: FloodRequest = flood_r;
        let ghost received = flood_r@;
        let sender_id: NodeId = flood_r.sender();
        let flood_id: (u8, u64) = (flood_r.initiator_id, flood_r.flood_id);
        flood_r.increment(Self::ID, Self::NODE_TYPE);
        let neighbours: Vec<NodeId> = self.get_neighbours();
        let mut packets: Vec<(NodeId, Packet)> = Vec::new();
        let seen: bool = self.has_seen_flood(flood_id);
        assert(call_ensures(Self::get_neighbours, (&*old(self),), neighbours));
        assert(call_ensures(Self::has_seen_flood, (&*old(self), flood_id), seen));
        assert(answers(seen, neighbours@) == (seen || neighbours.len() <= 1));
        if seen || neighbours.len() <= 1 {
            let mut response: Packet = flood_r.generate_response(sid);
            response.routing_header.increase_hop_index();
            proof {
                law_response_goes_back_to_the_sender(received, Self::ID, Self::NODE_TYPE);
            }
            let next_hop: NodeId = response.routing_header.hops[1];
            if !is_among(&neighbours, next_hop) {
                return Err(());
            }
            packets.push((next_hop, response));
            assert(sends(packets@) == seq![(next_hop, response@)]);
            return Ok(packets);
        }
        let ghost packet = flood_request_packet(routing_header@, sid, flood_r@);
        let mut i: usize = 0;
        while i < neighbours.len()
            invariant
                i <= neighbours.len(),
                packet == flood_request_packet(routing_header@, sid, flood_r@),
                sends(packets@) == send_to_all_but(neighbours@.take(i as int), sender_id, packet),
            decreases neighbours.len() - i,
        {
            assert(neighbours@.take(i + 1).drop_last() == neighbours@.take(i as int));
            if neighbours[i] != sender_id {
                let ghost before = sends(packets@);
                packets.push(
                    (
                        neighbours[i],
                        Packet::new_flood_request(routing_header.clone(), sid, flood_r.clone()),
                    ),
                );
                assert(sends(packets@) == before.push((neighbours@[i as int], packet)));
            }
            i = i + 1;
        }
        assert(neighbours@.take(i as int) == neighbours@);
        self.insert_flood(flood_id);
        assert(exists|node: &mut Self|
            *node == *old(self) && *final(node) == *self && #[trigger] call_ensures(
                Self::insert_flood,
                (node, flood_id),
                (),
            ));
        Ok(packets)
    }
}

/// A flood that is passed on goes to all of the listed neighbours but the one that it came from.
pub proof fn law_a_flood_goes_to_all_but_the_sender(
    nodes: Seq<NodeId>,
    sender: NodeId,
    packet: PacketView,
)
    ensures
        forall|node: NodeId, sent: PacketView| #[trigger]
            send_to_all_but(nodes, sender, packet).contains((node, sent)) <==> nodes.contains(node)
                && node != sender && sent == packet,
    decreases nodes.len(),
{
    if nodes.len() > 0 {
        let before = nodes.drop_last();
        law_a_flood_goes_to_all_but_the_sender(before, sender, packet);
        let earlier = send_to_all_but(before, sender, packet);
        let all = send_to_all_but(nodes, sender, packet);
        assert forall|node: NodeId, sent: PacketView| #[trigger]
            all.contains((node, sent)) <==> nodes.contains(node) && node != sender && sent
                == packet by {
            assert(nodes[nodes.len() - 1] == nodes.last());
            if all.contains((node, sent)) {
                let i = all.index_of((node, sent));
                if i < earlier.len() {
                    assert(earlier[i] == (node, sent));
                    assert(earlier.contains((node, sent)));
                    let k = before.index_of(node);
                    assert(nodes[k] == node);
                }
            }
            if nodes.contains(node) && node != sender && sent == packet {
                let k = nodes.index_of(node);
                if k < before.len() {
                    assert(before[k] == node);
                    assert(earlier.contains((node, sent)));
                    let i = earlier.index_of((node, sent));
                    assert(all[i] == (node, sent));
                } else {
                    assert(all[all.len() - 1] == (node, sent));
                }
            }
        }
    }
}

/// A node answers the requests of floods that it knows, and every request while it has no more
/// than one neighbour; it passes on all others.
pub proof fn law_only_new_floods_are_passed_on(known: bool, nodes: Seq<NodeId>)
    ensures
        known ==> answers(known, nodes),
        nodes.len() <= 1 ==> answers(known, nodes),
        !known && nodes.len() >= 2 ==> !answers(known, nodes),
{
}

/// The packets are seen with the nodes that they go to, each in its place.
pub proof fn law_a_send_is_seen_as_it_is(packets: Seq<(NodeId, Packet)>, i: int)
    requires
        0 <= i < packets.len(),
    ensures
        sends(packets).len() == packets.len(),
        sends(packets)[i].0 == packets[i].0,
        sends(packets)[i].1 == packets[i].1@,
{
}

/// A flood that is passed on goes to the listed neighbours in their order, as often as they are
/// listed, but for the one that it came from.
pub proof fn law_a_flood_goes_out_in_order(
    nodes: Seq<NodeId>,
    sender: NodeId,
    packet: PacketView,
)
    ensures
        send_to_all_but(nodes, sender, packet) == nodes.filter(
            |node: NodeId| node != sender,
        ).map_values(|node: NodeId| (node, packet)),
    decreases nodes.len(),
{
    reveal(Seq::filter);
    if nodes.len() > 0 {
        law_a_flood_goes_out_in_order(nodes.drop_last(), sender, packet);
        assert(send_to_all_but(nodes, sender, packet) =~= nodes.filter(
            |node: NodeId| node != sender,
        ).map_values(|node: NodeId| (node, packet)));
    }
}

/// The answer of a node to a request goes to the node that the request came from, and to no
/// other: back along the whole path, with the node itself at the start. Where that node is no
/// neighbour there is no answer.
pub proof fn law_an_answer_goes_back_along_the_path(
    request: FloodRequestView,
    id: NodeId,
    node_type: NodeType,
    nodes: Seq<NodeId>,
    sid: u64,
)
    requires
        request.path_trace.len() > 0 || request.initiator_id != id,
    ensures
        ({
            let path = request.path_trace;
            let sender = if path.len() > 0 {
                path[path.len() - 1].0
            } else {
                request.initiator_id
            };
            let sent = answer(nodes, sid, request.incremented(id, node_type));
            let response = sent->0[0].1;
            let hops = response.routing_header.hops;
            &&& sent is Some <==> nodes.contains(sender)
            &&& sent is Some ==> {
                &&& sent->0.len() == 1
                &&& sent->0[0].0 == sender
                &&& response.session_id == sid
                &&& response.pack_type == PacketTypeView::FloodResponse(
                    FloodResponseView {
                        flood_id: request.flood_id,
                        path_trace: path.push((id, node_type)),
                    },
                )
                &&& response.routing_header.hop_index == 1
                &&& hops[0] == id
                &&& forall|i: int|
                    1 <= i <= path.len() ==> #[trigger] hops[i] == path[path.len() - i].0
                &&& hops[hops.len() - 1] == request.initiator_id
                &&& path.len() + 1 <= hops.len() <= path.len() + 2
            }
        }),
{
    let visited = request.incremented(id, node_type);
    law_response_goes_back_to_the_sender(request, id, node_type);
    law_a_response_retraces_the_path(visited, sid);
    let hops = visited.response_hops();
    assert forall|i: int| 1 <= i <= request.path_trace.len() implies #[trigger] hops[i]
        == request.path_trace[request.path_trace.len() - i].0 by {
        assert(visited.path_trace[visited.path_trace.len() - 1 - i] == request.path_trace[
        request.path_trace.len() - i]);
    }
}

/// A node passes on every flood that it does not know, if it has at least two neighbours: the
/// request goes out with the node at the end of its path, to each neighbour but the one that it
/// came from, and the flood is entered. A node that knows the flood, or has at most one neighbour,
/// stays as it is and hands out the response, to the node that the request came from; where that
/// is no neighbour the result is an error. (A request with an empty path that names the node
/// itself as the initiator cannot be answered.)
pub proof fn law_a_node_passes_on_every_new_flood<F: Flooder>(
    node: &mut F,
    routing_header: SourceRoutingHeader,
    sid: u64,
    flood_r: FloodRequest,
    result: Result<Vec<(NodeId, Packet)>, ()>,
)
    requires
        call_ensures(F::handle_flood_request, (node, routing_header, sid, flood_r), result),
    ensures
        exists|nodes: Vec<NodeId>, seen: bool|
            {
                let path = flood_r.path_trace@;
                let sender = if path.len() > 0 {
                    path[path.len() - 1].0
                } else {
                    flood_r.initiator_id
                };
                &&& #[trigger] call_ensures(F::get_neighbours, (&*old(node),), nodes)
                &&& #[trigger] call_ensures(
                    F::has_seen_flood,
                    (&*old(node), (flood_r.initiator_id, flood_r.flood_id)),
                    seen,
                )
                &&& !seen && nodes@.len() >= 2 ==> {
                    &&& result is Ok
                    &&& exists|inner: &mut F|
                        *inner == *old(node) && *final(inner) == *final(node)
                            && #[trigger] call_ensures(
                            F::insert_flood,
                            (inner, (flood_r.initiator_id, flood_r.flood_id)),
                            (),
                        )
                    &&& sends(result->Ok_0@) == nodes@.filter(
                        |other: NodeId| other != sender,
                    ).map_values(
                        |other: NodeId|
                            (
                                other,
                                PacketView {
                                    routing_header: routing_header@,
                                    session_id: sid,
                                    pack_type: PacketTypeView::FloodRequest(
                                        FloodRequestView {
                                            flood_id: flood_r.flood_id,
                                            initiator_id: flood_r.initiator_id,
                                            path_trace: path.push((F::ID, F::NODE_TYPE)),
                                        },
                                    ),
                                },
                            ),
                    )
                }
                &&& (seen || nodes@.len() <= 1) && (path.len() > 0 || flood_r.initiator_id
                    != F::ID) ==> {
                    let packets = result->Ok_0@;
                    let response = packets[0].1;
                    let hops = response.routing_header.hops@;
                    &&& *final(node) == *old(node)
                    &&& result is Ok <==> nodes@.contains(sender)
                    &&& result is Ok ==> {
                        &&& packets.len() == 1
                        &&& packets[0].0 == sender
                        &&& response.session_id == sid
                        &&& response.pack_type is FloodResponse
                        &&& response.pack_type->FloodResponse_0.flood_id == flood_r.flood_id
                        &&& response.pack_type->FloodResponse_0.path_trace@ == path.push(
                            (F::ID, F::NODE_TYPE),
                        )
                        &&& response.routing_header.hop_index == 1
                        &&& hops[0] == F::ID
                        &&& forall|i: int|
                            1 <= i <= path.len() ==> #[trigger] hops[i] == path[path.len() - i].0
                        &&& hops[hops.len() - 1] == flood_r.initiator_id
                        &&& path.len() + 1 <= hops.len() <= path.len() + 2
                    }
                }
            },
{
    let flood_id = (flood_r.initiator_id, flood_r.flood_id);
    let visited = flood_r@.incremented(F::ID, F::NODE_TYPE);
    let packet = flood_request_packet(routing_header@, sid, visited);
    let sender = flood_r@.sender();
    let packets = match result {
        Ok(packets) => Some(sends(packets@)),
        Err(_) => None,
    };
    let (nodes, seen) = choose|nodes: Vec<NodeId>, seen: bool|
        {
            &&& call_ensures(F::get_neighbours, (&*node,), nodes)
            &&& call_ensures(F::has_seen_flood, (&*node, flood_id), seen)
            &&& #[trigger] answers(seen, nodes@) <==> seen || nodes@.len() <= 1
            &&& if seen || nodes@.len() <= 1 {
                &&& *final(node) == *node
                &&& packets == answer(nodes@, sid, visited)
            } else {
                &&& exists|inner: &mut F|
                    *inner == *node && *final(inner) == *final(node) && #[trigger] call_ensures(
                        F::insert_flood,
                        (inner, flood_id),
                        (),
                    )
                &&& packets == Some(send_to_all_but(nodes@, sender, packet))
            }
        };
    assert(call_ensures(F::get_neighbours, (&*node,), nodes));
    assert(call_ensures(F::has_seen_flood, (&*node, flood_id), seen));
    law_a_flood_goes_out_in_order(nodes@, sender, packet);
    if flood_r.path_trace@.len() > 0 || flood_r.initiator_id != F::ID {
        law_an_answer_goes_back_along_the_path(flood_r@, F::ID, F::NODE_TYPE, nodes@, sid);
        if seen || nodes@.len() <= 1 {
            if let Ok(packets) = result {
                law_a_send_is_seen_as_it_is(packets@, 0);
                law_a_packet_is_seen_as_it_is(packets@[0].1);
            }
        }
    }
}

} // verus!
