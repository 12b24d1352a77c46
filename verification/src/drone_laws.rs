//! What holds of a drone whatever it receives.

use crate::controller::{deliveries, delivery, DroneCommand, EventView, Input, OutputView};
use crate::drone_model::{initial, nack_packet, DroneView};
use crate::drop_rate::draw_yields;
use crate::flood_history::{
    history_insert, law_history_remembers_what_was_entered, remembered, remembers,
};
use crate::network::{law_the_way_back_reverses_the_route, NodeId, RouteView};
use crate::packet::{
    flood_request_packet, law_a_response_retraces_the_path, law_response_goes_back_to_the_sender,
    FloodRequestView, FloodResponseView, Nack, NackType, NodeType, PacketTypeView, PacketView,
};
use crate::ring_buffer::ring_insert;
use rand::distributions::{Bernoulli, BernoulliError};
use vstd::prelude::*;

verus! {

/// Whether every packet among `outputs` goes to a neighbour, right after the controller was told
/// of it, and the controller is told of nothing else as sent.
pub open spec fn only_reported_sends<S>(drone: DroneView<S>, outputs: Seq<OutputView>) -> bool {
    &&& forall|i: int|
        #![trigger outputs[i]]
        0 <= i < outputs.len() ==> (outputs[i] matches OutputView::Node(node, packet) ==> {
            &&& drone.neighbours.contains_key(node)
            &&& i > 0
            &&& outputs[i - 1] == OutputView::Controller(EventView::PacketSent(packet))
        })
    &&& forall|i: int|
        #![trigger outputs[i]]
        0 <= i < outputs.len() ==> (outputs[i] matches OutputView::Controller(
            EventView::PacketSent(packet),
        ) ==> {
            &&& i + 1 < outputs.len()
            &&& outputs[i + 1] is Node
            &&& outputs[i + 1]->Node_1 == packet
        })
}

proof fn lemma_refusal_is_reported<S>(
    drone: DroneView<S>,
    packet: PacketView,
    nack_type: NackType,
)
    ensures
        only_reported_sends(drone, drone.refusal(packet, nack_type)),
{
}

proof fn lemma_transmission_is_reported<S>(
    drone: DroneView<S>,
    packet: PacketView,
    node: NodeId,
    lost: bool,
)
    requires
        drone.neighbours.contains_key(node),
    ensures
        only_reported_sends(drone, drone.transmission(packet, node, lost)),
{
    lemma_refusal_is_reported(drone, packet, NackType::Dropped);
    let refusal = drone.refusal(packet, NackType::Dropped);
    let outputs = drone.transmission(packet, node, lost);
    if packet.is_fragment() && lost {
        assert forall|i: int| 1 <= i < outputs.len() implies #[trigger] outputs[i] == refusal[i
            - 1] by {}
    }
}

proof fn lemma_forwarding_is_reported<S>(drone: DroneView<S>, packet: PacketView, lost: bool)
    ensures
        only_reported_sends(drone, drone.forwarding(packet, lost)),
{
    let next = packet.advanced();
    lemma_refusal_is_reported(drone, next, NackType::UnexpectedRecipient(drone.id));
    lemma_refusal_is_reported(drone, next, NackType::DestinationIsDrone);
    if let Some(node) = next.routing_header.current_hop() {
        lemma_refusal_is_reported(drone, next, NackType::ErrorInRouting(node));
        if drone.neighbours.contains_key(node) {
            lemma_transmission_is_reported(drone, next, node, lost);
        }
    }
}

proof fn lemma_deliveries<S>(drone: DroneView<S>, nodes: Seq<NodeId>, packet: PacketView)
    requires
        forall|i: int| 0 <= i < nodes.len() ==> drone.neighbours.contains_key(#[trigger] nodes[i]),
    ensures
        only_reported_sends(drone, deliveries(nodes, packet)),
        deliveries(nodes, packet).len() == 2 * nodes.len(),
        forall|i: int|
            0 <= i < nodes.len() ==> #[trigger] deliveries(nodes, packet)[2 * i + 1]
                == OutputView::Node(nodes[i], packet),
        forall|i: int|
            0 <= i < nodes.len() ==> #[trigger] deliveries(nodes, packet)[2 * i]
                == OutputView::Controller(EventView::PacketSent(packet)),
    decreases nodes.len(),
{
    if nodes.len() > 0 {
        let before = nodes.drop_last();
        lemma_deliveries(drone, before, packet);
        let earlier = deliveries(before, packet);
        let all = deliveries(nodes, packet);
        assert(all == earlier + delivery(nodes.last(), packet));
        assert(drone.neighbours.contains_key(nodes[nodes.len() - 1]));
        assert forall|i: int| 0 <= i < nodes.len() implies #[trigger] all[2 * i + 1]
            == OutputView::Node(nodes[i], packet) by {
            if i < before.len() {
                assert(all[2 * i + 1] == earlier[2 * i + 1]);
            }
        }
        assert forall|i: int| 0 <= i < nodes.len() implies #[trigger] all[2 * i]
            == OutputView::Controller(EventView::PacketSent(packet)) by {
            if i < before.len() {
                assert(all[2 * i] == earlier[2 * i]);
            }
        }
        assert(forall|i: int| 0 <= i < earlier.len() ==> #[trigger] all[i] == earlier[i]);
    }
}

/// The outputs by which a flood is passed on, and the neighbours that it goes to in their order.
proof fn lemma_flood_outputs<S>(
    drone: DroneView<S>,
    route: RouteView,
    session_id: u64,
    request: FloodRequestView,
    post: DroneView<S>,
    outputs: Seq<OutputView>,
) -> (nodes: Seq<NodeId>)
    requires
        drone.floods(route, session_id, request, post, outputs),
        !drone.answers(request),
    ensures
        drone.are_neighbours_but(nodes, request.sender()),
        only_reported_sends(drone, outputs),
        outputs.len() == 2 * nodes.len(),
        ({
            let sent = flood_request_packet(route, session_id, drone.visit(request));
            &&& forall|i: int|
                0 <= i < nodes.len() ==> #[trigger] outputs[2 * i + 1] == OutputView::Node(
                    nodes[i],
                    sent,
                )
            &&& forall|i: int|
                0 <= i < outputs.len() ==> #[trigger] outputs[i] == if i % 2 == 0 {
                    OutputView::Controller(EventView::PacketSent(sent))
                } else {
                    OutputView::Node(nodes[i / 2], sent)
                }
        }),
{
    let sent = flood_request_packet(route, session_id, drone.visit(request));
    let nodes = choose|nodes: Seq<NodeId>| #[trigger]
        drone.are_neighbours_but(nodes, request.sender()) && outputs == deliveries(nodes, sent);
    assert forall|i: int| 0 <= i < nodes.len() implies drone.neighbours.contains_key(
        #[trigger] nodes[i],
    ) by {
        assert(nodes.to_set().contains(nodes[i]));
    }
    lemma_deliveries(drone, nodes, sent);
    assert forall|i: int| 0 <= i < outputs.len() implies #[trigger] outputs[i] == if i % 2 == 0 {
        OutputView::Controller(EventView::PacketSent(sent))
    } else {
        OutputView::Node(nodes[i / 2], sent)
    } by {
        if i % 2 == 0 {
            assert(outputs[2 * (i / 2)] == outputs[i]);
        } else {
            assert(outputs[2 * (i / 2) + 1] == outputs[i]);
        }
    }
    nodes
}

/// Whatever a drone receives, every packet that it sends goes to a neighbour of it, and the
/// controller is told of it right before; and the controller is told of no other.
pub proof fn law_every_send_is_reported<S>(
    drone: DroneView<S>,
    input: Input<S>,
    post: DroneView<S>,
    outputs: Seq<OutputView>,
)
    requires
        drone.steps(input, post, outputs),
    ensures
        only_reported_sends(drone, outputs),
{
    if let Input::Packet(packet) = input {
        let packet = packet@;
        if drone.state is Crashing {
            lemma_refusal_is_reported(
                drone,
                packet.advanced(),
                NackType::ErrorInRouting(drone.id),
            );
            lemma_forwarding_is_reported(drone, packet, false);
        } else if let PacketTypeView::FloodRequest(request) = packet.pack_type {
            if !drone.answers(request) {
                lemma_flood_outputs(
                    drone,
                    packet.routing_header,
                    packet.session_id,
                    request,
                    post,
                    outputs,
                );
            }
        } else {
            lemma_forwarding_is_reported(drone, packet, true);
            lemma_forwarding_is_reported(drone, packet, false);
        }
    }
}

/// A reply, that is an acknowledgement of either kind or a flood response, is never lost, and
/// never answered with a negative acknowledgement: a drone that lies on its route passes it on,
/// one node further, or hands it to the controller exactly as it came. (A packet whose index has
/// left its route is ignored.)
pub proof fn law_replies_are_never_lost<S>(drone: DroneView<S>, packet: PacketView, lost: bool)
    requires
        packet.is_reply(),
        0 <= packet.routing_header.hop_index < packet.routing_header.hops.len(),
    ensures
        ({
            let route = packet.routing_header;
            let outputs = drone.forwarding(packet, lost);
            let next = route.advanced().current_hop();
            if route.current_hop() == Some(drone.id) && next is Some
                && drone.neighbours.contains_key(next->0) {
                outputs == delivery(next->0, packet.advanced())
            } else {
                outputs == seq![OutputView::Controller(EventView::ControllerShortcut(packet))]
            }
        }),
{
    assert(packet.advanced().retreated() == packet);
}

/// The reason why a drone refuses a fragment that it received, if it does so before chance comes
/// in.
pub open spec fn reason_to_refuse<S>(drone: DroneView<S>, route: RouteView) -> Option<NackType> {
    if route.current_hop() != Some(drone.id) {
        Some(NackType::UnexpectedRecipient(drone.id))
    } else {
        match route.advanced().current_hop() {
            None => Some(NackType::DestinationIsDrone),
            Some(node) => if drone.neighbours.contains_key(node) {
                None
            } else {
                Some(NackType::ErrorInRouting(node))
            },
        }
    }
}

/// A fragment that came from a neighbour is passed on, or its sender is told why not: the
/// negative acknowledgement goes to the neighbour that the fragment came from, and its route
/// leads back through the nodes already visited to the first of them.
pub proof fn law_a_fragment_is_passed_on_or_refused<S>(
    drone: DroneView<S>,
    packet: PacketView,
    lost: bool,
)
    requires
        packet.is_fragment(),
        1 <= packet.routing_header.hop_index < packet.routing_header.hops.len(),
        drone.neighbours.contains_key(
            packet.routing_header.hops[packet.routing_header.hop_index - 1],
        ),
    ensures
        ({
            let route = packet.routing_header;
            let came_from = route.hops[route.hop_index - 1];
            let outputs = drone.forwarding(packet, lost);
            let nack = |nack_type: NackType|
                nack_packet(
                    route.advanced(),
                    packet.session_id,
                    packet.pack_type->MsgFragment_0.fragment_index,
                    nack_type,
                );
            match reason_to_refuse(drone, route) {
                Some(nack_type) => outputs == delivery(came_from, nack(nack_type)),
                None => if lost {
                    outputs == seq![
                        OutputView::Controller(EventView::PacketDropped(packet.advanced())),
                    ] + delivery(came_from, nack(NackType::Dropped))
                } else {
                    outputs == delivery(route.hops[route.hop_index + 1], packet.advanced())
                },
            }
        }),
        ({
            let way_back = packet.routing_header.advanced().turned_back();
            let route = packet.routing_header;
            &&& way_back.hops.len() == route.hop_index + 1
            &&& way_back.hops.first() == route.hops[route.hop_index]
            &&& way_back.current_hop() == Some(route.hops[route.hop_index - 1])
            &&& way_back.hops.last() == route.hops.first()
        }),
{
    let way_back = packet.routing_header.advanced().turned_back();
    assert(way_back.hops.len() == packet.routing_header.hop_index + 1);
}

/// The packet with its index set to `i`.
pub open spec fn at_hop(packet: PacketView, i: int) -> PacketView {
    PacketView {
        routing_header: RouteView { hop_index: i, ..packet.routing_header },
        ..packet
    }
}

/// Whether `drones` holds the nodes of a route between the first and the last, under their own
/// ids, and each has the next node as a neighbour.
pub open spec fn connects<S>(drones: Map<NodeId, DroneView<S>>, hops: Seq<NodeId>) -> bool {
    forall|i: int|
        #![trigger hops[i]]
        0 < i < hops.len() - 1 ==> {
            &&& drones.contains_key(hops[i])
            &&& drones[hops[i]].id == hops[i]
            &&& drones[hops[i]].neighbours.contains_key(hops[i + 1])
        }
}

/// Where a packet is after `steps` drones have passed it on, if all of them do.
pub open spec fn carried<S>(
    drones: Map<NodeId, DroneView<S>>,
    packet: PacketView,
    steps: nat,
) -> Option<PacketView>
    decreases steps,
{
    if steps == 0 {
        Some(packet)
    } else {
        match (
            packet.routing_header.current_hop(),
            packet.advanced().routing_header.current_hop(),
        ) {
            (Some(node), Some(next)) => if drones.contains_key(node)
                && drones[node].forwarding(packet, false) == delivery(next, packet.advanced()) {
                carried(drones, packet.advanced(), (steps - 1) as nat)
            } else {
                None
            },
            _ => None,
        }
    }
}

/// Drones that connect the nodes of a route carry a packet along it, from the second node to the
/// last, if none of them loses it.
pub proof fn law_a_packet_follows_its_route<S>(
    drones: Map<NodeId, DroneView<S>>,
    packet: PacketView,
    from: int,
)
    requires
        !packet.is_flood_request(),
        connects(drones, packet.routing_header.hops),
        1 <= from < packet.routing_header.hops.len(),
    ensures
        carried(
            drones,
            at_hop(packet, from),
            (packet.routing_header.hops.len() - 1 - from) as nat,
        ) == Some(at_hop(packet, packet.routing_header.hops.len() - 1)),
    decreases packet.routing_header.hops.len() - from,
{
    let hops = packet.routing_header.hops;
    if from < hops.len() - 1 {
        let here = at_hop(packet, from);
        assert(here.advanced() == at_hop(packet, from + 1));
        assert(drones.contains_key(hops[from]));
        law_a_packet_follows_its_route(drones, packet, from + 1);
    }
}

/// A negative acknowledgement gets back to the node that sent the fragment, if the drones that
/// the fragment has passed are connected backwards as well.
pub proof fn law_a_nack_gets_back_to_the_sender<S>(
    drones: Map<NodeId, DroneView<S>>,
    route: RouteView,
    session_id: u64,
    fragment_index: u64,
    nack_type: NackType,
)
    requires
        2 <= route.hop_index <= route.hops.len(),
        connects(drones, route.turned_back().hops),
    ensures
        ({
            let nack = nack_packet(route, session_id, fragment_index, nack_type);
            let arrived = carried(drones, nack, (route.hop_index - 2) as nat);
            &&& arrived == Some(at_hop(nack, route.hop_index - 1))
            &&& arrived->0.routing_header.current_hop() == Some(route.hops.first())
        }),
{
    let nack = nack_packet(route, session_id, fragment_index, nack_type);
    assert(nack.routing_header.hops.len() == route.hop_index);
    assert(at_hop(nack, 1) == nack);
    law_a_packet_follows_its_route(drones, nack, 1);
}

/// A negative acknowledgement gets back to the node that sent the fragment, if each of the drones
/// that the fragment has passed has the node before it as a neighbour. It arrives as it was sent,
/// at the last node of its route.
pub proof fn law_a_nack_returns_the_way_the_fragment_came<S>(
    drones: Map<NodeId, DroneView<S>>,
    route: RouteView,
    session_id: u64,
    fragment_index: u64,
    nack_type: NackType,
)
    requires
        2 <= route.hop_index <= route.hops.len(),
        forall|i: int|
            #![trigger route.hops[i]]
            0 < i < route.hop_index - 1 ==> {
                &&& drones.contains_key(route.hops[i])
                &&& drones[route.hops[i]].id == route.hops[i]
                &&& drones[route.hops[i]].neighbours.contains_key(route.hops[i - 1])
            },
    ensures
        ({
            let nack = nack_packet(route, session_id, fragment_index, nack_type);
            let arrived = carried(drones, nack, (route.hop_index - 2) as nat);
            &&& arrived is Some
            &&& arrived->0.session_id == session_id
            &&& arrived->0.pack_type == PacketTypeView::Nack(Nack { fragment_index, nack_type })
            &&& arrived->0.routing_header.hop_index == arrived->0.routing_header.hops.len() - 1
            &&& arrived->0.routing_header.hops[route.hop_index - 1] == route.hops[0]
            &&& arrived->0.routing_header.hops.len() == route.hop_index
            &&& forall|i: int|
                0 <= i < route.hop_index ==> #[trigger] arrived->0.routing_header.hops[i]
                    == route.hops[route.hop_index - 1 - i]
        }),
{
    let way_back = route.turned_back().hops;
    law_the_way_back_reverses_the_route(route);
    assert forall|i: int| #![trigger way_back[i]] 0 < i < way_back.len() - 1 implies {
        &&& drones.contains_key(way_back[i])
        &&& drones[way_back[i]].id == way_back[i]
        &&& drones[way_back[i]].neighbours.contains_key(way_back[i + 1])
    } by {
        assert(way_back[i] == route.hops[route.hop_index - 1 - i]);
        assert(way_back[i + 1] == route.hops[route.hop_index - 1 - (i + 1)]);
    }
    law_a_nack_gets_back_to_the_sender(drones, route, session_id, fragment_index, nack_type);
}

/// A flood response gets to the initiator, if each of the drones on the path of the request has
/// the one before it as a neighbour, and the first the initiator, where the path does not begin
/// with that. It arrives as it was made, with the whole path.
pub proof fn law_a_flood_response_reaches_the_initiator<S>(
    drones: Map<NodeId, DroneView<S>>,
    request: FloodRequestView,
    session_id: u64,
)
    requires
        request.path_trace.len() > 0,
        request.path_trace.len() > 1 || request.path_trace[0].0 != request.initiator_id,
        forall|i: int|
            #![trigger request.path_trace[i]]
            0 <= i < request.path_trace.len() - 1 && (i > 0 || request.path_trace[0].0
                != request.initiator_id) ==> {
                let node = request.path_trace[i].0;
                &&& drones.contains_key(node)
                &&& drones[node].id == node
                &&& drones[node].neighbours.contains_key(
                    if i > 0 {
                        request.path_trace[i - 1].0
                    } else {
                        request.initiator_id
                    },
                )
            },
    ensures
        ({
            let path = request.path_trace;
            let steps: int = if path[0].0 == request.initiator_id {
                path.len() - 2
            } else {
                path.len() - 1
            };
            let response = request.response(session_id).advanced();
            let arrived = carried(drones, response, steps as nat);
            &&& arrived is Some
            &&& arrived->0.session_id == session_id
            &&& arrived->0.pack_type == PacketTypeView::FloodResponse(
                FloodResponseView { flood_id: request.flood_id, path_trace: path },
            )
            &&& arrived->0.routing_header.hop_index == steps + 1
            &&& arrived->0.routing_header.hops.len() == steps + 2
            &&& arrived->0.routing_header.hops[steps + 1] == request.initiator_id
        }),
{
    let path = request.path_trace;
    let response = request.response(session_id);
    let hops = request.response_hops();
    law_a_response_retraces_the_path(request, session_id);
    assert forall|i: int| #![trigger hops[i]] 0 < i < hops.len() - 1 implies {
        &&& drones.contains_key(hops[i])
        &&& drones[hops[i]].id == hops[i]
        &&& drones[hops[i]].neighbours.contains_key(hops[i + 1])
    } by {
        assert(hops[i] == path[path.len() - 1 - i].0);
        if i + 1 < path.len() {
            assert(hops[i + 1] == path[path.len() - 1 - (i + 1)].0);
        }
    }
    assert(at_hop(response, 1) == response.advanced());
    law_a_packet_follows_its_route(drones, response, 1);
    if path[0].0 == request.initiator_id {
        assert(hops[path.len() - 1] == path[0].0);
    }
}

/// A flood that was passed on is known from then on: the next request of it, on whatever path, is
/// answered and changes nothing. (A request with an empty path that names the drone itself as the
/// initiator cannot be answered.)
pub proof fn law_a_flood_is_passed_on_once<S>(
    drone: DroneView<S>,
    first: PacketView,
    middle: DroneView<S>,
    first_outputs: Seq<OutputView>,
    second: PacketView,
    post: DroneView<S>,
    outputs: Seq<OutputView>,
    lost: bool,
)
    requires
        first.is_flood_request(),
        second.is_flood_request(),
        first.pack_type->FloodRequest_0.initiator_id
            == second.pack_type->FloodRequest_0.initiator_id,
        first.pack_type->FloodRequest_0.flood_id == second.pack_type->FloodRequest_0.flood_id,
        !drone.answers(first.pack_type->FloodRequest_0),
        drone.handles(first, lost, middle, first_outputs),
        middle.accepts(second),
        middle.handles(second, lost, post, outputs),
    ensures
        ({
            let again = second.pack_type->FloodRequest_0;
            &&& middle.answers(again)
            &&& post == middle
            &&& outputs == middle.delivery_if_neighbour(
                again.sender(),
                middle.visit(again).response(second.session_id).advanced(),
            )
        }),
{
    let request = first.pack_type->FloodRequest_0;
    law_history_remembers_what_was_entered(
        drone.flood_history,
        drone.flood_memory,
        (request.initiator_id, request.flood_id),
    );
    law_response_goes_back_to_the_sender(
        second.pack_type->FloodRequest_0,
        middle.id,
        NodeType::Drone,
    );
}

/// A flood that is passed on goes to every neighbour but the one that it came from, to each
/// exactly once, and with the drone at the end of its path.
pub proof fn law_a_flood_goes_to_every_other_neighbour_once<S>(
    drone: DroneView<S>,
    route: RouteView,
    session_id: u64,
    request: FloodRequestView,
    post: DroneView<S>,
    outputs: Seq<OutputView>,
)
    requires
        drone.floods(route, session_id, request, post, outputs),
        !drone.answers(request),
    ensures
        forall|node: NodeId, packet: PacketView| #[trigger]
            outputs.contains(OutputView::Node(node, packet)) <==> {
                &&& drone.neighbours.contains_key(node)
                &&& node != request.sender()
                &&& packet == flood_request_packet(route, session_id, drone.visit(request))
            },
        forall|i: int, j: int|
            0 <= i < j < outputs.len() && (#[trigger] outputs[i]) is Node && (
            #[trigger] outputs[j]) is Node ==> outputs[i]->Node_0 != outputs[j]->Node_0,
{
    let sent = flood_request_packet(route, session_id, drone.visit(request));
    let nodes = lemma_flood_outputs(drone, route, session_id, request, post, outputs);
    assert forall|node: NodeId, packet: PacketView| #[trigger]
        outputs.contains(OutputView::Node(node, packet)) <==> {
            &&& drone.neighbours.contains_key(node)
            &&& node != request.sender()
            &&& packet == sent
        } by {
        if outputs.contains(OutputView::Node(node, packet)) {
            let i = outputs.index_of(OutputView::Node(node, packet));
            assert(outputs[i] is Node);
            assert(nodes.to_set().contains(nodes[i / 2]));
        }
        if drone.neighbours.contains_key(node) && node != request.sender() && packet == sent {
            assert(nodes.to_set().contains(node));
            let k = nodes.index_of(node);
            assert(outputs[2 * k + 1] == OutputView::Node(node, packet));
        }
    }
}

/// The answer to a flood request goes back to the node that the request came from, if that is a
/// neighbour, and is on its way to the initiator.
pub proof fn law_a_flood_answer_goes_back<S>(
    drone: DroneView<S>,
    route: RouteView,
    session_id: u64,
    request: FloodRequestView,
    post: DroneView<S>,
    outputs: Seq<OutputView>,
)
    requires
        drone.floods(route, session_id, request, post, outputs),
        drone.answers(request),
        drone.can_answer(request),
    ensures
        ({
            let response = drone.visit(request).response(session_id).advanced();
            &&& outputs == drone.delivery_if_neighbour(request.sender(), response)
            &&& response.routing_header.current_hop() == Some(request.sender())
            &&& response.routing_header.hops.first() == drone.id
            &&& response.routing_header.hops.last() == request.initiator_id
            &&& response.pack_type->FloodResponse_0.path_trace == request.path_trace.push(
                (drone.id, NodeType::Drone),
            )
        }),
{
    law_response_goes_back_to_the_sender(request, drone.id, NodeType::Drone);
}

/// Whether a history holds no flood twice, and of no initiator more than it is meant to.
pub open spec fn tidy_history<S>(drone: DroneView<S>) -> bool {
    forall|initiator: NodeId|
        #![trigger remembered(drone.flood_history, initiator)]
        {
            &&& remembered(drone.flood_history, initiator).no_duplicates()
            &&& drone.flood_memory > 0 ==> remembered(drone.flood_history, initiator).len()
                <= drone.flood_memory
        }
}

/// What no input changes: a drone keeps its id and the size of its memory, and its history holds
/// no flood twice and of no initiator more than that. At most one flood is entered at a time, and
/// only one that was not known.
pub proof fn law_steps_keep_the_history_tidy<S>(
    drone: DroneView<S>,
    input: Input<S>,
    post: DroneView<S>,
    outputs: Seq<OutputView>,
)
    requires
        drone.steps(input, post, outputs),
        tidy_history(drone),
    ensures
        tidy_history(post),
        post.id == drone.id,
        post.flood_memory == drone.flood_memory,
        post.flood_history == drone.flood_history || exists|flood: (NodeId, u64)|
            !#[trigger] remembers(drone.flood_history, flood) && post.flood_history
                == history_insert(drone.flood_history, drone.flood_memory, flood),
{
    if let Input::Packet(packet) = input {
        if let PacketTypeView::FloodRequest(request) = packet@.pack_type {
            if drone.state is Running && !drone.answers(request) {
                let flood = (request.initiator_id, request.flood_id);
                assert(!remembers(drone.flood_history, flood));
                let before = remembered(drone.flood_history, flood.0);
                let after = ring_insert(before, drone.flood_memory, flood.1);
                assert(after.no_duplicates()) by {
                    assert(forall|i: int|
                        0 <= i < before.len() ==> before.contains(#[trigger] before[i]));
                }
                assert forall|initiator: NodeId|
                    #![trigger remembered(post.flood_history, initiator)]
                    {
                        &&& remembered(post.flood_history, initiator).no_duplicates()
                        &&& post.flood_memory > 0 ==> remembered(
                            post.flood_history,
                            initiator,
                        ).len() <= post.flood_memory
                    } by {
                    let _ = remembered(drone.flood_history, initiator);
                }
            }
        }
    }
}

/// A drone starts with a tidy history.
pub proof fn law_a_new_drone_is_tidy<S>(
    id: NodeId,
    neighbours: Map<NodeId, S>,
    pdr: Result<Bernoulli, BernoulliError>,
    flood_memory: nat,
)
    ensures
        tidy_history(initial(id, neighbours, pdr, flood_memory)),
{
}

/// Only commands change who the neighbours are, what the drop rate is and whether the drone runs.
/// A packet leaves a trace in the history of floods, or that of one draw.
pub proof fn law_packets_change_only_the_history<S>(
    drone: DroneView<S>,
    input: Input<S>,
    post: DroneView<S>,
    outputs: Seq<OutputView>,
)
    requires
        drone.steps(input, post, outputs),
        !(input is Command),
    ensures
        post == (DroneView {
            flood_history: post.flood_history,
            draw_log: post.draw_log,
            ..drone
        }),
        post.draw_log == drone.draw_log || drone.drop_rate is Some && exists|lost: bool|
            post.draw_log == #[trigger] drone.draw_log.push((drone.drop_rate->0, lost)),
{
}

/// A crash cannot be undone: the command makes a running drone crash, and a crashing drone stays
/// as it is whatever comes. It passes on replies only: it sends no flood request and reports no
/// fragment as lost.
pub proof fn law_a_crash_is_final<S>(
    drone: DroneView<S>,
    input: Input<S>,
    post: DroneView<S>,
    outputs: Seq<OutputView>,
)
    requires
        drone.steps(input, post, outputs),
    ensures
        drone.state is Running && input == Input::<S>::Command(DroneCommand::Crash)
            ==> post.state is Crashing,
        drone.state is Crashing ==> post == drone,
        drone.state is Crashing ==> forall|i: int| #![trigger outputs[i]]
            0 <= i < outputs.len() ==> {
                &&& outputs[i] matches OutputView::Node(_, packet) ==> packet.is_reply()
                &&& !(outputs[i] matches OutputView::Controller(EventView::PacketDropped(_)))
            },
{
}

/// A fragment that could be sent on is lost if the draw with the drone's own rate says so, and
/// goes to the next node of its route otherwise. The rate is the one that was set last.
pub proof fn law_the_draw_decides<S>(
    drone: DroneView<S>,
    rate: Bernoulli,
    packet: PacketView,
    post: DroneView<S>,
    outputs: Seq<OutputView>,
    lost: bool,
)
    requires
        ({
            let set = drone.commanded(DroneCommand::SetPacketDropRate(Ok(rate)));
            &&& set.draws(packet)
            &&& set.chance_allows(packet, lost)
            &&& set.handles(packet, lost, post, outputs)
        }),
    ensures
        draw_yields(rate, lost),
        lost ==> outputs == seq![
            OutputView::Controller(EventView::PacketDropped(packet.advanced())),
        ] + drone.refusal(packet.advanced(), NackType::Dropped),
        !lost ==> outputs == delivery(
            packet.routing_header.hops[packet.routing_header.hop_index + 1],
            packet.advanced(),
        ),
{
    let set = drone.commanded(DroneCommand::SetPacketDropRate(Ok(rate)));
    assert(set.refusal(packet.advanced(), NackType::Dropped) == drone.refusal(
        packet.advanced(),
        NackType::Dropped,
    ));
}

/// Without a drop rate no fragment is lost.
pub proof fn law_without_a_drop_rate_nothing_is_lost<S>(
    drone: DroneView<S>,
    input: Input<S>,
    post: DroneView<S>,
    outputs: Seq<OutputView>,
)
    requires
        drone.steps(input, post, outputs),
        drone.drop_rate is None,
    ensures
        forall|i: int| #![trigger outputs[i]]
            0 <= i < outputs.len() ==> !(outputs[i] matches OutputView::Controller(
                EventView::PacketDropped(_),
            )),
{
    if let Input::Packet(packet) = input {
        if let PacketTypeView::FloodRequest(request) = packet@.pack_type {
            if drone.state is Running && !drone.answers(request) {
                lemma_flood_outputs(
                    drone,
                    packet@.routing_header,
                    packet@.session_id,
                    request,
                    post,
                    outputs,
                );
            }
        }
    }
}

/// A channel that was added is used from then on, and removing it again leaves the drone with the
/// neighbours that it had, but for that node.
pub proof fn law_senders_come_and_go<S>(drone: DroneView<S>, node: NodeId, channel: S)
    ensures
        ({
            let added = drone.commanded(DroneCommand::AddSender(node, channel));
            let removed = added.commanded(DroneCommand::RemoveSender(node));
            &&& added.neighbours.contains_key(node)
            &&& added.neighbours[node] == channel
            &&& !removed.neighbours.contains_key(node)
            &&& removed == drone.commanded(DroneCommand::RemoveSender(node))
            &&& !drone.neighbours.contains_key(node) ==> removed == drone
        }),
{
    let added = drone.commanded(DroneCommand::AddSender(node, channel));
    let removed = added.commanded(DroneCommand::RemoveSender(node));
    assert(removed =~= drone.commanded(DroneCommand::RemoveSender(node)));
    if !drone.neighbours.contains_key(node) {
        assert(removed =~= drone);
    }
}

} // verus!
