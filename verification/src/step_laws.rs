//! What a drone does with each kind of input, told from the fields of what comes in and what goes
//! out.

use crate::controller::{
    deliveries, law_deliveries_go_out_in_turn, DroneCommand, EventView, Input, OutputView,
};
use crate::drone_model::{initial, DroneView, State};
use crate::drop_rate::draw_yields;
use crate::flood_history::law_entering_a_flood_costs_at_most_the_oldest;
use crate::network::{law_the_way_back_reverses_the_route, NodeId, RouteView};
use crate::packet::{
    flood_request_packet, law_a_response_retraces_the_path, law_response_goes_back_to_the_sender,
    FloodRequestView, FloodResponseView, Nack, NackType, NodeType, Packet, PacketType,
    PacketTypeView, PacketView,
};
use rand::distributions::{Bernoulli, BernoulliError};
use vstd::prelude::*;

verus! {

/// What comes of a packet that cannot go on, with its index already on the node that it cannot
/// reach. A fragment is answered with a negative acknowledgement, which goes to the node that the
/// fragment came from, if that is a neighbour, and from there back through every node that the
/// fragment has visited. Any other packet goes to the controller, with its index where it was. A
/// packet whose index has left its route is ignored.
pub proof fn law_a_refusal_answers_the_sender<S>(
    drone: DroneView<S>,
    packet: PacketView,
    nack_type: NackType,
)
    ensures
        ({
            let hops = packet.routing_header.hops;
            let h = packet.routing_header.hop_index;
            let outputs = drone.refusal(packet, nack_type);
            &&& h < 0 || h > hops.len() ==> outputs.len() == 0
            &&& 0 <= h <= hops.len() ==> match packet.pack_type {
                PacketTypeView::MsgFragment(fragment) => if h >= 2
                    && drone.neighbours.contains_key(hops[h - 2]) {
                    let nack = outputs[1]->Node_1;
                    &&& outputs.len() == 2
                    &&& outputs[0] == OutputView::Controller(EventView::PacketSent(nack))
                    &&& outputs[1] == OutputView::Node(hops[h - 2], nack)
                    &&& nack.session_id == packet.session_id
                    &&& nack.pack_type == PacketTypeView::Nack(
                        Nack { fragment_index: fragment.fragment_index, nack_type },
                    )
                    &&& nack.routing_header.hop_index == 1
                    &&& nack.routing_header.hops.len() == h
                    &&& forall|i: int|
                        0 <= i < h ==> #[trigger] nack.routing_header.hops[i] == hops[h - 1 - i]
                } else {
                    outputs.len() == 0
                },
                _ => {
                    &&& outputs.len() == 1
                    &&& outputs[0] == OutputView::Controller(
                        EventView::ControllerShortcut(
                            PacketView {
                                routing_header: RouteView { hop_index: h - 1, hops },
                                session_id: packet.session_id,
                                pack_type: packet.pack_type,
                            },
                        ),
                    )
                },
            }
        }),
{
    law_the_way_back_reverses_the_route(packet.routing_header);
}

/// A packet on its way to a neighbour is reported and sent there; only a fragment can be lost
/// instead, and is then reported as lost and refused.
pub proof fn law_a_transmission_sends_or_drops<S>(
    drone: DroneView<S>,
    packet: PacketView,
    node: NodeId,
    lost: bool,
)
    ensures
        ({
            let outputs = drone.transmission(packet, node, lost);
            if lost && packet.pack_type is MsgFragment {
                &&& outputs.len() > 0
                &&& outputs[0] == OutputView::Controller(EventView::PacketDropped(packet))
                &&& outputs.skip(1) == drone.refusal(packet, NackType::Dropped)
            } else {
                &&& outputs.len() == 2
                &&& outputs[0] == OutputView::Controller(EventView::PacketSent(packet))
                &&& outputs[1] == OutputView::Node(node, packet)
            }
        }),
{
    let refusal = drone.refusal(packet, NackType::Dropped);
    if lost && packet.pack_type is MsgFragment {
        assert(drone.transmission(packet, node, lost).skip(1) =~= refusal);
    }
}

/// What a drone that does not crash does with a fragment. It goes on to the next node of its route
/// if it has reached the right drone, there is a next node, and that is a neighbour; unless it is
/// lost, which is reported and recorded. In every other case the node that it came from is told
/// why, if that is a neighbour, and the answer goes back through every node that the fragment has
/// visited.
pub proof fn law_a_fragment_is_sent_on_lost_or_refused<S>(
    drone: DroneView<S>,
    packet: PacketView,
    lost: bool,
    post: DroneView<S>,
    outputs: Seq<OutputView>,
)
    requires
        packet.pack_type is MsgFragment,
        drone.handles(packet, lost, post, outputs),
    ensures
        ({
            let hops = packet.routing_header.hops;
            let h = packet.routing_header.hop_index;
            let n = outputs.len();
            let moved = PacketView {
                routing_header: RouteView { hop_index: h + 1, hops },
                session_id: packet.session_id,
                pack_type: packet.pack_type,
            };
            let arrived = 0 <= h < hops.len() && hops[h] == drone.id;
            let goes_on = arrived && h + 1 < hops.len() && drone.neighbours.contains_key(
                hops[h + 1],
            );
            let came_from_a_neighbour = 1 <= h < hops.len() && drone.neighbours.contains_key(
                hops[h - 1],
            );
            let nack = outputs[n - 1]->Node_1;
            let reason = if !arrived {
                NackType::UnexpectedRecipient(drone.id)
            } else if h + 1 == hops.len() {
                NackType::DestinationIsDrone
            } else if !goes_on {
                NackType::ErrorInRouting(hops[h + 1])
            } else {
                NackType::Dropped
            };
            &&& goes_on && !lost ==> {
                &&& n == 2
                &&& outputs[0] == OutputView::Controller(EventView::PacketSent(moved))
                &&& outputs[1] == OutputView::Node(hops[h + 1], moved)
            }
            &&& goes_on && lost ==> {
                &&& n == if came_from_a_neighbour {
                    3nat
                } else {
                    1
                }
                &&& outputs[0] == OutputView::Controller(EventView::PacketDropped(moved))
            }
            &&& !goes_on ==> n == if came_from_a_neighbour {
                2nat
            } else {
                0
            }
            &&& (!goes_on || lost) && came_from_a_neighbour ==> {
                &&& outputs[n - 2] == OutputView::Controller(EventView::PacketSent(nack))
                &&& outputs[n - 1] == OutputView::Node(hops[h - 1], nack)
                &&& nack.session_id == packet.session_id
                &&& nack.pack_type == PacketTypeView::Nack(
                    Nack {
                        fragment_index: packet.pack_type->MsgFragment_0.fragment_index,
                        nack_type: reason,
                    },
                )
                &&& nack.routing_header.hop_index == 1
                &&& nack.routing_header.hops.len() == h + 1
                &&& forall|i: int|
                    0 <= i <= h ==> #[trigger] nack.routing_header.hops[i] == hops[h - i]
            }
            &&& post == (DroneView {
                draw_log: if goes_on && drone.drop_rate is Some {
                    drone.draw_log.push((drone.drop_rate->0, lost))
                } else {
                    drone.draw_log
                },
                ..drone
            })
        }),
{
    law_the_way_back_reverses_the_route(packet.routing_header.advanced());
}

/// What a drone that does not crash does with a reply: it goes on to the next node of its route if
/// it has reached the right drone, there is a next node, and that is a neighbour; otherwise it goes
/// to the controller as it came. A reply whose index has left its route is ignored.
pub proof fn law_a_reply_is_sent_on_or_handed_over<S>(
    drone: DroneView<S>,
    packet: PacketView,
    lost: bool,
    post: DroneView<S>,
    outputs: Seq<OutputView>,
)
    requires
        packet.pack_type is Ack || packet.pack_type is Nack || packet.pack_type is FloodResponse,
        packet.routing_header.hop_index >= 0,
        drone.handles(packet, lost, post, outputs),
    ensures
        ({
            let hops = packet.routing_header.hops;
            let h = packet.routing_header.hop_index;
            let moved = PacketView {
                routing_header: RouteView { hop_index: h + 1, hops },
                session_id: packet.session_id,
                pack_type: packet.pack_type,
            };
            &&& post == drone
            &&& if h >= hops.len() {
                outputs.len() == 0
            } else if hops[h] == drone.id && h + 1 < hops.len() && drone.neighbours.contains_key(
                hops[h + 1],
            ) {
                &&& outputs.len() == 2
                &&& outputs[0] == OutputView::Controller(EventView::PacketSent(moved))
                &&& outputs[1] == OutputView::Node(hops[h + 1], moved)
            } else {
                &&& outputs.len() == 1
                &&& outputs[0] == OutputView::Controller(EventView::ControllerShortcut(packet))
            }
        }),
{
    assert(packet.advanced().retreated() == packet);
}

/// A drone that takes a packet while it runs handles it; and where it is a fragment that could be
/// sent on, whether it is lost is up to the drop rate alone.
pub proof fn law_a_running_drone_handles_its_packets<S>(
    drone: DroneView<S>,
    packet: Packet,
    post: DroneView<S>,
    outputs: Seq<OutputView>,
) -> (lost: bool)
    requires
        drone.state is Running,
        drone.steps(Input::Packet(packet), post, outputs),
    ensures
        drone.handles(packet@, lost, post, outputs),
        ({
            let hops = packet.routing_header.hops@;
            let h = packet.routing_header.hop_index;
            packet.pack_type is MsgFragment && h + 1 < hops.len() && hops[h as int] == drone.id
                && drone.neighbours.contains_key(hops[h + 1]) ==> match drone.drop_rate {
                Some(rate) => draw_yields(rate, lost),
                None => !lost,
            }
        }),
{
    let lost = choose|lost: bool| #[trigger]
        drone.chance_allows(packet@, lost) && drone.handles(packet@, lost, post, outputs);
    lost
}

/// No reply is lost, not even in a crash: whether the drone runs or crashes, an acknowledgement of
/// either kind or a flood response goes on to the next node of its route if it has reached the
/// right drone and the next node is a neighbour, and otherwise to the controller as it came. The
/// drone stays as it is.
pub proof fn law_no_reply_is_lost_in_a_crash<S>(
    drone: DroneView<S>,
    packet: Packet,
    post: DroneView<S>,
    outputs: Seq<OutputView>,
)
    requires
        packet.pack_type is Ack || packet.pack_type is Nack || packet.pack_type is FloodResponse,
        packet.routing_header.hop_index < packet.routing_header.hops@.len(),
        drone.steps(Input::Packet(packet), post, outputs),
    ensures
        ({
            let hops = packet.routing_header.hops@;
            let h = packet.routing_header.hop_index as int;
            let moved = PacketView {
                routing_header: RouteView { hop_index: h + 1, hops },
                session_id: packet.session_id,
                pack_type: packet@.pack_type,
            };
            &&& post == drone
            &&& if hops[h] == drone.id && h + 1 < hops.len() && drone.neighbours.contains_key(
                hops[h + 1],
            ) {
                &&& outputs.len() == 2
                &&& outputs[0] == OutputView::Controller(EventView::PacketSent(moved))
                &&& outputs[1] == OutputView::Node(hops[h + 1], moved)
            } else {
                &&& outputs.len() == 1
                &&& outputs[0] == OutputView::Controller(EventView::ControllerShortcut(packet@))
            }
        }),
{
    assert(packet@.advanced().retreated() == packet@);
    if drone.state is Running {
        let lost = law_a_running_drone_handles_its_packets(drone, packet, post, outputs);
        law_a_reply_is_sent_on_or_handed_over(drone, packet@, lost, post, outputs);
    }
}

/// A crashing drone sends no fragment on: it answers one that came from a neighbour, to that
/// neighbour, with the word that it cannot be routed to, and ignores any other. Flood requests it
/// ignores.
pub proof fn law_a_crashing_drone_refuses_fragments<S>(
    drone: DroneView<S>,
    packet: Packet,
    post: DroneView<S>,
    outputs: Seq<OutputView>,
)
    requires
        drone.state is Crashing,
        drone.steps(Input::Packet(packet), post, outputs),
    ensures
        post == drone,
        packet.pack_type is FloodRequest ==> outputs.len() == 0,
        packet.pack_type is MsgFragment ==> {
            let hops = packet.routing_header.hops@;
            let h = packet.routing_header.hop_index as int;
            let nack = outputs[1]->Node_1;
            if 1 <= h < hops.len() && drone.neighbours.contains_key(hops[h - 1]) {
                &&& outputs.len() == 2
                &&& outputs[0] == OutputView::Controller(EventView::PacketSent(nack))
                &&& outputs[1] == OutputView::Node(hops[h - 1], nack)
                &&& nack.session_id == packet.session_id
                &&& nack.pack_type == PacketTypeView::Nack(
                    Nack {
                        fragment_index: packet.pack_type->MsgFragment_0.fragment_index,
                        nack_type: NackType::ErrorInRouting(drone.id),
                    },
                )
                &&& nack.routing_header.hop_index == 1
                &&& nack.routing_header.hops.len() == h + 1
                &&& forall|i: int|
                    0 <= i <= h ==> #[trigger] nack.routing_header.hops[i] == hops[h - i]
            } else {
                outputs.len() == 0
            }
        },
{
    law_the_way_back_reverses_the_route(packet@.routing_header.advanced());
}

/// What is sent for a packet in a crash: for a reply what would be sent otherwise, for a flood
/// request nothing, and for a fragment a refusal.
pub proof fn law_last_words<S>(drone: DroneView<S>, packet: PacketView)
    ensures
        match packet.pack_type {
            PacketTypeView::FloodRequest(_) => drone.last_words(packet).len() == 0,
            PacketTypeView::MsgFragment(_) => drone.last_words(packet) == drone.refusal(
                PacketView {
                    routing_header: RouteView {
                        hop_index: packet.routing_header.hop_index + 1,
                        hops: packet.routing_header.hops,
                    },
                    session_id: packet.session_id,
                    pack_type: packet.pack_type,
                },
                NackType::ErrorInRouting(drone.id),
            ),
            _ => forall|lost: bool|
                drone.handles(packet, lost, drone, #[trigger] drone.last_words(packet)),
        },
{
}

/// One draw decides on one fragment: a fragment that could be sent on adds exactly one outcome to
/// the record, drawn with the drone's rate, and is lost exactly if that outcome says so. Without a
/// rate nothing is drawn, and it is sent on.
pub proof fn law_one_draw_decides_on_a_fragment<S>(
    drone: DroneView<S>,
    packet: Packet,
    post: DroneView<S>,
    outputs: Seq<OutputView>,
) -> (lost: bool)
    requires
        drone.state is Running,
        drone.steps(Input::Packet(packet), post, outputs),
        packet.pack_type is MsgFragment,
        packet.routing_header.hop_index + 1 < packet.routing_header.hops@.len(),
        packet.routing_header.hops@[packet.routing_header.hop_index as int] == drone.id,
        drone.neighbours.contains_key(
            packet.routing_header.hops@[packet.routing_header.hop_index + 1],
        ),
    ensures
        ({
            let hops = packet.routing_header.hops@;
            let h = packet.routing_header.hop_index as int;
            let moved = PacketView {
                routing_header: RouteView { hop_index: h + 1, hops },
                session_id: packet.session_id,
                pack_type: packet@.pack_type,
            };
            &&& match drone.drop_rate {
                Some(rate) => {
                    &&& post.draw_log == drone.draw_log.push((rate, lost))
                    &&& draw_yields(rate, lost)
                },
                None => {
                    &&& post.draw_log == drone.draw_log
                    &&& !lost
                },
            }
            &&& lost ==> {
                &&& outputs.len() > 0
                &&& outputs[0] == OutputView::Controller(EventView::PacketDropped(moved))
                &&& !outputs.contains(OutputView::Node(hops[h + 1], moved))
            }
            &&& !lost ==> {
                &&& outputs.len() == 2
                &&& outputs[0] == OutputView::Controller(EventView::PacketSent(moved))
                &&& outputs[1] == OutputView::Node(hops[h + 1], moved)
            }
        }),
{
    let lost = law_a_running_drone_handles_its_packets(drone, packet, post, outputs);
    law_a_fragment_is_sent_on_lost_or_refused(drone, packet@, lost, post, outputs);
    lost
}

/// Nothing is drawn but for a fragment that could be sent on.
pub proof fn law_nothing_else_is_drawn<S>(
    drone: DroneView<S>,
    input: Input<S>,
    post: DroneView<S>,
    outputs: Seq<OutputView>,
)
    requires
        drone.steps(input, post, outputs),
        drone.state is Crashing || !(input is Packet) || ({
            let packet = input->Packet_0;
            let hops = packet.routing_header.hops@;
            let h = packet.routing_header.hop_index;
            !(packet.pack_type is MsgFragment) || h + 1 >= hops.len() || hops[h as int] != drone.id
                || !drone.neighbours.contains_key(hops[h + 1])
        }),
    ensures
        post.draw_log == drone.draw_log,
{
}

/// A draw is recorded with the drone's rate and what it came out as; without a rate there is none,
/// and nothing is lost.
pub proof fn law_a_draw_goes_by_the_own_rate<S>(
    drone: DroneView<S>,
    before: Seq<(Bernoulli, bool)>,
    after: Seq<(Bernoulli, bool)>,
    lost: bool,
)
    ensures
        drone.drop_rate is None ==> {
            &&& drone.drawn(lost) <==> !lost
            &&& drone.records(before, after, lost) <==> after == before && !lost
        },
        drone.drop_rate is Some ==> {
            &&& drone.drawn(lost) <==> draw_yields(drone.drop_rate->0, lost)
            &&& drone.records(before, after, lost) <==> {
                &&& after.len() == before.len() + 1
                &&& after[before.len() as int] == (drone.drop_rate->0, lost)
                &&& forall|i: int| 0 <= i < before.len() ==> #[trigger] after[i] == before[i]
            }
        },
{
    if drone.drop_rate is Some && after.len() == before.len() + 1 {
        let grown = before.push((drone.drop_rate->0, lost));
        if after[before.len() as int] == (drone.drop_rate->0, lost) && forall|i: int|
            0 <= i < before.len() ==> #[trigger] after[i] == before[i] {
            assert(after =~= grown);
        }
    }
}

/// Chance comes in only for a fragment that has reached the right drone and whose next node is a
/// neighbour, and then what it says is a draw with the drone's rate.
pub proof fn law_chance_decides_on_fragments_that_can_go_on<S>(
    drone: DroneView<S>,
    packet: PacketView,
    lost: bool,
)
    ensures
        ({
            let hops = packet.routing_header.hops;
            let h = packet.routing_header.hop_index;
            let goes_on = packet.pack_type is MsgFragment && 0 <= h && h + 1 < hops.len()
                && hops[h] == drone.id && drone.neighbours.contains_key(hops[h + 1]);
            &&& drone.draws(packet) <==> goes_on
            &&& drone.chance_allows(packet, lost) <==> !goes_on || match drone.drop_rate {
                Some(rate) => draw_yields(rate, lost),
                None => !lost,
            }
        }),
{
}

/// What a drone that does not crash does with the request of a flood that it knows, or while it
/// has no more than one neighbour: it stays as it is and answers the node that the request came
/// from, if that is a neighbour. The response lists the whole path and goes back along it. (A
/// request with an empty path that names the drone itself as the initiator cannot be answered.)
pub proof fn law_a_known_flood_is_answered<S>(
    drone: DroneView<S>,
    packet: PacketView,
    lost: bool,
    post: DroneView<S>,
    outputs: Seq<OutputView>,
)
    requires
        packet.pack_type is FloodRequest,
        drone.handles(packet, lost, post, outputs),
        ({
            let request = packet.pack_type->FloodRequest_0;
            &&& drone.neighbours.dom().len() <= 1 || drone.flood_history.contains_key(
                request.initiator_id,
            ) && drone.flood_history[request.initiator_id].contains(request.flood_id)
            &&& request.path_trace.len() > 0 || request.initiator_id != drone.id
        }),
    ensures
        ({
            let request = packet.pack_type->FloodRequest_0;
            let path = request.path_trace;
            let sender = if path.len() > 0 {
                path[path.len() - 1].0
            } else {
                request.initiator_id
            };
            let response = outputs[1]->Node_1;
            let hops = response.routing_header.hops;
            &&& post == drone
            &&& !drone.neighbours.contains_key(sender) ==> outputs.len() == 0
            &&& drone.neighbours.contains_key(sender) ==> {
                &&& outputs.len() == 2
                &&& outputs[0] == OutputView::Controller(EventView::PacketSent(response))
                &&& outputs[1] == OutputView::Node(sender, response)
                &&& response.session_id == packet.session_id
                &&& response.pack_type == PacketTypeView::FloodResponse(
                    FloodResponseView {
                        flood_id: request.flood_id,
                        path_trace: path.push((drone.id, NodeType::Drone)),
                    },
                )
                &&& response.routing_header.hop_index == 1
                &&& hops[0] == drone.id
                &&& forall|i: int|
                    1 <= i <= path.len() ==> #[trigger] hops[i] == path[path.len() - i].0
                &&& hops[hops.len() - 1] == request.initiator_id
                &&& hops.len() == if path.len() > 0 && path[0].0 == request.initiator_id {
                    path.len() + 1
                } else {
                    path.len() + 2
                }
            }
        }),
{
    let request = packet.pack_type->FloodRequest_0;
    let path = request.path_trace;
    let visited = request.incremented(drone.id, NodeType::Drone);
    law_response_goes_back_to_the_sender(request, drone.id, NodeType::Drone);
    law_a_response_retraces_the_path(visited, packet.session_id);
    let hops = visited.response_hops();
    assert forall|i: int| 1 <= i <= path.len() implies #[trigger] hops[i] == path[path.len()
        - i].0 by {
        assert(visited.path_trace[visited.path_trace.len() - 1 - i] == path[path.len() - i]);
    }
}

/// What a drone that does not crash, with more than one neighbour, does with the request of a flood
/// that it does not know: the request goes to every neighbour but the one that it came from, to
/// each once and with the drone at the end of its path, and the flood is entered last among those
/// of its initiator, of which the oldest is given up if there were as many as fit.
pub proof fn law_a_new_flood_is_passed_on<S>(
    drone: DroneView<S>,
    packet: PacketView,
    lost: bool,
    post: DroneView<S>,
    outputs: Seq<OutputView>,
) -> (nodes: Seq<NodeId>)
    requires
        packet.pack_type is FloodRequest,
        drone.handles(packet, lost, post, outputs),
        drone.neighbours.dom().len() > 1,
        ({
            let request = packet.pack_type->FloodRequest_0;
            !(drone.flood_history.contains_key(request.initiator_id)
                && drone.flood_history[request.initiator_id].contains(request.flood_id))
        }),
    ensures
        ({
            let request = packet.pack_type->FloodRequest_0;
            let path = request.path_trace;
            let sender = if path.len() > 0 {
                path[path.len() - 1].0
            } else {
                request.initiator_id
            };
            let passed_on = PacketView {
                routing_header: packet.routing_header,
                session_id: packet.session_id,
                pack_type: PacketTypeView::FloodRequest(
                    FloodRequestView {
                        flood_id: request.flood_id,
                        initiator_id: request.initiator_id,
                        path_trace: path.push((drone.id, NodeType::Drone)),
                    },
                ),
            };
            &&& nodes.no_duplicates()
            &&& forall|node: NodeId| #[trigger]
                nodes.contains(node) <==> drone.neighbours.contains_key(node) && node != sender
            &&& outputs.len() == 2 * nodes.len()
            &&& forall|k: int|
                #![trigger nodes[k]]
                0 <= k < nodes.len() ==> {
                    &&& outputs[2 * k] == OutputView::Controller(EventView::PacketSent(passed_on))
                    &&& outputs[2 * k + 1] == OutputView::Node(nodes[k], passed_on)
                }
        }),
        post == (DroneView { flood_history: post.flood_history, ..drone }),
        ({
            let request = packet.pack_type->FloodRequest_0;
            let initiator = request.initiator_id;
            let ids = post.flood_history[initiator];
            let n: nat = if drone.flood_history.contains_key(initiator) {
                drone.flood_history[initiator].len()
            } else {
                0
            };
            let gone: int = if n > 0 && n == drone.flood_memory {
                1
            } else {
                0
            };
            &&& post.flood_history.dom() == drone.flood_history.dom().insert(initiator)
            &&& forall|other: NodeId|
                other != initiator && drone.flood_history.contains_key(other)
                    ==> #[trigger] post.flood_history[other] == drone.flood_history[other]
            &&& ids.len() == n - gone + 1
            &&& ids[ids.len() - 1] == request.flood_id
            &&& forall|i: int|
                0 <= i < n - gone ==> #[trigger] ids[i] == drone.flood_history[initiator][i
                    + gone]
        }),
{
    let request = packet.pack_type->FloodRequest_0;
    let passed_on = flood_request_packet(
        packet.routing_header,
        packet.session_id,
        drone.visit(request),
    );
    let nodes = choose|nodes: Seq<NodeId>| #[trigger]
        drone.are_neighbours_but(nodes, request.sender()) && outputs == deliveries(
            nodes,
            passed_on,
        );
    law_deliveries_go_out_in_turn(nodes, passed_on);
    law_entering_a_flood_costs_at_most_the_oldest(
        drone.flood_history,
        drone.flood_memory,
        (request.initiator_id, request.flood_id),
    );
    assert forall|node: NodeId| #[trigger]
        nodes.contains(node) <==> drone.neighbours.contains_key(node) && node
            != request.sender() by {
        assert(nodes.to_set().contains(node) <==> nodes.contains(node));
    }
    nodes
}

/// A command changes what it names and nothing else. A drop rate that is no probability changes
/// nothing.
pub proof fn law_a_command_changes_what_it_names<S>(
    drone: DroneView<S>,
    command: DroneCommand<S>,
)
    ensures
        ({
            let after = drone.commanded(command);
            &&& after.id == drone.id
            &&& after.flood_history == drone.flood_history
            &&& after.flood_memory == drone.flood_memory
            &&& after.draw_log == drone.draw_log
            &&& after.state == if command is Crash {
                State::Crashing
            } else {
                drone.state
            }
            &&& after.drop_rate == match command {
                DroneCommand::SetPacketDropRate(Ok(rate)) => Some(rate),
                _ => drone.drop_rate,
            }
            &&& forall|node: NodeId| #[trigger]
                after.neighbours.contains_key(node) <==> match command {
                    DroneCommand::AddSender(added, _) => node == added
                        || drone.neighbours.contains_key(node),
                    DroneCommand::RemoveSender(removed) => node != removed
                        && drone.neighbours.contains_key(node),
                    _ => drone.neighbours.contains_key(node),
                }
            &&& forall|node: NodeId|
                after.neighbours.contains_key(node) ==> #[trigger] after.neighbours[node]
                    == match command {
                    DroneCommand::AddSender(added, channel) => if node == added {
                        channel
                    } else {
                        drone.neighbours[node]
                    },
                    _ => drone.neighbours[node],
                }
        }),
{
}

/// A running drone obeys every command, without a word; a crashing one ignores it. A closed
/// channel or an empty queue changes nothing, and makes only a crashing drone that finds its queue
/// empty stop.
pub proof fn law_commands_are_for_running_drones<S>(
    drone: DroneView<S>,
    input: Input<S>,
    post: DroneView<S>,
    outputs: Seq<OutputView>,
)
    requires
        drone.steps(input, post, outputs),
        !(input is Packet),
    ensures
        outputs.len() == 0,
        match input {
            Input::Command(command) => post == if drone.state is Running {
                drone.commanded(command)
            } else {
                drone
            },
            _ => post == drone,
        },
{
}

/// A drone stops when it crashes and finds no packet, and at no other time.
pub proof fn law_a_drone_stops_when_it_is_done<S>(drone: DroneView<S>, input: Input<S>)
    ensures
        drone.stops_at(input) <==> drone.state == State::Crashing && input == Input::<S>::Nothing,
{
}

/// What a drone can process: everything but a packet whose index cannot grow, and, while it runs, a
/// request that it has to answer and that has an empty path and names the drone itself as the
/// initiator.
pub proof fn law_a_drone_takes_what_it_can_process<S>(drone: DroneView<S>, input: Input<S>)
    ensures
        drone.accepts_input(input) <==> match input {
            Input::Packet(packet) => match packet.pack_type {
                PacketType::FloodRequest(request) => {
                    ||| drone.state is Crashing
                    ||| request.path_trace@.len() > 0
                    ||| request.initiator_id != drone.id
                    ||| drone.neighbours.dom().len() > 1 && !(drone.flood_history.contains_key(
                        request.initiator_id,
                    ) && drone.flood_history[request.initiator_id].contains(request.flood_id))
                },
                _ => packet.routing_header.hop_index < usize::MAX,
            },
            _ => true,
        },
{
}

/// The packets that a drone can process: any whose index can grow, and any flood request that it
/// passes on, can answer, or ignores because it crashes. A request is answered if the flood is
/// known or there is no more than one neighbour, and can be unless it has an empty path and names
/// the drone itself as the initiator.
pub proof fn law_a_packet_can_be_processed<S>(drone: DroneView<S>, packet: PacketView)
    ensures
        match packet.pack_type {
            PacketTypeView::FloodRequest(request) => {
                let known = drone.flood_history.contains_key(request.initiator_id)
                    && drone.flood_history[request.initiator_id].contains(request.flood_id);
                let answered = known || drone.neighbours.dom().len() <= 1;
                &&& drone.answers(request) <==> answered
                &&& drone.can_answer(request) <==> request.path_trace.len() > 0
                    || request.initiator_id != drone.id
                &&& drone.accepts(packet) <==> !answered || request.path_trace.len() > 0
                    || request.initiator_id != drone.id
                &&& drone.accepts_crashing(packet)
            },
            _ => {
                &&& drone.accepts(packet) <==> packet.routing_header.hop_index < usize::MAX
                &&& drone.accepts_crashing(packet) <==> packet.routing_header.hop_index
                    < usize::MAX
            },
        },
{
}

/// A new drone runs, has the given id, neighbours, drop rate and memory, and has neither seen a
/// flood nor drawn.
pub proof fn law_a_new_drone_is_as_it_was_asked_for<S>(
    id: NodeId,
    neighbours: Map<NodeId, S>,
    pdr: Result<Bernoulli, BernoulliError>,
    flood_memory: nat,
)
    ensures
        ({
            let drone = initial(id, neighbours, pdr, flood_memory);
            &&& drone.id == id
            &&& drone.state == State::Running
            &&& drone.drop_rate is Some <==> pdr is Ok
            &&& drone.drop_rate is Some ==> drone.drop_rate->0 == pdr->Ok_0
            &&& drone.neighbours == neighbours
            &&& drone.flood_history.dom() == Set::<NodeId>::empty()
            &&& drone.flood_memory == flood_memory
            &&& drone.draw_log.len() == 0
        }),
{
}

} // verus!
