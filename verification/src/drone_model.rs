//! What a drone is and does, over mathematical values.

use crate::controller::{deliveries, delivery, DroneCommand, EventView, Input, OutputView};
use crate::drop_rate::draw_yields;
use crate::flood_history::{history_insert, remembers};
use crate::network::{NodeId, RouteView};
use crate::packet::{
    flood_request_packet, FloodRequestView, Nack, NackType, NodeType, PacketTypeView, PacketView,
};
use rand::distributions::{Bernoulli, BernoulliError};
use vstd::prelude::*;

verus! {

/// Whether a drone still takes commands, or only works off its queue.
#[derive(Debug, Clone, Copy, PartialEq, Eq, Structural)]
pub enum State {
    Running,
    Crashing,
}

/// A drone as a mathematical value. `S` is the channel to a neighbour.
#[verifier::ext_equal]
#[verifier::reject_recursive_types(S)]
pub struct DroneView<S> {
    pub id: NodeId,
    pub state: State,
    /// The chance by which fragments are lost; without one, none are.
    pub drop_rate: Option<Bernoulli>,
    /// The channels to the neighbours.
    pub neighbours: Map<NodeId, S>,
    /// The floods that the drone has passed on, by initiator, the oldest first.
    pub flood_history: Map<NodeId, Seq<u64>>,
    /// How many floods are remembered of each initiator.
    pub flood_memory: nat,
    /// The draws that decided on fragments so far, each with its rate and its outcome.
    pub draw_log: Seq<(Bernoulli, bool)>,
}

/// A drone as it starts. Without a valid probability no fragment is ever lost.
pub open spec fn initial<S>(
    id: NodeId,
    neighbours: Map<NodeId, S>,
    pdr: Result<Bernoulli, BernoulliError>,
    flood_memory: nat,
) -> DroneView<S> {
    DroneView {
        id,
        state: State::Running,
        drop_rate: match pdr {
            Ok(rate) => Some(rate),
            Err(_) => None,
        },
        neighbours,
        flood_history: Map::empty(),
        flood_memory,
        draw_log: Seq::empty(),
    }
}

/// The negative acknowledgement of a fragment that has gone along `route`.
pub open spec fn nack_packet(
    route: RouteView,
    session_id: u64,
    fragment_index: u64,
    nack_type: NackType,
) -> PacketView {
    PacketView {
        routing_header: route.turned_back(),
        session_id,
        pack_type: PacketTypeView::Nack(Nack { fragment_index, nack_type }),
    }
}

impl<S> DroneView<S> {
    /// What is sent to a neighbour: nothing, where the node is none.
    pub open spec fn delivery_if_neighbour(self, node: NodeId, packet: PacketView) -> Seq<
        OutputView,
    > {
        if self.neighbours.contains_key(node) {
            delivery(node, packet)
        } else {
            Seq::empty()
        }
    }

    /// What is sent because `packet`, whose route was advanced already, cannot go on.
    ///
    /// The sender of a fragment gets a negative acknowledgement along the reversed route. A
    /// packet that answers another goes to the controller as it was received. Nothing happens
    /// where the route does not reach as far as the packet claims to be, where it has no second
    /// node to go back to, or where that node is no neighbour.
    pub open spec fn refusal(self, packet: PacketView, nack_type: NackType) -> Seq<OutputView> {
        let route = packet.routing_header;
        if !route.can_turn_back() {
            Seq::empty()
        } else if packet.pack_type is MsgFragment {
            if route.hop_index < 2 {
                Seq::empty()
            } else {
                self.delivery_if_neighbour(
                    route.hops[route.hop_index - 2],
                    nack_packet(
                        route,
                        packet.session_id,
                        packet.pack_type->MsgFragment_0.fragment_index,
                        nack_type,
                    ),
                )
            }
        } else {
            seq![OutputView::Controller(EventView::ControllerShortcut(packet.retreated()))]
        }
    }

    /// What is sent for `packet`, whose route was advanced already, on its way to `node`. Only a
    /// fragment can be lost.
    pub open spec fn transmission(self, packet: PacketView, node: NodeId, lost: bool) -> Seq<
        OutputView,
    > {
        if packet.is_fragment() && lost {
            seq![OutputView::Controller(EventView::PacketDropped(packet))] + self.refusal(
                packet,
                NackType::Dropped,
            )
        } else {
            delivery(node, packet)
        }
    }

    /// What is sent for a received packet that is no flood request.
    pub open spec fn forwarding(self, packet: PacketView, lost: bool) -> Seq<OutputView> {
        let next = packet.advanced();
        if packet.routing_header.current_hop() != Some(self.id) {
            self.refusal(next, NackType::UnexpectedRecipient(self.id))
        } else {
            match next.routing_header.current_hop() {
                None => self.refusal(next, NackType::DestinationIsDrone),
                Some(node) => if self.neighbours.contains_key(node) {
                    self.transmission(next, node, lost)
                } else {
                    self.refusal(next, NackType::ErrorInRouting(node))
                },
            }
        }
    }

    /// Whether a flood request is answered rather than passed on: the flood is known already, or
    /// there is nobody to pass it on to.
    pub open spec fn answers(self, request: FloodRequestView) -> bool {
        remembers(self.flood_history, (request.initiator_id, request.flood_id))
            || self.neighbours.dom().len() <= 1
    }

    /// The request with the drone on its path.
    pub open spec fn visit(self, request: FloodRequestView) -> FloodRequestView {
        request.incremented(self.id, NodeType::Drone)
    }

    /// The response to a request that the drone is on the path of already, on its way to the
    /// first node after the drone.
    pub open spec fn flood_answer(self, visited: FloodRequestView, session_id: u64) -> Seq<
        OutputView,
    > {
        self.delivery_if_neighbour(
            visited.response_hops()[1],
            visited.response(session_id).advanced(),
        )
    }

    /// The drone after it has entered a flood into its history.
    pub open spec fn with_flood(self, request: FloodRequestView) -> DroneView<S> {
        DroneView {
            flood_history: history_insert(
                self.flood_history,
                self.flood_memory,
                (request.initiator_id, request.flood_id),
            ),
            ..self
        }
    }

    /// Whether `nodes` are all the neighbours but `sender`, each once, in some order.
    pub open spec fn are_neighbours_but(self, nodes: Seq<NodeId>, sender: NodeId) -> bool {
        &&& nodes.no_duplicates()
        &&& nodes.to_set() == self.neighbours.dom().remove(sender)
    }

    /// Whether a flood request leaves the drone as `post` and makes it send `outputs`. The order
    /// in which the neighbours get the request is open.
    pub open spec fn floods(
        self,
        route: RouteView,
        session_id: u64,
        request: FloodRequestView,
        post: DroneView<S>,
        outputs: Seq<OutputView>,
    ) -> bool {
        if self.answers(request) {
            &&& post == self
            &&& outputs == self.flood_answer(self.visit(request), session_id)
        } else {
            &&& post == self.with_flood(request)
            &&& exists|nodes: Seq<NodeId>| #[trigger]
                self.are_neighbours_but(nodes, request.sender()) && outputs == deliveries(
                    nodes,
                    flood_request_packet(route, session_id, self.visit(request)),
                )
        }
    }

    /// Whether a received packet leaves the drone as `post` and makes it send `outputs`, if
    /// `lost` was drawn.
    pub open spec fn handles(
        self,
        packet: PacketView,
        lost: bool,
        post: DroneView<S>,
        outputs: Seq<OutputView>,
    ) -> bool {
        match packet.pack_type {
            PacketTypeView::FloodRequest(request) => self.floods(
                packet.routing_header,
                packet.session_id,
                request,
                post,
                outputs,
            ),
            _ => post == self.after_draw(packet, lost) && outputs == self.forwarding(packet, lost),
        }
    }

    /// Whether chance decides what becomes of a received packet: it is a fragment that the drone
    /// would otherwise send to a neighbour.
    pub open spec fn draws(self, packet: PacketView) -> bool {
        let next = packet.advanced().routing_header.current_hop();
        &&& packet.is_fragment()
        &&& packet.routing_header.current_hop() == Some(self.id)
        &&& next is Some
        &&& self.neighbours.contains_key(next->0)
    }

    /// Whether a draw with the drone's own drop rate can say `lost`. Without a rate there is
    /// nothing to draw, and nothing is lost.
    pub open spec fn drawn(self, lost: bool) -> bool {
        match self.drop_rate {
            Some(rate) => draw_yields(rate, lost),
            None => !lost,
        }
    }

    /// Whether a record of draws grows from `before` to `after` by deciding `lost`: by one draw
    /// with the drone's own drop rate, whose outcome is `lost`, or not at all without a rate.
    pub open spec fn records(
        self,
        before: Seq<(Bernoulli, bool)>,
        after: Seq<(Bernoulli, bool)>,
        lost: bool,
    ) -> bool {
        match self.drop_rate {
            Some(rate) => after == before.push((rate, lost)),
            None => after == before && !lost,
        }
    }

    /// The drone after it has decided on a received packet: a draw is recorded where one was
    /// made.
    pub open spec fn after_draw(self, packet: PacketView, lost: bool) -> DroneView<S> {
        if self.draws(packet) && self.drop_rate is Some {
            DroneView { draw_log: self.draw_log.push((self.drop_rate->0, lost)), ..self }
        } else {
            self
        }
    }

    /// Whether `lost` is what was drawn for a received packet, if anything was.
    pub open spec fn chance_allows(self, packet: PacketView, lost: bool) -> bool {
        self.draws(packet) ==> self.drawn(lost)
    }

    /// The requests that can be answered: one that claims to come from this very drone, with an
    /// empty path, has nobody to send the response to.
    pub open spec fn can_answer(self, request: FloodRequestView) -> bool {
        request.path_trace.len() > 0 || request.initiator_id != self.id
    }

    /// The packets that the drone can process.
    pub open spec fn accepts(self, packet: PacketView) -> bool {
        match packet.pack_type {
            PacketTypeView::FloodRequest(request) => self.answers(request) ==> self.can_answer(
                request,
            ),
            _ => packet.routing_header.hop_index < usize::MAX,
        }
    }

    /// The packets that the drone can process while it is crashing.
    pub open spec fn accepts_crashing(self, packet: PacketView) -> bool {
        packet.is_flood_request() || packet.routing_header.hop_index < usize::MAX
    }

    /// What is sent for a packet that is received while the drone is crashing. Replies are
    /// passed on, flood requests are ignored, and fragments are refused.
    pub open spec fn last_words(self, packet: PacketView) -> Seq<OutputView> {
        if packet.is_flood_request() {
            Seq::empty()
        } else if packet.is_fragment() {
            self.refusal(packet.advanced(), NackType::ErrorInRouting(self.id))
        } else {
            self.forwarding(packet, false)
        }
    }

    /// The drone after a command. A drop rate that is no probability changes nothing.
    pub open spec fn commanded(self, command: DroneCommand<S>) -> DroneView<S> {
        match command {
            DroneCommand::AddSender(node, channel) => DroneView {
                neighbours: self.neighbours.insert(node, channel),
                ..self
            },
            DroneCommand::RemoveSender(node) => DroneView {
                neighbours: self.neighbours.remove(node),
                ..self
            },
            DroneCommand::SetPacketDropRate(Ok(rate)) => DroneView {
                drop_rate: Some(rate),
                ..self
            },
            DroneCommand::SetPacketDropRate(Err(_)) => self,
            DroneCommand::Crash => DroneView { state: State::Crashing, ..self },
        }
    }

    /// The inputs that the drone can process.
    pub open spec fn accepts_input(self, input: Input<S>) -> bool {
        match input {
            Input::Packet(packet) => if self.state is Running {
                self.accepts(packet@)
            } else {
                self.accepts_crashing(packet@)
            },
            _ => true,
        }
    }

    /// Whether an input leaves the drone as `post` and makes it send `outputs`. A running drone
    /// obeys commands and handles packets, a crashing one only works off packets.
    pub open spec fn steps(
        self,
        input: Input<S>,
        post: DroneView<S>,
        outputs: Seq<OutputView>,
    ) -> bool {
        match (self.state, input) {
            (State::Running, Input::Command(command)) => {
                &&& post == self.commanded(command)
                &&& outputs == Seq::<OutputView>::empty()
            },
            (State::Running, Input::Packet(packet)) => exists|lost: bool| #[trigger]
                self.chance_allows(packet@, lost) && self.handles(packet@, lost, post, outputs),
            (State::Crashing, Input::Packet(packet)) => {
                &&& post == self
                &&& outputs == self.last_words(packet@)
            },
            _ => {
                &&& post == self
                &&& outputs == Seq::<OutputView>::empty()
            },
        }
    }

    /// Whether the drone stops at an input: it is crashing, and no packet is left.
    pub open spec fn stops_at(self, input: Input<S>) -> bool {
        self.state is Crashing && input is Nothing
    }
}

} // verus!
