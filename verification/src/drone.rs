//! The drone itself: it takes packets and commands, and hands out what is to be sent.

use crate::controller::{
    deliver, deliveries, delivery, views, DroneCommand, DroneEvent, Input, Output, OutputView,
};
use crate::draw_log::DrawLog;
use crate::drone_model::{initial, DroneView, State};
use crate::drop_rate;
use crate::flood_history::{law_a_history_keeps_to_its_size, remembered, FloodHistory};
use crate::network::{NodeId, SourceRoutingHeader};
use crate::packet::{
    flood_request_packet, law_response_goes_back_to_the_sender, FloodRequest, Nack, NackType,
    NodeType, Packet, PacketType,
};
use rand::distributions::{Bernoulli, BernoulliError};
use std::collections::HashMap;
use vstd::prelude::*;

verus! {

broadcast use vstd::std_specs::hash::group_hash_axioms;

/// How many floods are remembered of each initiator by default.
pub const RING_BUFF_SZ: usize = 64;

/// The size of a buffer that never gets full.
pub const UNLIMITED_BUFF_SZ: usize = usize::MAX;

impl State {
    #[inline]
    pub fn is_running(&self) -> (running: bool)
        ensures
            running == (*self is Running),
    {
        match self {
            State::Running => true,
            State::Crashing => false,
        }
    }

    #[inline]
    pub fn is_crashing(&self) -> (crashing: bool)
        ensures
            crashing == (*self is Crashing),
    {
        !self.is_running()
    }
}

/// A drone. `S` is the channel to a neighbour.
#[derive(Debug)]
#[verifier::reject_recursive_types(S)]
pub struct MyDrone<S> {
    id: NodeId,
    state: State,
    drop_rate: Option<Bernoulli>,
    packet_send: HashMap<NodeId, S>,
    flood_history: FloodHistory,
    draw_log: DrawLog,
}

impl<S> View for MyDrone<S> {
    type V = DroneView<S>;

    closed spec fn view(&self) -> DroneView<S> {
        DroneView {
            id: self.id,
            state: self.state,
            drop_rate: self.drop_rate,
            neighbours: self.packet_send@,
            flood_history: self.flood_history@,
            flood_memory: self.flood_history.size(),
            draw_log: self.draw_log@,
        }
    }
}

impl<S> MyDrone<S> {
    /// The flood history keeps to its size.
    pub closed spec fn wf(&self) -> bool {
        self.flood_history.wf()
    }

    /// A running drone that remembers the last 64 floods of every initiator. A drop rate that is
    /// no probability counts as zero: no fragment is lost.
    pub fn new(
        id: NodeId,
        packet_send: HashMap<NodeId, S>,
        pdr: Result<Bernoulli, BernoulliError>,
    ) -> (drone: Self)
        ensures
            drone.wf(),
            drone@ == initial(id, packet_send@, pdr, 64),
    {
        Self::with_flood_memory(id, packet_send, pdr, RING_BUFF_SZ)
    }

    /// A running drone that remembers the last `size` floods of every initiator, or with
    /// [`UNLIMITED_BUFF_SZ`] every flood.
    pub fn with_flood_memory(
        id: NodeId,
        packet_send: HashMap<NodeId, S>,
        pdr: Result<Bernoulli, BernoulliError>,
        size: usize,
    ) -> (drone: Self)
        ensures
            drone.wf(),
            drone@ == initial(id, packet_send@, pdr, size as nat),
    {
        MyDrone {
            id,
            state: State::Running,
            drop_rate: match pdr {
                Ok(rate) => Some(rate),
                Err(_) => None,
            },
            packet_send,
            flood_history: FloodHistory::with_capacity(size),
            draw_log: DrawLog::new(),
        }
    }

    /// The channel to a neighbour.
    pub fn channel(&self, node: NodeId) -> (channel: Option<&S>)
        ensures
            channel is Some <==> self@.neighbours.contains_key(node),
            channel is Some ==> *channel->0 == self@.neighbours[node],
    {
        self.packet_send.get(&node)
    }

    #[inline]
    pub fn is_running(&self) -> (running: bool)
        ensures
            running == (self@.state is Running),
    {
        self.state.is_running()
    }

    #[inline]
    pub fn is_crashing(&self) -> (crashing: bool)
        ensures
            crashing == (self@.state is Crashing),
    {
        self.state.is_crashing()
    }

    /// Sends back that `packet`, whose route was advanced already, cannot go on.
    pub fn send_nack(&self, packet: Packet, nack_type: NackType) -> (outputs: Vec<Output>)
        requires
            packet@.is_flood_request() ==> !packet@.routing_header.can_turn_back(),
            packet@.is_reply() ==> packet@.routing_header.hop_index > 0,
        ensures
            views(outputs@) == self@.refusal(packet@, nack_type),
    {
        let mut packet: Packet = packet;
        let ghost refused = packet@;
        let ghost route = refused.routing_header;
        let mut outputs: Vec<Output> = Vec::new();
        if let Some(source_header) = packet.routing_header.turn_back() {
            match packet.pack_type {
                PacketType::MsgFragment(f) => {
                    if source_header.hops.len() >= 2 {
                        let node: NodeId = source_header.hops[1];
                        assert(node == route.hops[route.hop_index - 2]);
                        if self.packet_send.contains_key(&node) {
                            let nack: Packet = Packet::new_nack(
                                source_header,
                                packet.session_id,
                                Nack { fragment_index: f.fragment_index, nack_type },
                            );
                            deliver(&mut outputs, node, nack);
                        }
                    }
                },
                _ => {
                    packet.routing_header.decrease_hop_index();
                    outputs.push(Output::Controller(DroneEvent::ControllerShortcut(packet)));
                },
            }
        }
        assert(views(outputs@) == self@.refusal(refused, nack_type));
        outputs
    }

    /// Sends `packet`, whose route was advanced already, to the neighbour `node`, or loses it
    /// where it is a fragment and `lost` says so.
    pub fn transmit(&self, packet: Packet, node: NodeId, lost: bool) -> (outputs: Vec<Output>)
        ensures
            views(outputs@) == self@.transmission(packet@, node, lost),
    {
        let mut outputs: Vec<Output> = Vec::new();
        let fragment: bool = matches!(packet.pack_type, PacketType::MsgFragment(_));
        if fragment && lost {
            let ghost dropped = packet@;
            outputs.push(Output::Controller(DroneEvent::PacketDropped(packet.clone())));
            let mut refusal: Vec<Output> = self.send_nack(packet, NackType::Dropped);
            outputs.append(&mut refusal);
            assert(views(outputs@) == self@.transmission(dropped, node, lost));
        } else {
            deliver(&mut outputs, node, packet);
            assert(views(outputs@) == delivery(node, packet@));
        }
        outputs
    }

    /// Sends `packet`, whose route was advanced already, to the neighbour `node`; a single draw
    /// with the drop rate, which is recorded, decides whether a fragment is lost.
    pub fn send_recorded(&self, packet: Packet, node: NodeId, log: &mut DrawLog) -> (outputs: Vec<
        Output,
    >)
        ensures
            packet@.is_fragment() ==> exists|lost: bool| #[trigger]
                self@.records(old(log)@, final(log)@, lost) && self@.drawn(lost) && views(outputs@)
                    == self@.transmission(packet@, node, lost),
            !packet@.is_fragment() ==> final(log)@ == old(log)@ && views(outputs@) == delivery(
                node,
                packet@,
            ),
    {
        let fragment: bool = matches!(packet.pack_type, PacketType::MsgFragment(_));
        if !fragment {
            return self.transmit(packet, node, false);
        }
        let lost: bool = match &self.drop_rate {
            Some(rate) => drop_rate::draw(rate, log),
            None => false,
        };
        assert(self@.records(old(log)@, log@, lost));
        self.transmit(packet, node, lost)
    }

    /// Sends `packet`, whose route was advanced already, to the neighbour `node`; a draw with the
    /// drop rate decides whether a fragment is lost. The record of the draw is not kept.
    pub fn send_packet(&self, packet: Packet, node: NodeId) -> (outputs: Vec<Output>)
        ensures
            packet@.is_fragment() ==> exists|lost: bool| #[trigger]
                self@.drawn(lost) && views(outputs@) == self@.transmission(packet@, node, lost),
            !packet@.is_fragment() ==> views(outputs@) == delivery(node, packet@),
            exists|log: &mut DrawLog|
                (*log)@.len() == 0 && #[trigger] call_ensures(
                    Self::send_recorded,
                    (self, packet, node, log),
                    outputs,
                ),
    {
        let mut log: DrawLog = DrawLog::new();
        let ghost sent = packet;
        let outputs: Vec<Output> = self.send_recorded(packet, node, &mut log);
        assert(exists|log: &mut DrawLog|
            (*log)@.len() == 0 && #[trigger] call_ensures(
                Self::send_recorded,
                (self, sent, node, log),
                outputs,
            ));
        outputs
    }

    /// Processes a flood request: answers it, or passes it on to all neighbours but the one that
    /// it came from.
    pub fn handle_flood_request(
        &mut self,
        routing_header: SourceRoutingHeader,
        session_id: u64,
        request: FloodRequest,
    ) -> (outputs: Vec<Output>)
        requires
            old(self).wf(),
            old(self)@.answers(request@) ==> old(self)@.can_answer(request@),
        ensures
            final(self).wf(),
            old(self)@.floods(
                routing_header@,
                session_id,
                request@,
                final(self)@,
                views(outputs@),
            ),
    {
        let mut request: FloodRequest = request;
        let ghost received = request@;
        let sender_id: NodeId = request.sender();
        let flood: (NodeId, u64) = (request.initiator_id, request.flood_id);
        request.increment(self.id, NodeType::Drone);
        let mut outputs: Vec<Output> = Vec::new();
        if self.flood_history.contains(flood) || self.packet_send.len() <= 1 {
            let mut response: Packet = request.generate_response(session_id);
            response.routing_header.increase_hop_index();
            proof {
                law_response_goes_back_to_the_sender(received, self.id, NodeType::Drone);
            }
            let next_hop: NodeId = response.routing_header.hops[1];
            if self.packet_send.contains_key(&next_hop) {
                deliver(&mut outputs, next_hop, response);
            }
            assert(views(outputs@) == self@.flood_answer(self@.visit(received), session_id));
            return outputs;
        }
        self.flood_history.insert(flood);
        let ghost packet = flood_request_packet(routing_header@, session_id, request@);
        let ghost mut nodes: Seq<NodeId> = Seq::empty();
        assert(views(outputs@) == deliveries(nodes, packet));
        let ghost dom = self.packet_send@.dom();
        for id in it: self.packet_send.keys()
            invariant
                packet == flood_request_packet(routing_header@, session_id, request@),
                views(outputs@) == deliveries(nodes, packet),
                are_all_but(nodes, it.seq().unref().take(it.index()), sender_id),
                it.index() == it.seq().len() ==> forall|n: NodeId| #[trigger]
                    nodes.contains(n) <==> n != sender_id && dom.contains(n),
                it.seq().unref().no_duplicates(),
                it.seq().unref().to_set() == dom,
        {
            proof {
                let all = it.seq().unref();
                lemma_one_more(nodes, all, it.index(), sender_id);
                assert(all.take(all.len() as int) == all);
                assert(forall|n: NodeId| all.to_set().contains(n) <==> #[trigger] all.contains(n));
            }
            if *id != sender_id {
                let copy: Packet = Packet::new_flood_request(
                    routing_header.clone(),
                    session_id,
                    request.clone(),
                );
                deliver(&mut outputs, *id, copy);
                proof {
                    assert(nodes.push(*id).drop_last() == nodes);
                    nodes = nodes.push(*id);
                }
            }
        }
        proof {
            assert forall|n: NodeId| nodes.to_set().contains(n) <==> dom.remove(
                sender_id,
            ).contains(n) by {
                assert(nodes.contains(n) <==> n != sender_id && dom.contains(n));
            }
            assert(nodes.to_set() == dom.remove(sender_id));
            assert(self@ == old(self)@.with_flood(received));
            assert(old(self)@.are_neighbours_but(nodes, received.sender()));
        }
        outputs
    }

    /// Sends a received packet that is no flood request to the next node of its route, or
    /// refuses it.
    pub fn forward(&mut self, packet: Packet) -> (outputs: Vec<Output>)
        requires
            !packet@.is_flood_request(),
            old(self)@.accepts(packet@),
        ensures
            old(self).wf() ==> final(self).wf(),
            exists|lost: bool| #[trigger]
                old(self)@.chance_allows(packet@, lost) && views(outputs@) == old(
                    self,
                )@.forwarding(packet@, lost) && final(self)@ == old(self)@.after_draw(
                    packet@,
                    lost,
                ),
    {
        let mut packet: Packet = packet;
        let ghost received = packet@;
        packet.routing_header.increase_hop_index();
        assert(packet@ == received.advanced());
        assert(!self@.draws(received) ==> self@.chance_allows(received, false));
        let expected: bool = match packet.routing_header.previous_hop() {
            Some(hop) => hop == self.id,
            None => false,
        };
        if !expected {
            return self.send_nack(packet, NackType::UnexpectedRecipient(self.id));
        }
        match packet.routing_header.current_hop() {
            Some(next_hop) => if self.packet_send.contains_key(&next_hop) {
                let mut log: DrawLog = DrawLog::new();
                std::mem::swap(&mut log, &mut self.draw_log);
                let ghost without_log = self@;
                let outputs: Vec<Output> = self.send_recorded(packet, next_hop, &mut log);
                let ghost recorded = log@;
                self.draw_log = log;
                proof {
                    let drone = old(self)@;
                    let next = received.advanced();
                    assert forall|lost: bool|
                        without_log.transmission(next, next_hop, lost) == drone.transmission(
                            next,
                            next_hop,
                            lost,
                        ) by {}
                    if received.is_fragment() {
                        let lost = choose|lost: bool| #[trigger]
                            without_log.records(drone.draw_log, recorded, lost)
                                && without_log.drawn(lost) && views(outputs@)
                                == without_log.transmission(next, next_hop, lost);
                        assert(drone.records(drone.draw_log, recorded, lost));
                        assert(drone.chance_allows(received, lost));
                    }
                }
                outputs
            } else {
                self.send_nack(packet, NackType::ErrorInRouting(next_hop))
            },
            None => self.send_nack(packet, NackType::DestinationIsDrone),
        }
    }

    /// Processes a packet.
    pub fn handle_packet(&mut self, packet: Packet) -> (outputs: Vec<Output>)
        requires
            old(self).wf(),
            old(self)@.accepts(packet@),
        ensures
            final(self).wf(),
            exists|lost: bool| #[trigger]
                old(self)@.chance_allows(packet@, lost) && old(self)@.handles(
                    packet@,
                    lost,
                    final(self)@,
                    views(outputs@),
                ),
    {
        assert(packet@.is_flood_request() ==> self@.chance_allows(packet@, false));
        let Packet { routing_header, session_id, pack_type } = packet;
        match pack_type {
            PacketType::FloodRequest(request) => self.handle_flood_request(
                routing_header,
                session_id,
                request,
            ),
            pack_type => self.forward(Packet { routing_header, session_id, pack_type }),
        }
    }

    /// Obeys a command.
    pub fn handle_command(&mut self, command: DroneCommand<S>)
        requires
            old(self).wf(),
        ensures
            final(self).wf(),
            final(self)@ == old(self)@.commanded(command),
    {
        match command {
            DroneCommand::AddSender(node, channel) => {
                self.packet_send.insert(node, channel);
            },
            DroneCommand::SetPacketDropRate(pdr) => {
                if let Ok(rate) = pdr {
                    self.drop_rate = Some(rate);
                }
            },
            DroneCommand::Crash => {
                self.state = State::Crashing;
            },
            DroneCommand::RemoveSender(node) => {
                self.packet_send.remove(&node);
            },
        }
    }

    /// Processes a packet that is still queued while the drone is crashing.
    pub fn handle_crash(&mut self, packet: Packet) -> (outputs: Vec<Output>)
        requires
            old(self).wf(),
            old(self)@.accepts_crashing(packet@),
        ensures
            final(self).wf(),
            final(self)@ == old(self)@,
            views(outputs@) == old(self)@.last_words(packet@),
    {
        let mut packet: Packet = packet;
        let ghost received = packet@;
        match packet.pack_type {
            PacketType::Nack(_) | PacketType::Ack(_) | PacketType::FloodResponse(_) =>
            self.handle_packet(packet),
            PacketType::FloodRequest(_) => {
                let outputs: Vec<Output> = Vec::new();
                assert(views(outputs@) == self@.last_words(received));
                outputs
            },
            PacketType::MsgFragment(_) => {
                packet.routing_header.increase_hop_index();
                assert(packet@ == received.advanced());
                self.send_nack(packet, NackType::ErrorInRouting(self.id))
            },
        }
    }

    /// Whether the drone can process an input in its present state.
    pub fn accepts_input(&self, input: &Input<S>) -> (accepted: bool)
        ensures
            accepted == self@.accepts_input(*input),
    {
        match input {
            Input::Packet(packet) => match &packet.pack_type {
                PacketType::FloodRequest(request) => {
                    let flood: (NodeId, u64) = (request.initiator_id, request.flood_id);
                    self.is_crashing() || request.path_trace.len() > 0 || request.initiator_id
                        != self.id || !(self.flood_history.contains(flood)
                        || self.packet_send.len() <= 1)
                },
                _ => packet.routing_header.hop_index < usize::MAX,
            },
            _ => true,
        }
    }

    /// One turn of the drone: takes what was found on the channels, and says what to send and
    /// whether to stop.
    pub fn run_step(&mut self, input: Input<S>) -> (result: (Vec<Output>, bool))
        requires
            old(self).wf(),
            old(self)@.accepts_input(input),
        ensures
            final(self).wf(),
            old(self)@.steps(input, final(self)@, views(result.0@)),
            result.1 == old(self)@.stops_at(input),
    {
        let nothing: Vec<Output> = Vec::new();
        assert(views(nothing@) == Seq::<OutputView>::empty());
        if self.is_running() {
            match input {
                Input::Command(command) => {
                    self.handle_command(command);
                    (nothing, false)
                },
                Input::Packet(packet) => (self.handle_packet(packet), false),
                Input::Closed | Input::Nothing => (nothing, false),
            }
        } else {
            match input {
                Input::Packet(packet) => (self.handle_crash(packet), false),
                Input::Nothing => (nothing, true),
                Input::Command(_) | Input::Closed => (nothing, false),
            }
        }
    }
}

/// A well-formed drone remembers of no initiator more floods than its memory is meant for.
pub proof fn law_a_drone_keeps_to_its_memory<S>(drone: MyDrone<S>, initiator: NodeId)
    requires
        drone.wf(),
        drone@.flood_memory > 0,
    ensures
        remembered(drone@.flood_history, initiator).len() <= drone@.flood_memory,
{
    law_a_history_keeps_to_its_size(drone.flood_history, initiator);
}

/// Whether `nodes` are the elements of `all` but `sender`, each once.
spec fn are_all_but(nodes: Seq<NodeId>, all: Seq<NodeId>, sender: NodeId) -> bool {
    &&& nodes.no_duplicates()
    &&& forall|n: NodeId| #[trigger] nodes.contains(n) <==> n != sender && all.contains(n)
}

proof fn lemma_one_more(nodes: Seq<NodeId>, all: Seq<NodeId>, i: int, sender: NodeId)
    requires
        0 <= i < all.len(),
        all.no_duplicates(),
        are_all_but(nodes, all.take(i), sender),
    ensures
        all[i] == sender ==> are_all_but(nodes, all.take(i + 1), sender),
        all[i] != sender ==> are_all_but(nodes.push(all[i]), all.take(i + 1), sender),
{
    let before = all.take(i);
    assert(all.take(i + 1) == before.push(all[i]));
    assert(!before.contains(all[i]));
    assert forall|n: NodeId| before.push(all[i]).contains(n) <==> before.contains(n) || n
        == all[i] by {
        assert(before.push(all[i])[i] == all[i]);
        if before.contains(n) {
            let k = before.index_of(n);
            assert(before.push(all[i])[k] == n);
        }
    }
    let more = nodes.push(all[i]);
    assert(!nodes.contains(all[i]));
    assert(more.no_duplicates()) by {
        assert forall|a: int, b: int| 0 <= a < b < more.len() implies more[a] != more[b] by {
            if b == nodes.len() {
                assert(nodes.contains(nodes[a]));
            }
        }
    }
    assert forall|n: NodeId| more.contains(n) <==> nodes.contains(n) || n == all[i] by {
        assert(more[nodes.len() as int] == all[i]);
        if nodes.contains(n) {
            let k = nodes.index_of(n);
            assert(more[k] == n);
        }
    }
}

} // verus!
