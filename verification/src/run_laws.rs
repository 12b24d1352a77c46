//! What holds of a drone over any number of inputs.

use crate::controller::{DroneCommand, Input, OutputView};
use crate::drone::UNLIMITED_BUFF_SZ;
use crate::drone_laws::{law_steps_keep_the_history_tidy, tidy_history};
use crate::drone_model::{initial, DroneView};
use crate::flood_history::{
    history_insert_all, ids_of, law_history_keeps_the_last_of_each_initiator,
    law_history_with_room_forgets_nothing, remembered, remembers,
};
use crate::network::NodeId;
use crate::packet::{FloodRequestView, PacketTypeView, PacketView};
use crate::ring_buffer::last_n;
use crate::step_laws::{
    law_a_fragment_is_sent_on_lost_or_refused, law_a_known_flood_is_answered,
    law_a_new_flood_is_passed_on, law_a_reply_is_sent_on_or_handed_over,
    law_a_running_drone_handles_its_packets,
};
use rand::distributions::{Bernoulli, BernoulliError};
use vstd::prelude::*;

verus! {

/// Inputs to a drone, with the states before and after each of them, and what was sent for it.
#[verifier::reject_recursive_types(S)]
pub struct Run<S> {
    pub states: Seq<DroneView<S>>,
    pub inputs: Seq<Input<S>>,
    pub outputs: Seq<Seq<OutputView>>,
}

impl<S> Run<S> {
    /// Whether each state follows from the one before, by an input that the drone can process.
    pub open spec fn valid(self) -> bool {
        &&& self.states.len() == self.inputs.len() + 1
        &&& self.outputs.len() == self.inputs.len()
        &&& forall|i: int|
            #![trigger self.inputs[i]]
            0 <= i < self.inputs.len() ==> {
                &&& self.states[i].accepts_input(self.inputs[i])
                &&& self.states[i].steps(self.inputs[i], self.states[i + 1], self.outputs[i])
            }
    }

    /// Whether the drone stops at an input of the run.
    pub open spec fn stops(self, i: int) -> bool {
        self.states[i].stops_at(self.inputs[i])
    }

    /// Whether an input of the run is the command to crash.
    pub open spec fn is_crash(self, i: int) -> bool {
        self.inputs[i] == Input::<S>::Command(DroneCommand::Crash)
    }

    /// Whether the inputs from `from` on are the packets of `queue` in their order, and then the
    /// finding that no packet is left.
    pub open spec fn drains(self, from: int, queue: Seq<PacketView>) -> bool {
        &&& 0 <= from
        &&& from + queue.len() < self.inputs.len()
        &&& forall|k: int|
            #![trigger queue[k]]
            0 <= k < queue.len() ==> self.inputs[from + k] is Packet
                && self.inputs[from + k]->Packet_0@ == queue[k]
        &&& self.inputs[from + queue.len()] is Nothing
    }

    /// The flood request that is passed on for an input, if one is.
    pub open spec fn request_passed_on(self, i: int) -> Option<FloodRequestView> {
        match self.inputs[i] {
            Input::Packet(packet) => match packet@.pack_type {
                PacketTypeView::FloodRequest(request) => if self.states[i].state is Running
                    && !self.states[i].answers(request) {
                    Some(request)
                } else {
                    None
                },
                _ => None,
            },
            _ => None,
        }
    }

    /// The floods that are passed on for the first `n` inputs, in their order.
    pub open spec fn passed_on(self, n: nat) -> Seq<(NodeId, u64)>
        decreases n,
    {
        if n == 0 {
            Seq::empty()
        } else {
            let earlier = self.passed_on((n - 1) as nat);
            match self.request_passed_on(n - 1) {
                Some(request) => earlier.push((request.initiator_id, request.flood_id)),
                None => earlier,
            }
        }
    }
}

/// At every moment, a drone remembers of each initiator the last `flood_memory` floods that it
/// has passed on, and answers exactly the requests of those, as long as it has more than one
/// neighbour. (A request with an empty path that names the drone itself as the initiator cannot
/// be answered.)
pub proof fn law_the_last_floods_of_each_initiator_are_remembered<S>(
    run: Run<S>,
    id: NodeId,
    neighbours: Map<NodeId, S>,
    pdr: Result<Bernoulli, BernoulliError>,
    flood_memory: nat,
    n: nat,
    request: FloodRequestView,
)
    requires
        run.valid(),
        run.states[0] == initial(id, neighbours, pdr, flood_memory),
        flood_memory > 0,
        n <= run.inputs.len(),
    ensures
        ({
            let drone = run.states[n as int];
            let last = last_n(ids_of(run.passed_on(n), request.initiator_id), flood_memory);
            &&& remembered(drone.flood_history, request.initiator_id) == last
            &&& drone.neighbours.dom().len() > 1 && drone.can_answer(request) ==> (
            drone.answers(request) <==> last.contains(request.flood_id))
        }),
{
    lemma_history_of_a_run(run, id, neighbours, pdr, flood_memory, n);
    law_history_keeps_the_last_of_each_initiator(
        flood_memory,
        run.passed_on(n),
        request.initiator_id,
    );
}

/// A drone whose memory has room for all the floods that it has passed on remembers every one of
/// them.
pub proof fn law_with_room_every_flood_is_remembered<S>(
    run: Run<S>,
    id: NodeId,
    neighbours: Map<NodeId, S>,
    pdr: Result<Bernoulli, BernoulliError>,
    flood_memory: nat,
    n: nat,
    k: int,
)
    requires
        run.valid(),
        run.states[0] == initial(id, neighbours, pdr, flood_memory),
        n <= run.inputs.len(),
        run.passed_on(n).len() <= flood_memory,
        0 <= k < run.passed_on(n).len(),
    ensures
        remembers(run.states[n as int].flood_history, run.passed_on(n)[k]),
{
    lemma_history_of_a_run(run, id, neighbours, pdr, flood_memory, n);
    law_history_with_room_forgets_nothing(flood_memory, run.passed_on(n), k);
}

proof fn lemma_history_of_a_run<S>(
    run: Run<S>,
    id: NodeId,
    neighbours: Map<NodeId, S>,
    pdr: Result<Bernoulli, BernoulliError>,
    flood_memory: nat,
    n: nat,
)
    requires
        run.valid(),
        run.states[0] == initial(id, neighbours, pdr, flood_memory),
        n <= run.inputs.len(),
    ensures
        run.states[n as int].id == id,
        run.states[n as int].flood_memory == flood_memory,
        run.states[n as int].flood_history == history_insert_all(
            Map::empty(),
            flood_memory,
            run.passed_on(n),
        ),
    decreases n,
{
    if n > 0 {
        lemma_history_of_a_run(run, id, neighbours, pdr, flood_memory, (n - 1) as nat);
        let i = n - 1;
        assert(run.states[i].steps(run.inputs[i], run.states[i + 1], run.outputs[i]));
        if let Some(request) = run.request_passed_on(i) {
            let flood = (request.initiator_id, request.flood_id);
            let earlier = run.passed_on(i as nat);
            assert(earlier.push(flood).drop_last() == earlier);
            assert(earlier.push(flood).last() == flood);
        }
    }
}

/// At every moment, the history of a drone holds no flood twice and of no initiator more than
/// it is meant to.
pub proof fn law_the_history_stays_tidy<S>(
    run: Run<S>,
    id: NodeId,
    neighbours: Map<NodeId, S>,
    pdr: Result<Bernoulli, BernoulliError>,
    flood_memory: nat,
    n: nat,
)
    requires
        run.valid(),
        run.states[0] == initial(id, neighbours, pdr, flood_memory),
        n <= run.inputs.len(),
    ensures
        tidy_history(run.states[n as int]),
    decreases n,
{
    if n > 0 {
        law_the_history_stays_tidy(run, id, neighbours, pdr, flood_memory, (n - 1) as nat);
        let i = n - 1;
        law_steps_keep_the_history_tidy(
            run.states[i],
            run.inputs[i],
            run.states[i + 1],
            run.outputs[i],
        );
    }
}

/// At every moment, a drone is crashing exactly if it was told to before.
pub proof fn law_a_drone_crashes_only_by_command<S>(
    run: Run<S>,
    id: NodeId,
    neighbours: Map<NodeId, S>,
    pdr: Result<Bernoulli, BernoulliError>,
    flood_memory: nat,
    n: nat,
)
    requires
        run.valid(),
        run.states[0] == initial(id, neighbours, pdr, flood_memory),
        n <= run.inputs.len(),
    ensures
        run.states[n as int].state is Crashing <==> exists|i: int|
            0 <= i < n && #[trigger] run.inputs[i] == Input::<S>::Command(DroneCommand::Crash),
    decreases n,
{
    if n > 0 {
        law_a_drone_crashes_only_by_command(
            run,
            id,
            neighbours,
            pdr,
            flood_memory,
            (n - 1) as nat,
        );
        let k = n - 1;
        assert(run.states[k].steps(run.inputs[k], run.states[k + 1], run.outputs[k]));
    }
}

/// A drone that is crashing stays in the state that it crashed in.
pub proof fn law_a_crashed_drone_stays_crashed<S>(run: Run<S>, i: nat, j: nat)
    requires
        run.valid(),
        i <= j <= run.inputs.len(),
        run.states[i as int].state is Crashing,
    ensures
        run.states[j as int] == run.states[i as int],
    decreases j,
{
    if i < j {
        law_a_crashed_drone_stays_crashed(run, i, (j - 1) as nat);
        let k = j - 1;
        assert(run.states[k].steps(run.inputs[k], run.states[k + 1], run.outputs[k]));
    }
}

/// What a crashing drone sends for an input: something for a packet only.
pub open spec fn crash_outputs<S>(drone: DroneView<S>, input: Input<S>) -> Seq<OutputView> {
    match input {
        Input::Packet(packet) => drone.last_words(packet@),
        _ => Seq::empty(),
    }
}

/// A drone stops only after a command to crash, and only when no packet is left. From the first
/// such command on it stays as it is, handles every packet by the rules of a crash, and neither
/// obeys nor answers any further command.
pub proof fn law_a_drone_stops_only_after_a_crash<S>(
    run: Run<S>,
    id: NodeId,
    neighbours: Map<NodeId, S>,
    pdr: Result<Bernoulli, BernoulliError>,
    flood_memory: nat,
    n: nat,
) -> (crash: int)
    requires
        run.valid(),
        run.states[0] == initial(id, neighbours, pdr, flood_memory),
        n < run.inputs.len(),
        run.stops(n as int),
    ensures
        run.inputs[n as int] is Nothing,
        0 <= crash < n,
        run.is_crash(crash),
        forall|i: int| 0 <= i < crash ==> !run.is_crash(i),
        run.states[crash].state is Running,
        forall|i: int|
            #![trigger run.inputs[i]]
            crash < i < run.inputs.len() ==> {
                &&& run.states[i] == run.states[crash + 1]
                &&& run.states[i].state is Crashing
                &&& run.outputs[i] == crash_outputs(run.states[crash + 1], run.inputs[i])
                &&& run.stops(i) <==> run.inputs[i] is Nothing
            },
{
    let crash = lemma_first_crash(run, id, neighbours, pdr, flood_memory, n);
    assert(run.states[crash].steps(
        run.inputs[crash],
        run.states[crash + 1],
        run.outputs[crash],
    ));
    assert forall|i: int| #![trigger run.inputs[i]] crash < i < run.inputs.len() implies {
        &&& run.states[i] == run.states[crash + 1]
        &&& run.states[i].state is Crashing
        &&& run.outputs[i] == crash_outputs(run.states[crash + 1], run.inputs[i])
        &&& run.stops(i) <==> run.inputs[i] is Nothing
    } by {
        law_a_crashed_drone_stays_crashed(run, (crash + 1) as nat, i as nat);
        assert(run.states[i].steps(run.inputs[i], run.states[i + 1], run.outputs[i]));
    }
    crash
}

/// The first command to crash before a moment at which the drone is crashing.
proof fn lemma_first_crash<S>(
    run: Run<S>,
    id: NodeId,
    neighbours: Map<NodeId, S>,
    pdr: Result<Bernoulli, BernoulliError>,
    flood_memory: nat,
    n: nat,
) -> (crash: int)
    requires
        run.valid(),
        run.states[0] == initial(id, neighbours, pdr, flood_memory),
        n <= run.inputs.len(),
        run.states[n as int].state is Crashing,
    ensures
        0 <= crash < n,
        run.is_crash(crash),
        forall|i: int| 0 <= i < crash ==> !run.is_crash(i),
        run.states[crash].state is Running,
    decreases n,
{
    if run.states[n - 1].state is Crashing {
        lemma_first_crash(run, id, neighbours, pdr, flood_memory, (n - 1) as nat)
    } else {
        let k = n - 1;
        assert(run.states[k].steps(run.inputs[k], run.states[k + 1], run.outputs[k]));
        law_a_drone_crashes_only_by_command(
            run,
            id,
            neighbours,
            pdr,
            flood_memory,
            k as nat,
        );
        k
    }
}

/// A drone that was told to crash works off its queue: each packet of it is handled once, in
/// order and by the rules of a crash, and the drone stops right after the last, however long the
/// queue is.
pub proof fn law_a_crashed_drone_works_off_its_queue<S>(
    run: Run<S>,
    crash: int,
    queue: Seq<PacketView>,
)
    requires
        run.valid(),
        0 <= crash < run.inputs.len(),
        run.is_crash(crash),
        run.drains(crash + 1, queue),
    ensures
        ({
            let crashed = run.states[crash + 1];
            let end = crash + 1 + queue.len();
            &&& crashed.state is Crashing
            &&& forall|k: int|
                #![trigger queue[k]]
                0 <= k < queue.len() ==> {
                    &&& run.outputs[crash + 1 + k] == crashed.last_words(queue[k])
                    &&& !run.stops(crash + 1 + k)
                }
            &&& run.stops(end)
            &&& run.outputs[end] == Seq::<OutputView>::empty()
            &&& run.states[end + 1] == crashed
        }),
{
    let crashed = run.states[crash + 1];
    let end = crash + 1 + queue.len();
    assert(run.states[crash].steps(run.inputs[crash], crashed, run.outputs[crash]));
    assert forall|k: int| #![trigger queue[k]] 0 <= k < queue.len() implies {
        &&& run.outputs[crash + 1 + k] == crashed.last_words(queue[k])
        &&& !run.stops(crash + 1 + k)
    } by {
        let i = crash + 1 + k;
        law_a_crashed_drone_stays_crashed(run, (crash + 1) as nat, i as nat);
        assert(run.states[i].steps(run.inputs[i], run.states[i + 1], run.outputs[i]));
    }
    law_a_crashed_drone_stays_crashed(run, (crash + 1) as nat, end as nat);
    assert(run.states[end].steps(run.inputs[end], run.states[end + 1], run.outputs[end]));
}

/// A drone with the largest memory remembers every flood that it has passed on, as long as they can
/// be counted.
pub proof fn law_an_unlimited_memory_forgets_nothing<S>(
    run: Run<S>,
    id: NodeId,
    neighbours: Map<NodeId, S>,
    pdr: Result<Bernoulli, BernoulliError>,
    n: nat,
    k: int,
)
    requires
        run.valid(),
        run.states[0] == initial(id, neighbours, pdr, UNLIMITED_BUFF_SZ as nat),
        n <= run.inputs.len(),
        run.passed_on(n).len() <= usize::MAX,
        0 <= k < run.passed_on(n).len(),
    ensures
        remembers(run.states[n as int].flood_history, run.passed_on(n)[k]),
{
    law_with_room_every_flood_is_remembered(
        run,
        id,
        neighbours,
        pdr,
        UNLIMITED_BUFF_SZ as nat,
        n,
        k,
    );
}

/// Whatever a drone goes through, it reports a fragment as lost exactly as often as a draw came out
/// that way.
pub proof fn law_losses_are_the_draws_that_hit<S>(run: Run<S>, n: nat)
    requires
        run.valid(),
        run.states[0].draw_log.len() == 0,
        n <= run.inputs.len(),
    ensures
        run.states[n as int].draw_log.filter(|draw: (Bernoulli, bool)| draw.1).len()
            == run.outputs.take(n as int).filter(
            |sent: Seq<OutputView>|
                sent.len() > 0 && sent[0] is Controller && sent[0]->Controller_0 is PacketDropped,
        ).len(),
    decreases n,
{
    reveal(Seq::filter);
    if n > 0 {
        let i = n - 1;
        law_losses_are_the_draws_that_hit(run, i as nat);
        assert(run.outputs.take(n as int).drop_last() == run.outputs.take(i));
        let before = run.states[i];
        let after = run.states[i + 1];
        let input = run.inputs[i];
        assert(before.steps(input, after, run.outputs[i]));
        lemma_a_loss_is_a_hit(before, input, after, run.outputs[i]);
        if after.draw_log != before.draw_log {
            assert(after.draw_log.drop_last() == before.draw_log);
        }
    }
}

/// A step reports a loss exactly if it records a draw that hit, and records one draw at most.
proof fn lemma_a_loss_is_a_hit<S>(
    drone: DroneView<S>,
    input: Input<S>,
    post: DroneView<S>,
    outputs: Seq<OutputView>,
)
    requires
        drone.accepts_input(input),
        drone.steps(input, post, outputs),
    ensures
        ({
            let reported = outputs.len() > 0 && outputs[0] is Controller
                && outputs[0]->Controller_0 is PacketDropped;
            ||| post.draw_log == drone.draw_log && !reported
            ||| exists|rate: Bernoulli, hit: bool|
                post.draw_log == #[trigger] drone.draw_log.push((rate, hit)) && hit == reported
        }),
{
    if let Input::Packet(packet) = input {
        if drone.state is Running {
            let lost = law_a_running_drone_handles_its_packets(drone, packet, post, outputs);
            match packet@.pack_type {
                PacketTypeView::MsgFragment(_) => law_a_fragment_is_sent_on_lost_or_refused(
                    drone,
                    packet@,
                    lost,
                    post,
                    outputs,
                ),
                PacketTypeView::FloodRequest(request) => {
                    if drone.answers(request) {
                        law_a_known_flood_is_answered(drone, packet@, lost, post, outputs);
                    } else {
                        let nodes = law_a_new_flood_is_passed_on(
                            drone,
                            packet@,
                            lost,
                            post,
                            outputs,
                        );
                        if nodes.len() > 0 {
                            assert(nodes.contains(nodes[0]));
                        }
                    }
                },
                _ => law_a_reply_is_sent_on_or_handed_over(drone, packet@, lost, post, outputs),
            }
        }
    }
}

} // verus!
