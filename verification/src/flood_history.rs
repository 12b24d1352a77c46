//! The floods that a node has taken part in, remembered separately for every initiator.

use crate::network::NodeId;
use crate::ring_buffer::{
    last_n, law_a_buffer_holds_the_latest, law_ring_keeps_the_last, ring_insert, ring_insert_all,
    RingBuffer,
};
use std::collections::HashMap;
use vstd::prelude::*;

verus! {

broadcast use vstd::std_specs::hash::group_hash_axioms;

/// The identifiers that a history remembers of one initiator, the oldest first.
pub open spec fn remembered(history: Map<NodeId, Seq<u64>>, initiator: NodeId) -> Seq<u64> {
    if history.contains_key(initiator) {
        history[initiator]
    } else {
        Seq::empty()
    }
}

/// Whether a history remembers a flood, named by its initiator and its identifier.
pub open spec fn remembers(history: Map<NodeId, Seq<u64>>, flood: (NodeId, u64)) -> bool {
    remembered(history, flood.0).contains(flood.1)
}

/// The history after a flood was entered: of its initiator the last `size` identifiers stay.
pub open spec fn history_insert(
    history: Map<NodeId, Seq<u64>>,
    size: nat,
    flood: (NodeId, u64),
) -> Map<NodeId, Seq<u64>> {
    history.insert(flood.0, ring_insert(remembered(history, flood.0), size, flood.1))
}

/// The history after the given floods were entered one after the other.
pub open spec fn history_insert_all(
    history: Map<NodeId, Seq<u64>>,
    size: nat,
    floods: Seq<(NodeId, u64)>,
) -> Map<NodeId, Seq<u64>>
    decreases floods.len(),
{
    if floods.len() == 0 {
        history
    } else {
        history_insert(history_insert_all(history, size, floods.drop_last()), size, floods.last())
    }
}

/// The identifiers of those of the given floods that one initiator started.
pub open spec fn ids_of(floods: Seq<(NodeId, u64)>, initiator: NodeId) -> Seq<u64>
    decreases floods.len(),
{
    if floods.len() == 0 {
        Seq::empty()
    } else {
        let earlier = ids_of(floods.drop_last(), initiator);
        if floods.last().0 == initiator {
            earlier.push(floods.last().1)
        } else {
            earlier
        }
    }
}

#[derive(Debug)]
pub struct FloodHistory {
    buffers: HashMap<NodeId, RingBuffer<u64>>,
    size: usize,
}

/// The remembered identifiers of each initiator, the oldest first.
impl View for FloodHistory {
    type V = Map<NodeId, Seq<u64>>;

    closed spec fn view(&self) -> Map<NodeId, Seq<u64>> {
        self.buffers@.map_values(|buffer: RingBuffer<u64>| buffer@)
    }
}

impl FloodHistory {
    /// How many identifiers are remembered of each initiator.
    pub closed spec fn size(&self) -> nat {
        self.size as nat
    }

    /// Every buffer has the size of the history and keeps to it.
    pub closed spec fn wf(&self) -> bool {
        forall|k: NodeId| #[trigger]
            self.buffers@.contains_key(k) ==> self.buffers@[k].size() == self.size
                && self.buffers@[k].wf()
    }

    /// An empty history that remembers the last `size` floods of every initiator.
    pub fn with_capacity(size: usize) -> (history: Self)
        ensures
            history@ == Map::<NodeId, Seq<u64>>::empty(),
            history.size() == size,
            history.wf(),
    {
        let history = FloodHistory { buffers: HashMap::new(), size };
        assert(history@ == Map::<NodeId, Seq<u64>>::empty());
        history
    }

    pub fn contains(&self, flood: (NodeId, u64)) -> (found: bool)
        ensures
            found == remembers(self@, flood),
    {
        match self.buffers.get(&flood.0) {
            Some(buffer) => {
                let found: bool = buffer.contains(&flood.1);
                assert(remembered(self@, flood.0) == buffer@);
                found
            },
            None => false,
        }
    }

    pub fn insert(&mut self, flood: (NodeId, u64))
        requires
            old(self).wf(),
        ensures
            final(self)@ == history_insert(old(self)@, old(self).size(), flood),
            final(self).size() == old(self).size(),
            final(self).wf(),
    {
        let mut buffer: RingBuffer<u64> = match self.buffers.remove(&flood.0) {
            Some(buffer) => buffer,
            None => RingBuffer::with_capacity(self.size),
        };
        buffer.insert(flood.1);
        self.buffers.insert(flood.0, buffer);
        assert(self@ == history_insert(old(self)@, old(self).size(), flood));
    }
}

/// A well-formed history of a positive size remembers of no initiator more floods than that.
pub proof fn law_a_history_keeps_to_its_size(history: FloodHistory, initiator: NodeId)
    requires
        history.wf(),
        history.size() > 0,
    ensures
        remembered(history@, initiator).len() <= history.size(),
{
}

/// Of every initiator exactly the last `size` floods are remembered, whatever floods of other
/// initiators came between.
pub proof fn law_history_keeps_the_last_of_each_initiator(
    size: nat,
    floods: Seq<(NodeId, u64)>,
    initiator: NodeId,
)
    requires
        size > 0,
    ensures
        remembered(history_insert_all(Map::empty(), size, floods), initiator) == last_n(
            ids_of(floods, initiator),
            size,
        ),
{
    let ids = ids_of(floods, initiator);
    lemma_history_is_a_ring_per_initiator(Map::empty(), size, floods, initiator);
    law_ring_keeps_the_last(Seq::<u64>::empty(), size, ids);
    assert(Seq::<u64>::empty() + ids == ids);
}

/// A flood that was just entered is remembered, and the floods of other initiators stay as they
/// were.
pub proof fn law_history_remembers_what_was_entered(
    history: Map<NodeId, Seq<u64>>,
    size: nat,
    flood: (NodeId, u64),
)
    ensures
        remembers(history_insert(history, size, flood), flood),
        forall|other: NodeId|
            other != flood.0 ==> #[trigger] remembered(
                history_insert(history, size, flood),
                other,
            ) == remembered(history, other),
{
    let ids = ring_insert(remembered(history, flood.0), size, flood.1);
    assert(ids.last() == flood.1);
    assert(ids[ids.len() - 1] == flood.1);
}

/// A flood stays remembered as long as fewer than `size` other floods of its initiator are
/// entered after it, whatever floods of other initiators come between.
pub proof fn law_history_remembers_until_size_others_came(
    history: Map<NodeId, Seq<u64>>,
    size: nat,
    flood: (NodeId, u64),
    later: Seq<(NodeId, u64)>,
)
    requires
        size > 0,
        remembered(history, flood.0).len() <= size,
        ids_of(later, flood.0).len() < size,
    ensures
        remembers(history_insert_all(history_insert(history, size, flood), size, later), flood),
{
    let entered = history_insert(history, size, flood);
    let ids = remembered(entered, flood.0);
    lemma_history_is_a_ring_per_initiator(entered, size, later, flood.0);
    law_ring_keeps_the_last(ids, size, ids_of(later, flood.0));
    let all = ids + ids_of(later, flood.0);
    let kept = remembered(history_insert_all(entered, size, later), flood.0);
    assert(kept == last_n(all, size));
    let i = ids.len() - 1 - (all.len() - kept.len());
    assert(kept[i] == flood.1);
}

/// A history whose size is not exceeded by the number of floods forgets none of them.
pub proof fn law_history_with_room_forgets_nothing(size: nat, floods: Seq<(NodeId, u64)>, i: int)
    requires
        floods.len() <= size,
        0 <= i < floods.len(),
    ensures
        remembers(history_insert_all(Map::empty(), size, floods), floods[i]),
{
    law_history_keeps_the_last_of_each_initiator(size, floods, floods[i].0);
    lemma_ids_of(floods, i);
}

/// What a history remembers of an initiator depends on the floods of that initiator alone.
proof fn lemma_history_is_a_ring_per_initiator(
    history: Map<NodeId, Seq<u64>>,
    size: nat,
    floods: Seq<(NodeId, u64)>,
    initiator: NodeId,
)
    ensures
        remembered(history_insert_all(history, size, floods), initiator) == ring_insert_all(
            remembered(history, initiator),
            size,
            ids_of(floods, initiator),
        ),
    decreases floods.len(),
{
    if floods.len() > 0 {
        lemma_history_is_a_ring_per_initiator(history, size, floods.drop_last(), initiator);
        if floods.last().0 == initiator {
            let ids = ids_of(floods, initiator);
            assert(ids.drop_last() == ids_of(floods.drop_last(), initiator));
        }
    }
}

proof fn lemma_ids_of(floods: Seq<(NodeId, u64)>, i: int)
    requires
        0 <= i < floods.len(),
    ensures
        ids_of(floods, floods[i].0).contains(floods[i].1),
        forall|k: NodeId| #[trigger] ids_of(floods, k).len() <= floods.len(),
    decreases floods.len(),
{
    let earlier = floods.drop_last();
    let ids = ids_of(floods, floods[i].0);
    if i < earlier.len() {
        lemma_ids_of(earlier, i);
        let before = ids_of(earlier, floods[i].0);
        let j = before.index_of(floods[i].1);
        assert(ids[j] == floods[i].1);
        assert forall|k: NodeId| #[trigger] ids_of(floods, k).len() <= floods.len() by {
            assert(ids_of(earlier, k).len() <= earlier.len());
        }
    } else {
        assert(ids[ids.len() - 1] == floods[i].1);
        if earlier.len() > 0 {
            lemma_ids_of(earlier, 0);
        }
        assert forall|k: NodeId| #[trigger] ids_of(floods, k).len() <= floods.len() by {
            assert(ids_of(earlier, k).len() <= earlier.len());
        }
    }
}

/// A history remembers a flood exactly if it holds its identifier under its initiator.
pub proof fn law_a_history_remembers_what_it_holds(
    history: Map<NodeId, Seq<u64>>,
    flood: (NodeId, u64),
)
    ensures
        remembers(history, flood) <==> history.contains_key(flood.0) && exists|i: int|
            0 <= i < history[flood.0].len() && #[trigger] history[flood.0][i] == flood.1,
        remembered(history, flood.0).len() > 0 ==> history.contains_key(flood.0),
        history.contains_key(flood.0) ==> remembered(history, flood.0) == history[flood.0],
{
}

/// Entering a flood puts its identifier last among those of its initiator, gives up the oldest of
/// them exactly if there were as many as fit, and touches no other initiator.
pub proof fn law_entering_a_flood_costs_at_most_the_oldest(
    history: Map<NodeId, Seq<u64>>,
    size: nat,
    flood: (NodeId, u64),
)
    ensures
        ({
            let after = history_insert(history, size, flood);
            let ids = after[flood.0];
            let n: nat = if history.contains_key(flood.0) {
                history[flood.0].len()
            } else {
                0
            };
            let gone: int = if n > 0 && n == size {
                1
            } else {
                0
            };
            &&& after.dom() == history.dom().insert(flood.0)
            &&& forall|other: NodeId|
                other != flood.0 && history.contains_key(other) ==> #[trigger] after[other]
                    == history[other]
            &&& ids.len() == n - gone + 1
            &&& ids[ids.len() - 1] == flood.1
            &&& forall|i: int|
                0 <= i < n - gone ==> #[trigger] ids[i] == history[flood.0][i + gone]
        }),
{
}

/// The identifiers of one initiator are those of its floods, in their order.
pub proof fn law_the_ids_of_an_initiator_are_picked_in_order(
    floods: Seq<(NodeId, u64)>,
    initiator: NodeId,
)
    ensures
        ids_of(floods, initiator) == floods.filter(
            |flood: (NodeId, u64)| flood.0 == initiator,
        ).map_values(|flood: (NodeId, u64)| flood.1),
    decreases floods.len(),
{
    reveal(Seq::filter);
    if floods.len() > 0 {
        law_the_ids_of_an_initiator_are_picked_in_order(floods.drop_last(), initiator);
        assert(ids_of(floods, initiator) =~= floods.filter(
            |flood: (NodeId, u64)| flood.0 == initiator,
        ).map_values(|flood: (NodeId, u64)| flood.1));
    }
}

/// Floods that are entered one after the other leave, of every initiator, as many identifiers as
/// fit: the latest ones, in the order in which they came.
pub proof fn law_a_history_holds_the_latest_of_each_initiator(
    size: nat,
    floods: Seq<(NodeId, u64)>,
    initiator: NodeId,
)
    ensures
        ({
            let after = history_insert_all(Map::empty(), size, floods);
            let all = floods.filter(|flood: (NodeId, u64)| flood.0 == initiator);
            let held: nat = if size > 0 && all.len() > size {
                size
            } else {
                all.len()
            };
            &&& after.contains_key(initiator) <==> all.len() > 0
            &&& after.contains_key(initiator) ==> {
                &&& after[initiator].len() == held
                &&& forall|i: int|
                    0 <= i < held ==> #[trigger] after[initiator][i] == all[all.len() - held
                        + i].1
            }
        }),
{
    let ids = ids_of(floods, initiator);
    lemma_history_is_a_ring_per_initiator(Map::empty(), size, floods, initiator);
    lemma_history_names_its_initiators(size, floods, initiator);
    law_the_ids_of_an_initiator_are_picked_in_order(floods, initiator);
    law_a_buffer_holds_the_latest(Seq::<u64>::empty(), size, ids);
}

proof fn lemma_history_names_its_initiators(
    size: nat,
    floods: Seq<(NodeId, u64)>,
    initiator: NodeId,
)
    ensures
        history_insert_all(Map::empty(), size, floods).contains_key(initiator) <==> ids_of(
            floods,
            initiator,
        ).len() > 0,
    decreases floods.len(),
{
    if floods.len() > 0 {
        lemma_history_names_its_initiators(size, floods.drop_last(), initiator);
    }
}

} // verus!
