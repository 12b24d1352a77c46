//! Node identifiers and the source routes that packets carry.

use vstd::prelude::*;

verus! {

pub type NodeId = u8;

/// The route of a packet: all the nodes that it is to visit, the sender first, and the index of
/// the node that the packet is meant for at the moment.
#[derive(Debug, PartialEq, Eq)]
pub struct SourceRoutingHeader {
    pub hop_index: usize,
    pub hops: Vec<NodeId>,
}

/// A route as a mathematical value.
#[verifier::ext_equal]
pub struct RouteView {
    pub hop_index: int,
    pub hops: Seq<NodeId>,
}

impl RouteView {
    /// The node that the packet is meant for, unless the index has left the route.
    pub open spec fn current_hop(self) -> Option<NodeId> {
        if 0 <= self.hop_index < self.hops.len() {
            Some(self.hops[self.hop_index])
        } else {
            None
        }
    }

    /// The node before the one that the packet is meant for.
    pub open spec fn previous_hop(self) -> Option<NodeId> {
        RouteView { hop_index: self.hop_index - 1, ..self }.current_hop()
    }

    /// The same route, one node further.
    pub open spec fn advanced(self) -> RouteView {
        RouteView { hop_index: self.hop_index + 1, ..self }
    }

    /// The same route, one node back.
    pub open spec fn retreated(self) -> RouteView {
        RouteView { hop_index: self.hop_index - 1, ..self }
    }

    /// Whether the nodes before the current one all lie on the route.
    pub open spec fn can_turn_back(self) -> bool {
        0 <= self.hop_index <= self.hops.len()
    }

    /// The way back: the nodes before the current one in reverse, about to go to the second of
    /// them.
    pub open spec fn turned_back(self) -> RouteView {
        RouteView { hop_index: 1, hops: self.hops.take(self.hop_index).reverse() }
    }
}

impl View for SourceRoutingHeader {
    type V = RouteView;

    open spec fn view(&self) -> RouteView {
        RouteView { hop_index: self.hop_index as int, hops: self.hops@ }
    }
}

impl Clone for SourceRoutingHeader {
    fn clone(&self) -> (copy: Self)
        ensures
            copy@ == self@,
            copy.hop_index == self.hop_index,
            copy.hops@ == self.hops@,
    {
        SourceRoutingHeader { hop_index: self.hop_index, hops: self.hops.clone() }
    }
}

impl SourceRoutingHeader {
    pub fn new(hops: Vec<NodeId>, hop_index: usize) -> (header: Self)
        ensures
            header@ == (RouteView { hop_index: hop_index as int, hops: hops@ }),
            header.hop_index == hop_index,
            header.hops == hops,
    {
        SourceRoutingHeader { hop_index, hops }
    }

    pub fn current_hop(&self) -> (hop: Option<NodeId>)
        ensures
            hop == self@.current_hop(),
            hop is Some <==> self.hop_index < self.hops@.len(),
            hop is Some ==> hop->0 == self.hops@[self.hop_index as int],
    {
        if self.hop_index < self.hops.len() {
            Some(self.hops[self.hop_index])
        } else {
            None
        }
    }

    pub fn previous_hop(&self) -> (hop: Option<NodeId>)
        ensures
            hop == self@.previous_hop(),
            hop is Some <==> 1 <= self.hop_index <= self.hops@.len(),
            hop is Some ==> hop->0 == self.hops@[self.hop_index - 1],
    {
        if 1 <= self.hop_index && self.hop_index - 1 < self.hops.len() {
            Some(self.hops[self.hop_index - 1])
        } else {
            None
        }
    }

    pub fn increase_hop_index(&mut self)
        requires
            old(self).hop_index < usize::MAX,
        ensures
            final(self)@ == old(self)@.advanced(),
            final(self).hop_index == old(self).hop_index + 1,
            final(self).hops == old(self).hops,
    {
        self.hop_index = self.hop_index + 1;
    }

    pub fn decrease_hop_index(&mut self)
        requires
            old(self).hop_index > 0,
        ensures
            final(self)@ == old(self)@.retreated(),
            final(self).hop_index == old(self).hop_index - 1,
            final(self).hops == old(self).hops,
    {
        self.hop_index = self.hop_index - 1;
    }

    /// The way back from the current node, if the nodes before it lie on the route.
    pub fn turn_back(&self) -> (route: Option<SourceRoutingHeader>)
        ensures
            route is Some <==> self@.can_turn_back(),
            route is Some ==> route->0@ == self@.turned_back(),
            route is Some <==> self.hop_index <= self.hops@.len(),
            route is Some ==> {
                &&& route->0.hop_index == 1
                &&& route->0.hops@.len() == self.hop_index
                &&& forall|i: int|
                    0 <= i < self.hop_index ==> #[trigger] route->0.hops@[i]
                        == self.hops@[self.hop_index - 1 - i]
            },
    {
        if self.hop_index > self.hops.len() {
            return None;
        }
        let mut hops: Vec<NodeId> = Vec::new();
        let mut i: usize = self.hop_index;
        while i > 0
            invariant
                i <= self.hop_index <= self.hops.len(),
                hops@ == self.hops@.subrange(i as int, self.hop_index as int).reverse(),
            decreases i,
        {
            i = i - 1;
            hops.push(self.hops[i]);
            assert(hops@ == self.hops@.subrange(i as int, self.hop_index as int).reverse());
        }
        assert(hops@ == self.hops@.take(self.hop_index as int).reverse());
        Some(SourceRoutingHeader { hop_index: 1, hops })
    }
}

/// The node that a packet is meant for is the one that its index names, and the one before it is
/// the one that the index before names; an index that leaves the route names none.
pub proof fn law_the_index_names_the_hop(route: RouteView, node: NodeId)
    ensures
        route.current_hop() == Some(node) <==> 0 <= route.hop_index < route.hops.len()
            && route.hops[route.hop_index] == node,
        route.previous_hop() == Some(node) <==> 1 <= route.hop_index <= route.hops.len()
            && route.hops[route.hop_index - 1] == node,
{
}

/// Going on and going back move the index by one and leave the nodes as they are, so that each
/// undoes the other.
pub proof fn law_moving_keeps_the_hops(route: RouteView)
    ensures
        route.advanced().hops == route.hops,
        route.advanced().hop_index == route.hop_index + 1,
        route.retreated().hops == route.hops,
        route.retreated().hop_index == route.hop_index - 1,
        route.advanced().retreated() == route,
        route.retreated().advanced() == route,
{
}

/// The way back visits exactly the nodes before the current one, in reverse, and is about to go
/// to the second of them. There is one exactly if all those nodes lie on the route.
pub proof fn law_the_way_back_reverses_the_route(route: RouteView)
    ensures
        route.can_turn_back() <==> 0 <= route.hop_index <= route.hops.len(),
        0 <= route.hop_index <= route.hops.len() ==> {
            let way_back = route.turned_back();
            &&& way_back.hop_index == 1
            &&& way_back.hops.len() == route.hop_index
            &&& forall|i: int|
                0 <= i < route.hop_index ==> #[trigger] way_back.hops[i] == route.hops[
                route.hop_index - 1 - i]
        },
{
}

/// The view of a route shows its index and its nodes.
pub proof fn law_a_route_is_seen_as_it_is(header: SourceRoutingHeader)
    ensures
        header@.hop_index == header.hop_index,
        header@.hops == header.hops@,
{
}

} // verus!
