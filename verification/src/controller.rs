//! What a drone and the simulation controller say to each other, and what a drone hands out.

use crate::network::NodeId;
use crate::packet::{Packet, PacketView};
use rand::distributions::{Bernoulli, BernoulliError};
use vstd::prelude::*;

verus! {

/// A command to a drone. `S` is the channel to a neighbour.
#[derive(Debug)]
pub enum DroneCommand<S> {
    /// Forget the channel to a node.
    RemoveSender(NodeId),
    /// Use this channel to a node from now on.
    AddSender(NodeId, S),
    /// Lose fragments with this chance from now on, if it is one.
    SetPacketDropRate(Result<Bernoulli, BernoulliError>),
    /// Process what is still queued, and stop.
    Crash,
}

/// A report of a drone to the controller.
#[derive(Debug, PartialEq, Eq)]
pub enum DroneEvent {
    /// The packet was sent to a neighbour.
    PacketSent(Packet),
    /// The fragment was lost.
    PacketDropped(Packet),
    /// The packet cannot be delivered through the network and must not be lost.
    ControllerShortcut(Packet),
}

/// What a drone finds when it looks at its channels. While it runs it waits for a command or a
/// packet, and a command goes first; while it crashes it looks for packets only, and does not
/// wait.
#[derive(Debug)]
pub enum Input<S> {
    Command(DroneCommand<S>),
    Packet(Packet),
    /// The channel was closed by the other side.
    Closed,
    /// No packet is queued.
    Nothing,
}

/// Something that a drone sends.
#[derive(Debug, PartialEq, Eq)]
pub enum Output {
    /// To the controller.
    Controller(DroneEvent),
    /// To a neighbour.
    Node(NodeId, Packet),
}

#[verifier::ext_equal]
pub enum EventView {
    PacketSent(PacketView),
    PacketDropped(PacketView),
    ControllerShortcut(PacketView),
}

#[verifier::ext_equal]
pub enum OutputView {
    Controller(EventView),
    Node(NodeId, PacketView),
}

impl View for DroneEvent {
    type V = EventView;

    open spec fn view(&self) -> EventView {
        match *self {
            DroneEvent::PacketSent(p) => EventView::PacketSent(p@),
            DroneEvent::PacketDropped(p) => EventView::PacketDropped(p@),
            DroneEvent::ControllerShortcut(p) => EventView::ControllerShortcut(p@),
        }
    }
}

impl View for Output {
    type V = OutputView;

    open spec fn view(&self) -> OutputView {
        match *self {
            Output::Controller(e) => OutputView::Controller(e@),
            Output::Node(id, p) => OutputView::Node(id, p@),
        }
    }
}

/// Outputs as mathematical values.
pub open spec fn views(outputs: Seq<Output>) -> Seq<OutputView> {
    outputs.map_values(|output: Output| output@)
}

/// The outputs by which a packet is sent to a neighbour: the report to the controller, and the
/// packet itself.
pub open spec fn delivery(node: NodeId, packet: PacketView) -> Seq<OutputView> {
    seq![
        OutputView::Controller(EventView::PacketSent(packet)),
        OutputView::Node(node, packet),
    ]
}

/// The outputs by which a packet is sent to several neighbours in the given order.
pub open spec fn deliveries(nodes: Seq<NodeId>, packet: PacketView) -> Seq<OutputView>
    decreases nodes.len(),
{
    if nodes.len() == 0 {
        Seq::empty()
    } else {
        deliveries(nodes.drop_last(), packet) + delivery(nodes.last(), packet)
    }
}

/// Appends what sending `packet` to `node` takes.
pub(crate) fn deliver(outputs: &mut Vec<Output>, node: NodeId, packet: Packet)
    ensures
        views(final(outputs)@) == views(old(outputs)@) + delivery(node, packet@),
{
    outputs.push(Output::Controller(DroneEvent::PacketSent(packet.clone())));
    outputs.push(Output::Node(node, packet));
    assert(views(outputs@) == views(old(outputs)@) + delivery(node, packet@));
}

/// The view of an output shows where it goes and what it carries, and the views of several
/// outputs show each of them in its place.
pub proof fn law_an_output_is_seen_as_it_is(outputs: Seq<Output>, i: int)
    requires
        0 <= i < outputs.len(),
    ensures
        views(outputs).len() == outputs.len(),
        match outputs[i] {
            Output::Node(node, packet) => views(outputs)[i] == OutputView::Node(node, packet@),
            Output::Controller(DroneEvent::PacketSent(packet)) => views(outputs)[i]
                == OutputView::Controller(EventView::PacketSent(packet@)),
            Output::Controller(DroneEvent::PacketDropped(packet)) => views(outputs)[i]
                == OutputView::Controller(EventView::PacketDropped(packet@)),
            Output::Controller(DroneEvent::ControllerShortcut(packet)) => views(outputs)[i]
                == OutputView::Controller(EventView::ControllerShortcut(packet@)),
        },
{
}

/// A packet that goes to several neighbours goes to each of them in turn, right after the
/// controller was told that it was sent.
pub proof fn law_deliveries_go_out_in_turn(nodes: Seq<NodeId>, packet: PacketView)
    ensures
        deliveries(nodes, packet).len() == 2 * nodes.len(),
        forall|k: int|
            #![trigger nodes[k]]
            0 <= k < nodes.len() ==> {
                &&& deliveries(nodes, packet)[2 * k] == OutputView::Controller(
                    EventView::PacketSent(packet),
                )
                &&& deliveries(nodes, packet)[2 * k + 1] == OutputView::Node(nodes[k], packet)
            },
    decreases nodes.len(),
{
    if nodes.len() > 0 {
        let before = nodes.drop_last();
        law_deliveries_go_out_in_turn(before, packet);
        let all = deliveries(nodes, packet);
        assert forall|k: int| #![trigger nodes[k]] 0 <= k < nodes.len() implies {
            &&& all[2 * k] == OutputView::Controller(EventView::PacketSent(packet))
            &&& all[2 * k + 1] == OutputView::Node(nodes[k], packet)
        } by {
            if k < before.len() {
                assert(before[k] == nodes[k]);
                assert(all[2 * k] == deliveries(before, packet)[2 * k]);
                assert(all[2 * k + 1] == deliveries(before, packet)[2 * k + 1]);
            }
        }
    }
}

/// A packet that goes to one neighbour is reported first and sent then.
pub proof fn law_a_delivery_is_a_report_and_a_packet(node: NodeId, packet: PacketView)
    ensures
        delivery(node, packet).len() == 2,
        delivery(node, packet)[0] == OutputView::Controller(EventView::PacketSent(packet)),
        delivery(node, packet)[1] == OutputView::Node(node, packet),
{
}

} // verus!
