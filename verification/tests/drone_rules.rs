use ap2024_unitn_cppenjoyers_drone::controller::{DroneCommand, DroneEvent, Input, Output};
use ap2024_unitn_cppenjoyers_drone::drone::{MyDrone, UNLIMITED_BUFF_SZ};
use ap2024_unitn_cppenjoyers_drone::drone_model::State;
use ap2024_unitn_cppenjoyers_drone::network::{NodeId, SourceRoutingHeader};
use ap2024_unitn_cppenjoyers_drone::packet::{
    FloodRequest, FloodResponse, Fragment, Nack, NackType, NodeType, Packet, PacketType,
};
use rand::distributions::Bernoulli;
use std::collections::HashMap;

/// The drone 11 between the nodes 1 and 12, with numbers for channels.
fn drone(pdr: f64) -> MyDrone<u32> {
    MyDrone::new(11, HashMap::from([(1, 100), (12, 200)]), Bernoulli::new(pdr))
}

fn fragment(hops: Vec<NodeId>, hop_index: usize) -> Packet {
    let f = Fragment { fragment_index: 7, total_n_fragments: 9, length: 3, data: [5; 128] };
    Packet::new_fragment(SourceRoutingHeader::new(hops, hop_index), 4, f)
}

fn ack(hops: Vec<NodeId>, hop_index: usize) -> Packet {
    Packet::new_ack(SourceRoutingHeader::new(hops, hop_index), 4, 7)
}

fn nack(hops: Vec<NodeId>, hop_index: usize, nack_type: NackType) -> Packet {
    Packet::new_nack(
        SourceRoutingHeader::new(hops, hop_index),
        4,
        Nack { fragment_index: 7, nack_type },
    )
}

fn flood(flood_id: u64, initiator_id: NodeId, path: Vec<NodeId>) -> Packet {
    let path_trace = path.iter().map(|id| (*id, NodeType::Drone)).collect();
    Packet::new_flood_request(
        SourceRoutingHeader::new(vec![], 0),
        4,
        FloodRequest { flood_id, initiator_id, path_trace },
    )
}

fn sent(node: NodeId, packet: Packet) -> Vec<Output> {
    vec![
        Output::Controller(DroneEvent::PacketSent(packet.clone())),
        Output::Node(node, packet),
    ]
}

fn shortcut(packet: Packet) -> Vec<Output> {
    vec![Output::Controller(DroneEvent::ControllerShortcut(packet))]
}

/// Whether the outputs pass a flood request on, rather than answering it.
fn passes_on(outputs: &Vec<Output>) -> bool {
    outputs.iter().any(|o| match o {
        Output::Node(_, p) => matches!(p.pack_type, PacketType::FloodRequest(_)),
        _ => false,
    })
}

#[test]
fn a_packet_goes_to_the_next_node_and_is_reported() {
    let mut d = drone(0.0);
    assert_eq!(
        d.handle_packet(fragment(vec![1, 11, 12, 21], 1)),
        sent(12, fragment(vec![1, 11, 12, 21], 2))
    );
    assert_eq!(d.handle_packet(ack(vec![12, 11, 1], 1)), sent(1, ack(vec![12, 11, 1], 2)));
}

#[test]
fn an_invalid_drop_rate_counts_as_zero_at_the_start() {
    for pdr in [1.5, -0.5, f64::NAN] {
        let mut d = drone(pdr);
        for _ in 0..50 {
            assert_eq!(
                d.handle_packet(fragment(vec![1, 11, 12], 1)),
                sent(12, fragment(vec![1, 11, 12], 2))
            );
        }
    }
}

#[test]
fn an_invalid_drop_rate_changes_nothing_later() {
    let mut d = drone(0.0);
    d.handle_command(DroneCommand::SetPacketDropRate(Bernoulli::new(1.0)));
    d.handle_command(DroneCommand::SetPacketDropRate(Bernoulli::new(2.0)));
    for _ in 0..50 {
        let mut expected =
            vec![Output::Controller(DroneEvent::PacketDropped(fragment(vec![1, 11, 12], 2)))];
        expected.extend(sent(1, nack(vec![11, 1], 1, NackType::Dropped)));
        assert_eq!(d.handle_packet(fragment(vec![1, 11, 12], 1)), expected);
    }
    d.handle_command(DroneCommand::SetPacketDropRate(Bernoulli::new(0.0)));
    for _ in 0..50 {
        assert_eq!(
            d.handle_packet(fragment(vec![1, 11, 12], 1)),
            sent(12, fragment(vec![1, 11, 12], 2))
        );
    }
}

#[test]
fn a_drop_rate_in_between_gives_both_outcomes() {
    let mut d = drone(0.5);
    let mut lost = 0;
    for _ in 0..400 {
        let outputs = d.handle_packet(fragment(vec![1, 11, 12], 1));
        if outputs.len() == 3 {
            lost = lost + 1;
        } else {
            assert_eq!(outputs, sent(12, fragment(vec![1, 11, 12], 2)));
        }
    }
    assert!(50 < lost && lost < 350);
}

#[test]
fn only_fragments_are_lost() {
    let d = drone(0.0);
    assert_eq!(d.transmit(ack(vec![1, 11, 12], 2), 12, true), sent(12, ack(vec![1, 11, 12], 2)));
    let n = nack(vec![1, 11, 12], 2, NackType::Dropped);
    assert_eq!(d.transmit(n.clone(), 12, true), sent(12, n));
    let mut expected =
        vec![Output::Controller(DroneEvent::PacketDropped(fragment(vec![1, 11, 12], 2)))];
    expected.extend(sent(1, nack(vec![11, 1], 1, NackType::Dropped)));
    assert_eq!(d.transmit(fragment(vec![1, 11, 12], 2), 12, true), expected);
    assert_eq!(
        d.transmit(fragment(vec![1, 11, 12], 2), 12, false),
        sent(12, fragment(vec![1, 11, 12], 2))
    );
    let mut certain = drone(1.0);
    assert_eq!(certain.handle_packet(ack(vec![1, 11, 12], 1)), sent(12, ack(vec![1, 11, 12], 2)));
}

#[test]
fn each_reason_to_refuse_a_fragment() {
    let mut d = drone(0.0);
    assert_eq!(
        d.handle_packet(fragment(vec![1, 13, 12], 1)),
        sent(1, nack(vec![13, 1], 1, NackType::UnexpectedRecipient(11)))
    );
    assert_eq!(
        d.handle_packet(fragment(vec![5, 12, 11, 99], 2)),
        sent(12, nack(vec![11, 12, 5], 1, NackType::ErrorInRouting(99)))
    );
    assert_eq!(
        d.handle_packet(fragment(vec![5, 12, 11], 2)),
        sent(12, nack(vec![11, 12, 5], 1, NackType::DestinationIsDrone))
    );
}

#[test]
fn a_refusal_that_has_nowhere_to_go_is_given_up() {
    let mut d = drone(0.0);
    // The way back has a single node.
    assert_eq!(d.handle_packet(fragment(vec![45, 12], 0)), vec![]);
    // The node to go back to is no neighbour.
    assert_eq!(d.handle_packet(fragment(vec![99, 11, 98], 1)), vec![]);
    // The index has left the route.
    assert_eq!(d.handle_packet(fragment(vec![1, 11], 2)), vec![]);
    assert_eq!(d.handle_packet(fragment(vec![], 0)), vec![]);
    assert_eq!(d.handle_packet(ack(vec![1, 11], 2)), vec![]);
}

#[test]
fn an_undeliverable_reply_goes_to_the_controller_as_it_came() {
    let mut d = drone(1.0);
    for route in [vec![1, 11, 99], vec![1, 11], vec![1, 99, 12]] {
        assert_eq!(d.handle_packet(ack(route.clone(), 1)), shortcut(ack(route.clone(), 1)));
        let n = nack(route.clone(), 1, NackType::DestinationIsDrone);
        assert_eq!(d.handle_packet(n.clone()), shortcut(n));
        let r = Packet::new_flood_response(
            SourceRoutingHeader::new(route, 1),
            4,
            FloodResponse { flood_id: 3, path_trace: vec![] },
        );
        assert_eq!(d.handle_packet(r.clone()), shortcut(r));
    }
}

#[test]
fn a_flood_request_is_passed_on_to_everybody_but_its_sender() {
    let mut d = MyDrone::new(
        11,
        HashMap::from([(1, 0), (12, 0), (13, 0), (14, 0)]),
        Bernoulli::new(0.0),
    );
    let outputs = d.handle_packet(flood(3, 1, vec![1, 12]));
    let mut nodes: Vec<NodeId> = Vec::new();
    for i in 0..3 {
        match (&outputs[2 * i], &outputs[2 * i + 1]) {
            (Output::Controller(DroneEvent::PacketSent(p)), Output::Node(n, q)) => {
                assert_eq!(*p, flood(3, 1, vec![1, 12, 11]));
                assert_eq!(p, q);
                nodes.push(*n);
            }
            _ => panic!("unexpected outputs"),
        }
    }
    nodes.sort();
    assert_eq!(outputs.len(), 6);
    assert_eq!(nodes, vec![1, 13, 14]);
}

#[test]
fn a_flood_request_without_a_path_comes_from_its_initiator() {
    let mut d = drone(0.0);
    let outputs = d.handle_packet(flood(3, 1, vec![]));
    assert_eq!(outputs, sent(12, flood(3, 1, vec![11])));
}

#[test]
fn a_known_flood_is_answered_on_the_way_that_the_request_took() {
    let mut d = drone(0.0);
    assert!(passes_on(&d.handle_packet(flood(3, 2, vec![2, 1]))));
    let response = Packet::new_flood_response(
        SourceRoutingHeader::new(vec![11, 12, 5, 2], 1),
        4,
        FloodResponse {
            flood_id: 3,
            path_trace: vec![
                (5, NodeType::Drone),
                (12, NodeType::Drone),
                (11, NodeType::Drone),
            ],
        },
    );
    assert_eq!(d.handle_packet(flood(3, 2, vec![5, 12])), sent(12, response));
    // The answer cannot be sent to a node that is no neighbour.
    assert_eq!(d.handle_packet(flood(3, 2, vec![5])), vec![]);
}

#[test]
fn a_drone_with_a_single_neighbour_answers_every_flood() {
    let mut d = MyDrone::new(11, HashMap::from([(1, 0)]), Bernoulli::new(0.0));
    for _ in 0..2 {
        let outputs = d.handle_packet(flood(3, 1, vec![1]));
        match &outputs[1] {
            Output::Node(1, p) => {
                assert_eq!(p.routing_header, SourceRoutingHeader::new(vec![11, 1], 1));
                assert!(matches!(p.pack_type, PacketType::FloodResponse(_)));
            }
            _ => panic!("unexpected outputs"),
        }
    }
}

#[test]
fn the_last_64_floods_of_each_initiator_are_known() {
    let mut d = drone(0.0);
    assert!(passes_on(&d.handle_packet(flood(1000, 2, vec![1]))));
    for id in 0..64 {
        assert!(passes_on(&d.handle_packet(flood(id, 1, vec![1]))));
    }
    for id in 0..64 {
        assert!(!passes_on(&d.handle_packet(flood(id, 1, vec![1]))));
    }
    assert!(passes_on(&d.handle_packet(flood(64, 1, vec![1]))));
    assert!(!passes_on(&d.handle_packet(flood(1, 1, vec![1]))));
    assert!(!passes_on(&d.handle_packet(flood(1000, 2, vec![1]))));
    assert!(passes_on(&d.handle_packet(flood(0, 1, vec![1]))));
    assert!(passes_on(&d.handle_packet(flood(1, 1, vec![1]))));
}

#[test]
fn an_unlimited_memory_forgets_no_flood() {
    let mut d = MyDrone::with_flood_memory(
        11,
        HashMap::from([(1, 0), (12, 0)]),
        Bernoulli::new(0.0),
        UNLIMITED_BUFF_SZ,
    );
    for id in 0..500 {
        assert!(passes_on(&d.handle_packet(flood(id, 1, vec![1]))));
    }
    for id in 0..500 {
        assert!(!passes_on(&d.handle_packet(flood(id, 1, vec![1]))));
    }
}

#[test]
fn a_crashing_drone_works_off_its_queue() {
    let mut d = drone(0.0);
    d.handle_command(DroneCommand::Crash);
    assert_eq!(
        d.handle_crash(fragment(vec![1, 11, 12], 1)),
        sent(1, nack(vec![11, 1], 1, NackType::ErrorInRouting(11)))
    );
    assert_eq!(d.handle_crash(flood(3, 1, vec![1])), vec![]);
    assert_eq!(d.handle_crash(ack(vec![1, 11, 12], 1)), sent(12, ack(vec![1, 11, 12], 2)));
    assert_eq!(d.handle_crash(ack(vec![1, 11, 99], 1)), shortcut(ack(vec![1, 11, 99], 1)));
}

#[test]
fn the_turns_of_a_drone_up_to_its_end() {
    let mut d = drone(0.0);
    assert!(d.is_running());
    assert!(!d.is_crashing());
    assert_eq!(
        d.run_step(Input::Packet(ack(vec![1, 11, 12], 1))),
        (sent(12, ack(vec![1, 11, 12], 2)), false)
    );
    assert_eq!(d.run_step(Input::Closed), (vec![], false));
    assert_eq!(d.run_step(Input::Nothing), (vec![], false));
    assert_eq!(d.run_step(Input::Command(DroneCommand::Crash)), (vec![], false));
    assert!(d.is_crashing());
    assert_eq!(d.run_step(Input::Command(DroneCommand::RemoveSender(12))), (vec![], false));
    assert_eq!(d.run_step(Input::Closed), (vec![], false));
    assert_eq!(
        d.run_step(Input::Packet(ack(vec![1, 11, 12], 1))),
        (sent(12, ack(vec![1, 11, 12], 2)), false)
    );
    assert_eq!(d.run_step(Input::Packet(flood(3, 1, vec![1]))), (vec![], false));
    assert_eq!(d.run_step(Input::Nothing), (vec![], true));
    assert!(!d.is_running());
}

#[test]
fn channels_come_and_go() {
    let mut d = drone(0.0);
    assert_eq!(d.channel(1), Some(&100));
    assert_eq!(d.channel(13), None);
    d.handle_command(DroneCommand::AddSender(13, 300));
    assert_eq!(d.channel(13), Some(&300));
    d.handle_command(DroneCommand::AddSender(13, 301));
    assert_eq!(d.channel(13), Some(&301));
    d.handle_command(DroneCommand::RemoveSender(13));
    assert_eq!(d.channel(13), None);
    assert_eq!(d.channel(12), Some(&200));
    d.handle_command(DroneCommand::RemoveSender(13));
    assert_eq!(d.channel(1), Some(&100));
}

#[test]
fn a_state_is_running_or_crashing() {
    assert!(State::Running.is_running());
    assert!(!State::Running.is_crashing());
    assert!(State::Crashing.is_crashing());
    assert!(!State::Crashing.is_running());
}

#[test]
fn some_packets_cannot_be_processed() {
    let mut d = drone(0.0);
    assert!(d.accepts_input(&Input::Packet(ack(vec![1, 11, 12], 1))));
    assert!(!d.accepts_input(&Input::Packet(ack(vec![1, 11, 12], usize::MAX))));
    // A request that seems to come from the drone itself can be passed on, but not answered.
    assert!(d.accepts_input(&Input::Packet(flood(3, 11, vec![]))));
    assert!(passes_on(&d.handle_packet(flood(3, 11, vec![]))));
    assert!(!d.accepts_input(&Input::Packet(flood(3, 11, vec![]))));
    assert!(d.accepts_input(&Input::Packet(flood(3, 11, vec![1]))));
    assert!(d.accepts_input(&Input::Nothing));
    d.handle_command(DroneCommand::Crash);
    assert!(d.accepts_input(&Input::Packet(flood(3, 11, vec![]))));
    assert!(!d.accepts_input(&Input::Packet(fragment(vec![1, 11, 12], usize::MAX))));
}

#[test]
fn a_nack_for_an_index_past_the_route_is_given_up_for_every_packet() {
    let d = drone(0.0);
    let mut request = flood(3, 1, vec![1]);
    request.routing_header = SourceRoutingHeader::new(vec![1, 11], 3);
    assert_eq!(d.send_nack(request, NackType::Dropped), vec![]);
    assert_eq!(d.send_nack(ack(vec![1, 11], 3), NackType::Dropped), vec![]);
    assert_eq!(d.send_nack(fragment(vec![1, 11], 3), NackType::Dropped), vec![]);
}

#[test]
fn send_packet_draws_for_fragments_only() {
    let never = drone(0.0);
    let always = drone(1.0);
    for _ in 0..20 {
        let f = fragment(vec![1, 11, 12], 2);
        assert_eq!(never.send_packet(f.clone(), 12), sent(12, f.clone()));
        assert_eq!(always.send_packet(f.clone(), 12), always.transmit(f, 12, true));
        let a = ack(vec![1, 11, 12], 2);
        assert_eq!(always.send_packet(a.clone(), 12), sent(12, a));
    }
}

#[test]
fn a_crashed_drone_handles_its_queue_in_order_and_stops() {
    let mut d = drone(0.0);
    assert_eq!(d.run_step(Input::Command(DroneCommand::Crash)), (vec![], false));
    let queue = vec![
        ack(vec![1, 11, 12], 1),
        fragment(vec![1, 11, 12], 1),
        flood(3, 1, vec![1]),
        ack(vec![12, 11, 1], 1),
    ];
    let expected = vec![
        sent(12, ack(vec![1, 11, 12], 2)),
        sent(1, nack(vec![11, 1], 1, NackType::ErrorInRouting(11))),
        vec![],
        sent(1, ack(vec![12, 11, 1], 2)),
    ];
    for (packet, outputs) in queue.into_iter().zip(expected) {
        assert_eq!(d.run_step(Input::Packet(packet)), (outputs, false));
    }
    assert_eq!(d.run_step(Input::Nothing), (vec![], true));
}
