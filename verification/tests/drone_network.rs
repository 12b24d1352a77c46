use ap2024_unitn_cppenjoyers_drone::controller::{DroneCommand, DroneEvent, Input, Output};
use ap2024_unitn_cppenjoyers_drone::drone::MyDrone;
use ap2024_unitn_cppenjoyers_drone::network::{NodeId, SourceRoutingHeader};
use ap2024_unitn_cppenjoyers_drone::packet::{
    FloodRequest, FloodResponse, Fragment, Nack, NackType, NodeType, Packet, PacketType,
};
use crossbeam_channel::{unbounded, Receiver, Sender, TryRecvError};
use rand::distributions::Bernoulli;
use std::collections::HashMap;

type Command = DroneCommand<Sender<Packet>>;

/// A drone with its channels, driven one turn at a time.
struct Node {
    drone: MyDrone<Sender<Packet>>,
    events: Sender<DroneEvent>,
    commands: Receiver<Command>,
    packets: Receiver<Packet>,
    stopped: bool,
}

impl Node {
    fn new(
        id: NodeId,
        events: Sender<DroneEvent>,
        commands: Receiver<Command>,
        packets: Receiver<Packet>,
        neighbours: HashMap<NodeId, Sender<Packet>>,
        pdr: f32,
    ) -> Node {
        let drone = MyDrone::new(id, neighbours, Bernoulli::new(pdr as f64));
        Node { drone, events, commands, packets, stopped: false }
    }

    fn step(&mut self, input: Input<Sender<Packet>>) {
        let (outputs, stop) = self.drone.run_step(input);
        for output in outputs {
            match output {
                Output::Controller(event) => {
                    let _ = self.events.send(event);
                }
                Output::Node(node, packet) => {
                    let _ = self.drone.channel(node).unwrap().send(packet);
                }
            }
        }
        self.stopped = stop;
    }

    /// Takes one turn, and says whether there was anything to do.
    fn turn(&mut self) -> bool {
        if self.stopped {
            return false;
        }
        if self.drone.is_running() {
            match self.commands.try_recv() {
                Ok(command) => {
                    self.step(Input::Command(command));
                    return true;
                }
                Err(TryRecvError::Disconnected) => {
                    self.step(Input::Closed);
                    return false;
                }
                Err(TryRecvError::Empty) => {}
            }
        }
        match self.packets.try_recv() {
            Ok(packet) => {
                self.step(Input::Packet(packet));
                true
            }
            Err(TryRecvError::Disconnected) => {
                self.step(Input::Closed);
                false
            }
            Err(TryRecvError::Empty) => {
                if self.drone.is_crashing() {
                    self.step(Input::Nothing);
                    assert!(self.stopped);
                }
                false
            }
        }
    }
}

/// Lets the drones work until none has anything left to do.
fn settle(nodes: &mut Vec<Node>) {
    let mut busy = true;
    while busy {
        busy = false;
        for node in nodes.iter_mut() {
            while node.turn() {
                busy = true;
            }
        }
    }
}

fn sample_packet() -> Packet {
    Packet::new_fragment(
        SourceRoutingHeader { hop_index: 1, hops: vec![1, 11, 12, 21] },
        1,
        fragment(),
    )
}

fn fragment() -> Fragment {
    Fragment { fragment_index: 1, total_n_fragments: 1, length: 128, data: [1; 128] }
}

/// The drones 11 and 12, and the client 1 as a neighbour of 11.
struct Pair {
    nodes: Vec<Node>,
    client: Receiver<Packet>,
    client_send: Sender<Packet>,
    d_send: Sender<Packet>,
    d12_send: Sender<Packet>,
    d12_recv: Receiver<Packet>,
    events: Receiver<DroneEvent>,
    commands: Sender<Command>,
    commands12: Sender<Command>,
}

fn pair(linked: bool) -> Pair {
    let (c_send, c_recv) = unbounded();
    let (d_send, d_recv) = unbounded();
    let (d12_send, d12_recv) = unbounded();
    let (tx_event, rx_event) = unbounded();
    let (tx_cmd, rx_cmd) = unbounded();
    let (tx_cmd2, rx_cmd2) = unbounded();
    let neighbours11 = if linked {
        HashMap::from([(12, d12_send.clone()), (1, c_send.clone())])
    } else {
        HashMap::new()
    };
    let neighbours12 = if linked { HashMap::from([(11, d_send.clone())]) } else { HashMap::new() };
    let drone = Node::new(11, tx_event.clone(), rx_cmd, d_recv, neighbours11, 0.0);
    let drone2 = Node::new(12, tx_event, rx_cmd2, d12_recv.clone(), neighbours12, 0.0);
    Pair {
        nodes: vec![drone, drone2],
        client: c_recv,
        client_send: c_send,
        d_send,
        d12_send,
        d12_recv,
        events: rx_event,
        commands: tx_cmd,
        commands12: tx_cmd2,
    }
}

fn chain_fragment_ack() {
    let (c_send, c_recv) = unbounded();
    let (s_send, s_recv) = unbounded();
    let (d_send, d_recv) = unbounded();
    let (d12_send, d12_recv) = unbounded();
    let (_tx_cmd, rx_cmd) = unbounded();
    let neighbours11 = HashMap::from([(12, d12_send.clone()), (1, c_send)]);
    let neighbours12 = HashMap::from([(11, d_send.clone()), (21, s_send)]);
    let mut nodes = vec![
        Node::new(11, unbounded().0, rx_cmd.clone(), d_recv, neighbours11, 0.0),
        Node::new(12, unbounded().0, rx_cmd, d12_recv, neighbours12, 0.0),
    ];

    let mut msg = sample_packet();
    d_send.send(msg.clone()).unwrap();
    settle(&mut nodes);
    msg.routing_header.hop_index = 3;
    assert_eq!(s_recv.try_recv().unwrap(), msg);

    let ack = Packet::new_ack(SourceRoutingHeader::new(vec![21, 12, 11, 1], 1), 1, 1);
    d12_send.send(ack).unwrap();
    settle(&mut nodes);
    assert_eq!(
        c_recv.try_recv().unwrap(),
        Packet::new_ack(SourceRoutingHeader::new(vec![21, 12, 11, 1], 3), 1, 1)
    );
}

fn chain_fragment_drop() {
    let (c_send, c_recv) = unbounded();
    let (s_send, _s_recv) = unbounded();
    let (d_send, d_recv) = unbounded();
    let (d12_send, d12_recv) = unbounded();
    let (_tx_cmd, rx_cmd) = unbounded();
    let neighbours11 = HashMap::from([(12, d12_send), (1, c_send)]);
    let neighbours12 = HashMap::from([(11, d_send.clone()), (21, s_send)]);
    let mut nodes = vec![
        Node::new(11, unbounded().0, rx_cmd.clone(), d_recv, neighbours11, 0.0),
        Node::new(12, unbounded().0, rx_cmd, d12_recv, neighbours12, 1.0),
    ];

    d_send.send(sample_packet()).unwrap();
    settle(&mut nodes);
    assert_eq!(
        c_recv.try_recv().unwrap(),
        Packet {
            pack_type: PacketType::Nack(Nack { fragment_index: 1, nack_type: NackType::Dropped }),
            routing_header: SourceRoutingHeader { hop_index: 2, hops: vec![12, 11, 1] },
            session_id: 1,
        }
    );
}

fn fragment_drop() {
    let (c_send, c_recv) = unbounded();
    let (d_send, d_recv) = unbounded();
    let (d12_send, _d12_recv) = unbounded();
    let (_tx_cmd, rx_cmd) = unbounded();
    let neighbours = HashMap::from([(12, d12_send), (1, c_send)]);
    let mut nodes = vec![Node::new(11, unbounded().0, rx_cmd, d_recv, neighbours, 1.0)];

    d_send.send(sample_packet()).unwrap();
    settle(&mut nodes);
    assert_eq!(
        c_recv.try_recv().unwrap(),
        Packet {
            pack_type: PacketType::Nack(Nack { fragment_index: 1, nack_type: NackType::Dropped }),
            routing_header: SourceRoutingHeader { hop_index: 1, hops: vec![11, 1] },
            session_id: 1,
        }
    );
}

fn fragment_forward() {
    let (d_send, d_recv) = unbounded();
    let (d2_send, d2_recv) = unbounded();
    let (_tx_cmd, rx_cmd) = unbounded();
    let neighbours = HashMap::from([(12, d2_send)]);
    let mut nodes = vec![Node::new(11, unbounded().0, rx_cmd, d_recv, neighbours, 0.0)];

    let mut msg = sample_packet();
    d_send.send(msg.clone()).unwrap();
    settle(&mut nodes);
    msg.routing_header.hop_index = 2;
    assert_eq!(d2_recv.try_recv().unwrap(), msg);
}

/// Floods the drones 11 to 14 from the client, and hands back the paths of the responses.
fn flooding_simple_topology(flood_request: FloodRequest) -> Vec<Vec<NodeId>> {
    let (c_send, c_recv) = unbounded();
    let (d_send, d_recv) = unbounded();
    let (d12_send, d12_recv) = unbounded();
    let (d13_send, d13_recv) = unbounded();
    let (d14_send, d14_recv) = unbounded();
    let (_tx_cmd, rx_cmd) = unbounded();
    let neighbours11 = HashMap::from([
        (12, d12_send),
        (13, d13_send.clone()),
        (14, d14_send.clone()),
        (1, c_send),
    ]);
    let neighbours12 = HashMap::from([(11, d_send.clone())]);
    let neighbours13 = HashMap::from([(11, d_send.clone()), (14, d14_send)]);
    let neighbours14 = HashMap::from([(11, d_send.clone()), (13, d13_send)]);
    let mut nodes = vec![
        Node::new(11, unbounded().0, rx_cmd.clone(), d_recv, neighbours11, 0.0),
        Node::new(12, unbounded().0, rx_cmd.clone(), d12_recv, neighbours12, 0.0),
        Node::new(13, unbounded().0, rx_cmd.clone(), d13_recv, neighbours13, 0.0),
        Node::new(14, unbounded().0, rx_cmd, d14_recv, neighbours14, 0.0),
    ];

    let msg =
        Packet::new_flood_request(SourceRoutingHeader::new(vec![], 15), 23, flood_request);
    d_send.send(msg).unwrap();
    settle(&mut nodes);

    let mut paths: Vec<Vec<NodeId>> = Vec::new();
    for _ in 0..3 {
        match c_recv.try_recv().unwrap().pack_type {
            PacketType::FloodResponse(f) => {
                assert_eq!(f.flood_id, 56);
                paths.push(f.path_trace.iter().map(|(id, _)| *id).collect());
            }
            _ => panic!("not a flood response"),
        }
    }
    assert!(c_recv.try_recv().is_err());
    paths.sort();
    paths
}

fn destination_is_drone() {
    let mut net = pair(true);
    let msg =
        Packet::new_fragment(SourceRoutingHeader::new(vec![1, 11, 12], 1), 56, fragment());
    net.d_send.send(msg).unwrap();
    settle(&mut net.nodes);
    assert_eq!(
        net.client.try_recv().unwrap(),
        Packet {
            routing_header: SourceRoutingHeader::new(vec![12, 11, 1], 2),
            pack_type: PacketType::Nack(Nack {
                fragment_index: 1,
                nack_type: NackType::DestinationIsDrone
            }),
            session_id: 56,
        }
    );
}

fn unexpected_recipient() {
    let mut net = pair(true);
    let msg =
        Packet::new_fragment(SourceRoutingHeader::new(vec![1, 45, 12], 1), 56, fragment());
    net.d_send.send(msg).unwrap();
    settle(&mut net.nodes);
    assert_eq!(
        net.client.try_recv().unwrap(),
        Packet {
            routing_header: SourceRoutingHeader::new(vec![45, 1], 1),
            pack_type: PacketType::Nack(Nack {
                fragment_index: 1,
                nack_type: NackType::UnexpectedRecipient(11)
            }),
            session_id: 56,
        }
    );
}

fn error_in_routing() {
    let mut net = pair(true);
    let msg =
        Packet::new_fragment(SourceRoutingHeader::new(vec![1, 11, 45], 1), 56, fragment());
    net.d_send.send(msg).unwrap();
    settle(&mut net.nodes);
    assert_eq!(
        net.client.try_recv().unwrap(),
        Packet {
            routing_header: SourceRoutingHeader::new(vec![11, 1], 1),
            pack_type: PacketType::Nack(Nack {
                fragment_index: 1,
                nack_type: NackType::ErrorInRouting(45)
            }),
            session_id: 56,
        }
    );
}

fn nack_error_in_routing() {
    let mut net = pair(true);
    let msg = Packet::new_nack(
        SourceRoutingHeader::new(vec![1, 11, 45], 1),
        56,
        Nack { fragment_index: 1, nack_type: NackType::Dropped },
    );
    net.d_send.send(msg).unwrap();
    settle(&mut net.nodes);
    assert_eq!(
        net.events.try_recv().unwrap(),
        DroneEvent::ControllerShortcut(Packet::new_nack(
            SourceRoutingHeader::new(vec![1, 11, 45], 1),
            56,
            Nack { fragment_index: 1, nack_type: NackType::Dropped }
        ))
    );
}

fn ack_error_in_routing() {
    let mut net = pair(true);
    let msg = Packet::new_ack(SourceRoutingHeader::new(vec![1, 11, 45], 1), 56, 1);
    net.d_send.send(msg).unwrap();
    settle(&mut net.nodes);
    assert_eq!(
        net.events.try_recv().unwrap(),
        DroneEvent::ControllerShortcut(Packet::new_ack(
            SourceRoutingHeader::new(vec![1, 11, 45], 1),
            56,
            1
        ))
    );
}

fn flood_response_error_in_routing() {
    let mut net = pair(true);
    let msg = Packet::new_flood_response(
        SourceRoutingHeader::new(vec![1, 11, 45], 1),
        56,
        FloodResponse {
            flood_id: 1,
            path_trace: vec![
                (80, NodeType::Drone),
                (90, NodeType::Drone),
                (99, NodeType::Drone),
            ],
        },
    );
    net.d_send.send(msg.clone()).unwrap();
    settle(&mut net.nodes);
    assert_eq!(net.events.try_recv().unwrap(), DroneEvent::ControllerShortcut(msg))
}

fn flood_message() -> Packet {
    Packet::new_flood_request(
        SourceRoutingHeader::new(vec![], 15),
        23,
        FloodRequest::initialize(56, 1, NodeType::Client),
    )
}

fn path_of_response(packet: Packet) -> Vec<(NodeId, NodeType)> {
    match packet.pack_type {
        PacketType::FloodResponse(f) => f.path_trace,
        _ => panic!("not a flood response"),
    }
}

fn add_new_drone() {
    let mut net = pair(false);
    net.commands.send(DroneCommand::AddSender(12, net.d12_send.clone())).unwrap();
    net.commands.send(DroneCommand::AddSender(1, net.client_send.clone())).unwrap();
    net.commands12.send(DroneCommand::AddSender(11, net.d_send.clone())).unwrap();
    net.d_send.send(flood_message()).unwrap();
    settle(&mut net.nodes);
    assert_eq!(
        path_of_response(net.client.try_recv().unwrap()),
        vec![(1, NodeType::Client), (11, NodeType::Drone), (12, NodeType::Drone)]
    );
}

fn remove_drone() {
    let mut net = pair(true);
    net.commands.send(DroneCommand::RemoveSender(12)).unwrap();
    net.commands12.send(DroneCommand::RemoveSender(11)).unwrap();
    net.d_send.send(flood_message()).unwrap();
    settle(&mut net.nodes);
    assert_eq!(
        path_of_response(net.client.try_recv().unwrap()),
        vec![(1, NodeType::Client), (11, NodeType::Drone)]
    );
    assert!(net.d12_recv.try_recv().is_err());
}

fn set_pdr() {
    let mut net = pair(true);
    net.commands.send(DroneCommand::SetPacketDropRate(Bernoulli::new(1.))).unwrap();
    let msg = Packet {
        pack_type: PacketType::MsgFragment(fragment()),
        routing_header: SourceRoutingHeader { hop_index: 1, hops: vec![1, 11, 12] },
        session_id: 56,
    };
    net.d_send.send(msg).unwrap();
    settle(&mut net.nodes);
    assert_eq!(
        net.client.try_recv().unwrap(),
        Packet {
            pack_type: PacketType::Nack(Nack { fragment_index: 1, nack_type: NackType::Dropped }),
            routing_header: SourceRoutingHeader { hop_index: 1, hops: vec![11, 1] },
            session_id: 56,
        }
    );
}

fn crash() {
    let (c_send, c_recv) = unbounded();
    let (d_send, d_recv) = unbounded();
    let (d12_send, d12_recv) = unbounded();
    let (d13_send, d13_recv) = unbounded();
    let (d14_send, d14_recv) = unbounded();
    let (d11_tx_cmd, d11_rx_cmd) = unbounded();
    let (_d12_tx_cmd, d12_rx_cmd) = unbounded();
    let (d13_tx_cmd, d13_rx_cmd) = unbounded();
    let (d14_tx_cmd, d14_rx_cmd) = unbounded();
    let neighbours11 =
        HashMap::from([(12, d12_send.clone()), (1, c_send), (14, d14_send.clone())]);
    let neighbours12 = HashMap::from([(11, d_send.clone()), (13, d13_send.clone())]);
    let neighbours13 = HashMap::from([(12, d12_send), (14, d14_send.clone())]);
    let neighbours14 = HashMap::from([(11, d_send.clone()), (13, d13_send)]);
    let mut nodes = vec![
        Node::new(11, unbounded().0, d11_rx_cmd, d_recv, neighbours11, 0.0),
        Node::new(12, unbounded().0, d12_rx_cmd, d12_recv, neighbours12, 0.0),
        Node::new(13, unbounded().0, d13_rx_cmd, d13_recv, neighbours13, 0.0),
        Node::new(14, unbounded().0, d14_rx_cmd, d14_recv, neighbours14, 0.0),
    ];

    d11_tx_cmd.send(DroneCommand::RemoveSender(14)).unwrap();
    d13_tx_cmd.send(DroneCommand::RemoveSender(14)).unwrap();
    d14_tx_cmd.send(DroneCommand::Crash).unwrap();
    d_send.send(flood_message()).unwrap();
    settle(&mut nodes);

    assert!(nodes[3].stopped);
    assert_eq!(
        c_recv.try_recv().unwrap(),
        Packet {
            pack_type: PacketType::FloodResponse(FloodResponse {
                flood_id: 56,
                path_trace: vec![
                    (1, NodeType::Client),
                    (11, NodeType::Drone),
                    (12, NodeType::Drone),
                    (13, NodeType::Drone)
                ]
            }),
            routing_header: SourceRoutingHeader { hop_index: 3, hops: vec![13, 12, 11, 1] },
            session_id: 23,
        }
    );
}

#[test]
fn test_chain_fragment_ack() {
    chain_fragment_ack();
}

#[test]
fn test_chain_fragment_drop() {
    chain_fragment_drop();
}

#[test]
fn test_flooding_simple_topology_with_initiator_in_path_trace() {
    assert_eq!(
        flooding_simple_topology(FloodRequest::initialize(56, 1, NodeType::Client)),
        vec![vec![1, 11, 12], vec![1, 11, 13, 14], vec![1, 11, 14, 13]]
    );
}

#[test]
fn test_flooding_simple_topology() {
    assert_eq!(
        flooding_simple_topology(FloodRequest::initialize(56, 1, NodeType::Client)).len(),
        3
    );
}

#[test]
fn test_flooding_simple_topology_without_initiator_in_path_trace() {
    let flood_request = FloodRequest { flood_id: 56, initiator_id: 1, path_trace: vec![] };
    assert_eq!(
        flooding_simple_topology(flood_request),
        vec![vec![11, 12], vec![11, 13, 14], vec![11, 14, 13]]
    );
}

#[test]
fn drone_test_test_fragment_drop() {
    fragment_drop();
}

#[test]
fn main_test_fragment_drop() {
    fragment_drop();
}

#[test]
fn drone_test_test_fragment_forward() {
    fragment_forward();
}

#[test]
fn main_test_fragment_forward() {
    fragment_forward();
}

#[test]
fn drone_test_test_destination_is_drone() {
    destination_is_drone();
}

#[test]
fn main_test_destination_is_drone() {
    destination_is_drone();
}

#[test]
fn drone_test_test_unexpected_recipient() {
    unexpected_recipient();
}

#[test]
fn main_test_unexpected_recipient() {
    unexpected_recipient();
}

#[test]
fn drone_test_test_error_in_routing() {
    error_in_routing();
}

#[test]
fn main_test_error_in_routing() {
    error_in_routing();
}

#[test]
fn drone_test_test_nack_error_in_routing() {
    nack_error_in_routing();
}

#[test]
fn main_test_nack_error_in_routing() {
    nack_error_in_routing();
}

#[test]
fn drone_test_test_ack_error_in_routing() {
    ack_error_in_routing();
}

#[test]
fn main_test_ack_error_in_routing() {
    ack_error_in_routing();
}

#[test]
fn drone_test_test_flood_response_error_in_routing() {
    flood_response_error_in_routing();
}

#[test]
fn main_test_flood_response_error_in_routing() {
    flood_response_error_in_routing();
}

#[test]
fn drone_test_test_add_new_drone() {
    add_new_drone();
}

#[test]
fn main_test_add_new_drone() {
    add_new_drone();
}

#[test]
fn drone_test_test_remove_drone() {
    remove_drone();
}

#[test]
fn main_test_remove_drone() {
    remove_drone();
}

#[test]
fn drone_test_test_set_pdr() {
    set_pdr();
}

#[test]
fn main_test_set_pdr() {
    set_pdr();
}

#[test]
fn drone_test_test_crash() {
    crash();
}

#[test]
fn main_test_crash() {
    crash();
}
