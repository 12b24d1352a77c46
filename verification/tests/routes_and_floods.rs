use ap2024_unitn_cppenjoyers_drone::flood_history::FloodHistory;
use ap2024_unitn_cppenjoyers_drone::network::{NodeId, SourceRoutingHeader};
use ap2024_unitn_cppenjoyers_drone::networking::flooder::Flooder;
use ap2024_unitn_cppenjoyers_drone::packet::{
    FloodRequest, FloodResponse, NodeType, Packet, PacketType,
};

#[test]
fn a_route_knows_its_current_and_previous_hop() {
    let mut route = SourceRoutingHeader::new(vec![1, 11, 12], 0);
    assert_eq!(route.current_hop(), Some(1));
    assert_eq!(route.previous_hop(), None);
    route.increase_hop_index();
    route.increase_hop_index();
    route.increase_hop_index();
    assert_eq!(route.hop_index, 3);
    assert_eq!(route.current_hop(), None);
    assert_eq!(route.previous_hop(), Some(12));
    route.increase_hop_index();
    assert_eq!(route.previous_hop(), None);
    route.decrease_hop_index();
    assert_eq!(route, SourceRoutingHeader::new(vec![1, 11, 12], 3));
}

#[test]
fn a_route_turns_back_where_it_can() {
    let route = SourceRoutingHeader::new(vec![1, 11, 12, 21], 3);
    assert_eq!(route.turn_back(), Some(SourceRoutingHeader::new(vec![12, 11, 1], 1)));
    let whole = SourceRoutingHeader::new(vec![1, 11], 2);
    assert_eq!(whole.turn_back(), Some(SourceRoutingHeader::new(vec![11, 1], 1)));
    assert_eq!(
        SourceRoutingHeader::new(vec![1], 0).turn_back(),
        Some(SourceRoutingHeader::new(vec![], 1))
    );
    assert_eq!(SourceRoutingHeader::new(vec![1, 11], 3).turn_back(), None);
}

#[test]
fn a_response_goes_back_along_the_path() {
    let mut request = FloodRequest::initialize(8, 1, NodeType::Server);
    request.increment(11, NodeType::Drone);
    let response = request.generate_response(5);
    assert_eq!(response.routing_header, SourceRoutingHeader::new(vec![11, 1], 0));
    assert_eq!(response.session_id, 5);
    assert_eq!(
        response.pack_type,
        PacketType::FloodResponse(FloodResponse {
            flood_id: 8,
            path_trace: vec![(1, NodeType::Server), (11, NodeType::Drone)],
        })
    );

    let anonymous = FloodRequest {
        flood_id: 8,
        initiator_id: 1,
        path_trace: vec![(11, NodeType::Drone), (12, NodeType::Drone)],
    };
    assert_eq!(anonymous.sender(), 12);
    assert_eq!(
        anonymous.generate_response(5).routing_header,
        SourceRoutingHeader::new(vec![12, 11, 1], 0)
    );
}

#[test]
fn a_copy_of_a_packet_is_equal_to_it() {
    let request = FloodRequest::initialize(8, 1, NodeType::Client);
    let packet =
        Packet::new_flood_request(SourceRoutingHeader::new(vec![1, 2], 1), 9, request.clone());
    assert_eq!(packet.clone(), packet);
    assert_eq!(request.generate_response(3).clone(), request.generate_response(3));
}

#[test]
fn a_history_keeps_initiators_apart() {
    let mut history = FloodHistory::with_capacity(2);
    history.insert((1, 10));
    history.insert((2, 10));
    history.insert((1, 11));
    assert!(history.contains((1, 10)));
    history.insert((1, 12));
    assert!(!history.contains((1, 10)));
    assert!(history.contains((1, 11)));
    assert!(history.contains((1, 12)));
    assert!(history.contains((2, 10)));
    assert!(!history.contains((2, 11)));
    assert!(!history.contains((3, 10)));
}

struct Client {
    neighbours: Vec<NodeId>,
    floods: Vec<(u8, u64)>,
}

impl Flooder for Client {
    const ID: u8 = 4;
    const NODE_TYPE: NodeType = NodeType::Client;

    fn get_neighbours(&self) -> Vec<NodeId> {
        self.neighbours.clone()
    }

    fn has_seen_flood(&self, flood_id: (u8, u64)) -> bool {
        self.floods.contains(&flood_id)
    }

    fn insert_flood(&mut self, flood_id: (u8, u64)) {
        self.floods.push(flood_id);
    }
}

#[test]
fn a_flooder_passes_a_flood_on_once_and_then_answers() {
    let mut client = Client { neighbours: vec![11, 12, 13], floods: vec![] };
    let route = SourceRoutingHeader::new(vec![], 0);
    let request = FloodRequest::initialize(8, 12, NodeType::Server);
    let mut visited = request.clone();
    visited.increment(4, NodeType::Client);
    let passed_on = Packet::new_flood_request(route.clone(), 6, visited.clone());
    assert_eq!(
        client.handle_flood_request(route.clone(), 6, request.clone()),
        Ok(vec![(11, passed_on.clone()), (13, passed_on)])
    );
    assert_eq!(client.floods, vec![(12, 8)]);

    let mut response = visited.generate_response(6);
    response.routing_header.increase_hop_index();
    assert_eq!(
        client.handle_flood_request(route.clone(), 6, request),
        Ok(vec![(12, response)])
    );
    assert_eq!(client.floods, vec![(12, 8)]);
}

#[test]
fn a_flooder_with_one_neighbour_answers_and_reports_a_missing_one() {
    let mut client = Client { neighbours: vec![12], floods: vec![] };
    let route = SourceRoutingHeader::new(vec![], 0);
    let request = FloodRequest::initialize(8, 12, NodeType::Server);
    let packets = client.handle_flood_request(route.clone(), 6, request).unwrap();
    assert_eq!(packets.len(), 1);
    assert_eq!(packets[0].0, 12);
    assert_eq!(packets[0].1.routing_header, SourceRoutingHeader::new(vec![4, 12], 1));

    let strange = FloodRequest::initialize(9, 13, NodeType::Server);
    assert_eq!(client.handle_flood_request(route, 6, strange), Err(()));
    assert!(client.floods.is_empty());
}
