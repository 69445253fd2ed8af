use net_client::error::NodeError;
use net_client::graph::{NetGraph, Vertice};
use net_client::packet::NodeType;

fn v(id: u8, t: NodeType) -> Vertice {
    Vertice::new((id, t))
}

#[test]
fn test_vertice_new_and_type_mapping() {
    let v1 = v(1, NodeType::Client);
    assert_eq!(v1.get_node_type(), NodeType::Client);
    let v2 = v(2, NodeType::Drone);
    assert_eq!(v2.get_node_type(), NodeType::Drone);
    let v3 = v(3, NodeType::Server);
    assert_eq!(v3.get_node_type(), NodeType::Server);
}

#[test]
fn test_save_vertices_to_graph_inserts_once() {
    let mut graph = NetGraph::new(0);
    let vtx = v(1, NodeType::Drone);
    graph.save_vertices_to_graph(vtx);
    assert!(graph.contains_vertice(vtx));
    graph.save_vertices_to_graph(vtx);
    assert_eq!(graph.vertice_count(), 1);
}

#[test]
fn test_insert_edge_between_nodes_bidirectional() {
    let mut graph = NetGraph::new(0);
    graph.insert_edge_between_nodes((1, NodeType::Drone), (2, NodeType::Drone));
    assert!(graph.contains_edge(v(1, NodeType::Drone), v(2, NodeType::Drone)));
    assert!(graph.contains_edge(v(2, NodeType::Drone), v(1, NodeType::Drone)));
}

#[test]
fn test_add_route_stops_on_client_or_server() {
    let mut graph = NetGraph::new(0);
    // The client in the middle of the trace stops the walk before anything is added.
    graph.add_route(&vec![(1, NodeType::Drone), (2, NodeType::Client), (3, NodeType::Drone)]);
    assert!(graph.vertice_count() <= 1);
}

#[test]
fn add_route_stops_before_any_edge() {
    let mut graph = NetGraph::new(0);
    let report = graph.add_route(&vec![(1, NodeType::Drone), (2, NodeType::Client), (3, NodeType::Drone)]);
    assert_eq!(graph.vertice_count(), 0);
    assert!(!graph.contains_edge(v(1, NodeType::Drone), v(2, NodeType::Client)));
    assert!(!graph.contains_edge(v(2, NodeType::Client), v(3, NodeType::Drone)));
    assert_eq!(report.source, 0);
    assert!(report.nodes.is_empty());
}

#[test]
fn add_route_keeps_a_client_or_server_at_the_end() {
    let mut graph = NetGraph::new(9);
    graph.add_route(&vec![(9, NodeType::Client), (2, NodeType::Drone), (3, NodeType::Server)]);
    assert_eq!(graph.vertice_count(), 3);
    assert!(graph.contains_edge(v(2, NodeType::Drone), v(3, NodeType::Server)));
    let mut graph = NetGraph::new(9);
    graph.add_route(&vec![(1, NodeType::Drone), (2, NodeType::Drone), (3, NodeType::Server), (4, NodeType::Drone)]);
    assert_eq!(graph.vertice_count(), 2);
    assert!(graph.contains_edge(v(1, NodeType::Drone), v(2, NodeType::Drone)));
    assert!(!graph.contains_vertice(v(3, NodeType::Server)));
}

#[test]
fn add_route_is_mirrored_and_idempotent() {
    let trace = vec![(1, NodeType::Client), (2, NodeType::Drone), (3, NodeType::Drone), (4, NodeType::Server)];
    let mut graph = NetGraph::new(1);
    let first = graph.add_route(&trace);
    for (a, b) in [(1u8, 2u8), (2, 3), (3, 4)] {
        let ka = trace[(a - 1) as usize];
        let kb = trace[(b - 1) as usize];
        assert!(graph.contains_edge(v(ka.0, ka.1), v(kb.0, kb.1)));
        assert!(graph.contains_edge(v(kb.0, kb.1), v(ka.0, ka.1)));
    }
    assert_eq!(graph.vertice_count(), 4);
    let second = graph.add_route(&trace);
    assert_eq!(graph.vertice_count(), 4);
    assert_eq!(first.nodes.len(), second.nodes.len());
    let mut a: Vec<(u8, Vec<u8>)> = first.nodes.iter().map(|n| (n.node_id, sorted(&n.neighbors))).collect();
    let mut b: Vec<(u8, Vec<u8>)> = second.nodes.iter().map(|n| (n.node_id, sorted(&n.neighbors))).collect();
    a.sort();
    b.sort();
    assert_eq!(a, b);
    assert_eq!(a, vec![(1, vec![2]), (2, vec![1, 3]), (3, vec![2, 4]), (4, vec![3])]);
}

fn sorted(v: &[u8]) -> Vec<u8> {
    let mut v = v.to_vec();
    v.sort();
    v
}

#[test]
fn test_get_edge_nodes_filters_drones() {
    let mut graph = NetGraph::new(0);
    graph.save_vertices_to_graph(v(1, NodeType::Drone));
    graph.save_vertices_to_graph(v(2, NodeType::Server));
    let nodes = graph.get_edge_nodes().unwrap();
    assert_eq!(nodes.len(), 1);
    assert_eq!(nodes[0], (2, NodeType::Server));
}

#[test]
fn no_edge_nodes_when_only_relays() {
    let mut graph = NetGraph::new(0);
    assert_eq!(graph.get_edge_nodes(), None);
    graph.save_vertices_to_graph(v(1, NodeType::Drone));
    assert_eq!(graph.get_edge_nodes(), None);
}

#[test]
fn test_compute_and_random_routes() {
    let mut graph = NetGraph::new(0);
    graph.insert_edge_between_nodes((1, NodeType::Drone), (2, NodeType::Drone));
    graph.insert_edge_between_nodes((2, NodeType::Drone), (3, NodeType::Drone));
    let all_routes = graph.compute_routes(v(1, NodeType::Drone), v(3, NodeType::Drone));
    assert_eq!(all_routes, vec![vec![1, 2, 3]]);
    let random_route = graph.get_random_route(v(1, NodeType::Drone), v(3, NodeType::Drone));
    assert!(random_route.is_some());
}

#[test]
fn route_from_a_flood_trace() {
    let mut graph = NetGraph::new(0);
    graph.add_route(&vec![(1, NodeType::Drone), (2, NodeType::Drone), (3, NodeType::Server)]);
    let routes = graph.compute_routes(v(1, NodeType::Drone), v(3, NodeType::Server));
    assert_eq!(routes, vec![vec![1, 2, 3]]);
    assert_eq!(
        graph.get_random_route(v(1, NodeType::Drone), v(3, NodeType::Server)),
        Some(vec![1, 2, 3])
    );
}

#[test]
fn every_simple_path_is_offered() {
    let mut graph = NetGraph::new(1);
    graph.insert_edge_between_nodes((1, NodeType::Client), (2, NodeType::Drone));
    graph.insert_edge_between_nodes((1, NodeType::Client), (3, NodeType::Drone));
    graph.insert_edge_between_nodes((2, NodeType::Drone), (4, NodeType::Server));
    graph.insert_edge_between_nodes((3, NodeType::Drone), (4, NodeType::Server));
    graph.insert_edge_between_nodes((2, NodeType::Drone), (3, NodeType::Drone));
    let mut routes = graph.compute_routes(v(1, NodeType::Client), v(4, NodeType::Server));
    routes.sort();
    assert_eq!(
        routes,
        vec![vec![1, 2, 3, 4], vec![1, 2, 4], vec![1, 3, 2, 4], vec![1, 3, 4]]
    );
    for _ in 0..20 {
        let r = graph.get_random_route(v(1, NodeType::Client), v(4, NodeType::Server)).unwrap();
        assert!(routes.contains(&r));
    }
}

#[test]
fn no_route_between_unconnected_or_equal_vertices() {
    let mut graph = NetGraph::new(0);
    assert!(graph.compute_routes(v(1, NodeType::Drone), v(2, NodeType::Drone)).is_empty());
    graph.insert_edge_between_nodes((1, NodeType::Drone), (2, NodeType::Drone));
    graph.save_vertices_to_graph(v(5, NodeType::Server));
    assert_eq!(graph.get_random_route(v(1, NodeType::Drone), v(5, NodeType::Server)), None);
    assert!(graph.compute_routes(v(1, NodeType::Drone), v(1, NodeType::Drone)).is_empty());
    assert!(graph.compute_routes(v(1, NodeType::Drone), v(2, NodeType::Server)).is_empty());
}

#[test]
fn test_get_node_type_existing_and_missing() {
    let mut graph = NetGraph::new(0);
    graph.save_vertices_to_graph(v(5, NodeType::Server));
    assert_eq!(graph.get_node_type(5).unwrap(), NodeType::Server);
    let result = graph.get_node_type(99);
    assert!(result.is_err());
    assert_eq!(result, Err(NodeError::NotFound));
}

#[test]
fn reset_forgets_everything() {
    let mut graph = NetGraph::new(0);
    graph.insert_edge_between_nodes((1, NodeType::Drone), (2, NodeType::Drone));
    graph.reset();
    assert_eq!(graph.vertice_count(), 0);
    assert!(!graph.contains_edge(v(1, NodeType::Drone), v(2, NodeType::Drone)));
}

#[test]
fn topology_report_lists_neighbours() {
    let mut graph = NetGraph::new(7);
    let report = graph.add_route(&vec![(7, NodeType::Client), (2, NodeType::Drone)]);
    assert_eq!(report.source, 7);
    let mut nodes: Vec<(u8, NodeType, Vec<u8>)> = report
        .nodes
        .iter()
        .map(|n| (n.node_id, n.node_type, n.neighbors.clone()))
        .collect();
    nodes.sort_by_key(|n| n.0);
    assert_eq!(
        nodes,
        vec![(2, NodeType::Drone, vec![7]), (7, NodeType::Client, vec![2])]
    );
}

#[test]
fn each_route_is_listed_once() {
    let mut graph = NetGraph::new(0);
    graph.add_route(&vec![(1, NodeType::Drone), (2, NodeType::Drone), (3, NodeType::Drone)]);
    graph.add_route(&vec![(1, NodeType::Drone), (2, NodeType::Drone), (3, NodeType::Drone)]);
    assert_eq!(
        graph.compute_routes(v(1, NodeType::Drone), v(3, NodeType::Drone)),
        vec![vec![1, 2, 3]]
    );
}
