use overlay_server::packet::NodeType;
use overlay_server::topology::{
    RoutingError, Topology, ESTIMATED_UPDATE_TIME, NETWORK_SIZE, PDR_SCALE,
};

#[test]
fn test_topology_initialization() {
    let topo = Topology::new(1);
    assert_eq!(topo.size(), NETWORK_SIZE);
    assert_eq!(topo.size(), NETWORK_SIZE);
}

#[test]
fn test_insert_and_remove_edge() {
    let mut topo = Topology::new(2);
    topo.insert_edge((0, NodeType::Drone), (1, NodeType::Client));
    assert!(topo.has_edge(0, 1));
    assert!(topo.has_edge(1, 0));
    assert_eq!(topo.node_type(1), NodeType::Client);

    topo.remove_edge(0, 1);
    assert!(!topo.has_edge(0, 1));
    assert!(!topo.has_edge(1, 0));
}

#[test]
fn test_bfs_no_path_with_isolated_nodes() {
    let mut topo = Topology::new(2);
    topo.insert_edge((0, NodeType::Drone), (1, NodeType::Client));
    topo.insert_edge((2, NodeType::Server), (3, NodeType::Drone));

    let result = topo.bfs(0, 3);
    assert!(matches!(result, Err(RoutingError::NoPathFound)));
}

#[test]
fn test_observed_pdr_calculation() {
    let mut topo = Topology::new(1);
    topo.observe_success(0);
    topo.observe_failure(0);
    topo.observe_success(1);
    topo.observe_failure(1);

    let pdr_node_0 = topo.get_observed_pdr(0) as f64 / PDR_SCALE as f64;
    let pdr_node_1 = topo.get_observed_pdr(1) as f64 / PDR_SCALE as f64;

    assert_eq!(pdr_node_0, 1.0 / 2.0);
    assert_eq!(pdr_node_1, 1.0 / 2.0);
}

#[test]
fn test_valid_path_with_drones() {
    let mut topo = Topology::new(4);
    topo.insert_edge((0, NodeType::Client), (1, NodeType::Drone));
    topo.insert_edge((1, NodeType::Drone), (2, NodeType::Drone));
    topo.insert_edge((2, NodeType::Drone), (3, NodeType::Server));

    let path = topo.dijkstra(0, 3).expect("Path should exist");
    assert_eq!(path, vec![0, 1, 2, 3]);
}

#[test]
fn test_path_with_mixed_nodes() {
    let mut topo = Topology::new(3);
    topo.insert_edge((0, NodeType::Client), (1, NodeType::Drone));
    topo.insert_edge((1, NodeType::Drone), (2, NodeType::Drone));
    topo.insert_edge((2, NodeType::Drone), (3, NodeType::Server));
    topo.insert_edge((3, NodeType::Server), (4, NodeType::Client));

    // Not valid: Server -> Client with no Drone in the middle
    let result = topo.dijkstra(0, 4);
    assert!(matches!(result, Err(RoutingError::NoPathFound)));
}

#[test]
fn test_bfs_valid_path() {
    let mut topo = Topology::new(3);
    topo.insert_edge((0, NodeType::Client), (1, NodeType::Drone));
    topo.insert_edge((1, NodeType::Drone), (2, NodeType::Drone));
    topo.insert_edge((2, NodeType::Drone), (3, NodeType::Server));

    let path = topo.bfs(0, 3).expect("Path should exist");
    assert_eq!(path, vec![0, 1, 2, 3]);
}

#[test]
fn new_topology_is_empty_and_owner_is_server() {
    let topo = Topology::new(9);
    assert_eq!(topo.node_id(), 9);
    assert_eq!(topo.node_type(9), NodeType::Server);
    assert_eq!(topo.node_type(0), NodeType::Drone);
    assert_eq!(topo.node_type(255), NodeType::Drone);
    for a in 0..=255u8 {
        assert!(topo.neighbors(a).is_empty());
        assert_eq!(topo.successes(a), 1);
        assert_eq!(topo.failures(a), 1);
    }
    assert!(!topo.is_updating(0));
    assert!(!topo.is_updating(u64::MAX));
}

#[test]
fn owner_kind_is_protected() {
    let mut topo = Topology::new(5);
    topo.insert_edge((5, NodeType::Client), (6, NodeType::Client));
    assert_eq!(topo.node_type(5), NodeType::Server);
    assert_eq!(topo.node_type(6), NodeType::Client);
    topo.insert_edge((7, NodeType::Drone), (5, NodeType::Drone));
    assert_eq!(topo.node_type(5), NodeType::Server);
    assert!(topo.has_edge(5, 6) && topo.has_edge(6, 5));
    assert!(topo.has_edge(5, 7) && topo.has_edge(7, 5));
}

#[test]
fn no_node_is_linked_to_itself() {
    let mut topo = Topology::new(1);
    topo.insert_edge((4, NodeType::Client), (4, NodeType::Drone));
    assert!(!topo.has_edge(4, 4));
    assert_eq!(topo.node_type(4), NodeType::Drone);
    assert!(topo.neighbors(4).is_empty());
}

#[test]
fn adjacency_stays_symmetric() {
    let mut topo = Topology::new(0);
    let steps: [(u8, u8, bool); 8] = [
        (1, 2, true),
        (2, 3, true),
        (3, 1, true),
        (2, 1, false),
        (200, 255, true),
        (255, 0, true),
        (3, 2, false),
        (1, 2, true),
    ];
    for (a, b, insert) in steps {
        if insert {
            topo.insert_edge((a, NodeType::Drone), (b, NodeType::Drone));
        } else {
            topo.remove_edge(a, b);
        }
        for x in 0..=255u8 {
            for y in 0..=255u8 {
                assert_eq!(topo.has_edge(x, y), topo.has_edge(y, x));
            }
        }
    }
    assert!(topo.has_edge(1, 2));
    assert!(!topo.has_edge(2, 3));
    assert!(topo.has_edge(3, 1));
    assert!(topo.has_edge(0, 255));
}

#[test]
fn neighbors_are_listed_in_increasing_order() {
    let mut topo = Topology::new(0);
    topo.insert_edge((10, NodeType::Drone), (200, NodeType::Drone));
    topo.insert_edge((10, NodeType::Drone), (3, NodeType::Drone));
    topo.insert_edge((255, NodeType::Drone), (10, NodeType::Drone));
    topo.insert_edge((10, NodeType::Drone), (0, NodeType::Drone));
    assert_eq!(topo.neighbors(10), vec![0, 3, 200, 255]);
    assert_eq!(topo.neighbors(3), vec![10]);
    topo.remove_edge(10, 3);
    assert_eq!(topo.neighbors(10), vec![0, 200, 255]);
    assert!(topo.neighbors(3).is_empty());
}

#[test]
fn reset_clears_links_and_kinds_and_keeps_counters() {
    let mut topo = Topology::new(7);
    topo.insert_edge((7, NodeType::Server), (8, NodeType::Drone));
    topo.insert_edge((8, NodeType::Drone), (9, NodeType::Client));
    topo.observe_failure(8);
    topo.observe_failure(8);
    topo.observe_success(9);
    topo.reset(1_000);
    assert!(!topo.has_edge(7, 8));
    assert!(!topo.has_edge(8, 9));
    assert_eq!(topo.node_type(9), NodeType::Drone);
    assert_eq!(topo.node_type(7), NodeType::Server);
    assert_eq!(topo.failures(8), 3);
    assert_eq!(topo.successes(8), 1);
    assert_eq!(topo.successes(9), 2);
}

#[test]
fn is_updating_lasts_for_the_grace_period() {
    let mut topo = Topology::new(7);
    assert!(!topo.is_updating(5));
    topo.reset(1_000);
    assert!(topo.is_updating(1_000));
    assert!(topo.is_updating(1_000 + ESTIMATED_UPDATE_TIME - 1));
    assert!(!topo.is_updating(1_000 + ESTIMATED_UPDATE_TIME));
    assert!(!topo.is_updating(u64::MAX));
    // a clock that went backwards counts as no time passed
    assert!(topo.is_updating(999));
}

#[test]
fn observed_pdr_exact_values() {
    let mut topo = Topology::new(0);
    assert_eq!(topo.get_observed_pdr(3), PDR_SCALE / 2);
    topo.observe_failure(3);
    assert_eq!(topo.get_observed_pdr(3), ((2u128 * PDR_SCALE as u128) / 3) as u64);
    topo.observe_failure(3);
    assert_eq!(topo.get_observed_pdr(3), PDR_SCALE / 4 * 3);
    topo.observe_success(4);
    topo.observe_success(4);
    topo.observe_success(4);
    assert_eq!(topo.get_observed_pdr(4), PDR_SCALE / 5);
    assert_eq!(topo.successes(4), 4);
    assert_eq!(topo.failures(4), 1);
}

#[test]
fn source_equal_to_destination_is_an_error() {
    let mut topo = Topology::new(0);
    topo.insert_edge((0, NodeType::Server), (1, NodeType::Drone));
    assert_eq!(topo.dijkstra(0, 0), Err(RoutingError::SourceIsDest));
    assert_eq!(topo.bfs(0, 0), Err(RoutingError::SourceIsDest));
    assert_eq!(topo.dijkstra(200, 200), Err(RoutingError::SourceIsDest));
}

#[test]
fn no_route_in_an_empty_map() {
    let topo = Topology::new(0);
    assert_eq!(topo.dijkstra(0, 1), Err(RoutingError::NoPathFound));
    assert_eq!(topo.bfs(0, 1), Err(RoutingError::NoPathFound));
}

#[test]
fn direct_link_is_a_route() {
    let mut topo = Topology::new(0);
    topo.insert_edge((0, NodeType::Server), (1, NodeType::Client));
    assert_eq!(topo.dijkstra(0, 1), Ok(vec![0, 1]));
    assert_eq!(topo.dijkstra(1, 0), Ok(vec![1, 0]));
    assert_eq!(topo.bfs(0, 1), Ok(vec![0, 1]));
}

#[test]
fn routes_cross_drones_only() {
    // 0 - 1(client) - 3 and 0 - 2(drone) - 4(drone) - 3
    let mut topo = Topology::new(0);
    topo.insert_edge((0, NodeType::Server), (1, NodeType::Client));
    topo.insert_edge((1, NodeType::Client), (3, NodeType::Client));
    topo.insert_edge((0, NodeType::Server), (2, NodeType::Drone));
    topo.insert_edge((2, NodeType::Drone), (4, NodeType::Drone));
    topo.insert_edge((4, NodeType::Drone), (3, NodeType::Client));
    assert_eq!(topo.dijkstra(0, 3), Ok(vec![0, 2, 4, 3]));
    assert_eq!(topo.bfs(0, 3), Ok(vec![0, 2, 4, 3]));
}

/// Cost of a path by the formula, on the counters of the map.
fn cost_of(topo: &Topology, path: &[u8]) -> u64 {
    let mut cost: u128 = 0;
    for node in &path[1..] {
        let pdr = topo.get_observed_pdr(*node) as u128;
        cost = cost + ((PDR_SCALE as u128 - cost) * pdr) / PDR_SCALE as u128;
    }
    cost as u64
}

#[test]
fn path_cost_formula_exact_values() {
    let topo = Topology::new(0);
    // every node has drop rate one half
    assert_eq!(cost_of(&topo, &[0]), 0);
    assert_eq!(cost_of(&topo, &[0, 1]), PDR_SCALE / 2);
    assert_eq!(cost_of(&topo, &[0, 1, 2]), PDR_SCALE / 4 * 3);
    assert_eq!(cost_of(&topo, &[0, 1, 2, 3]), PDR_SCALE / 8 * 7);
}

#[test]
fn route_avoids_the_lossy_drone() {
    // two parallel ways from 1 to 4: through 2 and through 3
    let mut topo = Topology::new(1);
    topo.insert_edge((1, NodeType::Server), (2, NodeType::Drone));
    topo.insert_edge((1, NodeType::Server), (3, NodeType::Drone));
    topo.insert_edge((2, NodeType::Drone), (4, NodeType::Client));
    topo.insert_edge((3, NodeType::Drone), (4, NodeType::Client));
    // with equal counters the way through the higher identifier is taken
    assert_eq!(topo.dijkstra(1, 4), Ok(vec![1, 3, 4]));
    for _ in 0..5 {
        topo.observe_failure(3);
    }
    assert_eq!(topo.dijkstra(1, 4), Ok(vec![1, 2, 4]));
    for _ in 0..20 {
        topo.observe_failure(2);
    }
    assert_eq!(topo.dijkstra(1, 4), Ok(vec![1, 3, 4]));
}

#[test]
fn longer_route_wins_when_it_drops_less() {
    // 0 - 1 - 9 against 0 - 2 - 3 - 9
    let mut topo = Topology::new(0);
    topo.insert_edge((0, NodeType::Server), (1, NodeType::Drone));
    topo.insert_edge((1, NodeType::Drone), (9, NodeType::Client));
    topo.insert_edge((0, NodeType::Server), (2, NodeType::Drone));
    topo.insert_edge((2, NodeType::Drone), (3, NodeType::Drone));
    topo.insert_edge((3, NodeType::Drone), (9, NodeType::Client));
    assert_eq!(topo.dijkstra(0, 9), Ok(vec![0, 1, 9]));
    for _ in 0..50 {
        topo.observe_failure(1);
        topo.observe_success(2);
        topo.observe_success(3);
    }
    let found = topo.dijkstra(0, 9).expect("a route exists");
    assert_eq!(found, vec![0, 2, 3, 9]);
    assert!(cost_of(&topo, &found) < cost_of(&topo, &[0, 1, 9]));
    // breadth first still takes the way with fewer nodes
    assert_eq!(topo.bfs(0, 9), Ok(vec![0, 1, 9]));
}

/// Every path without repeated nodes from `path`'s end to `dest` whose inner
/// nodes are drones, by exhaustive search.
fn all_routes(topo: &Topology, path: &mut Vec<u8>, dest: u8, out: &mut Vec<Vec<u8>>) {
    let last = *path.last().expect("a path has a first node");
    for next in topo.neighbors(last) {
        if path.contains(&next) {
            continue;
        }
        if next == dest {
            let mut route = path.clone();
            route.push(next);
            out.push(route);
        } else if topo.node_type(next) == NodeType::Drone {
            path.push(next);
            all_routes(topo, path, dest, out);
            path.pop();
        }
    }
}

#[test]
fn returned_route_is_valid_and_cheapest() {
    let mut topo = Topology::new(0);
    let links: [(u8, u8); 12] = [
        (0, 1),
        (0, 2),
        (1, 2),
        (1, 3),
        (2, 4),
        (3, 4),
        (3, 5),
        (4, 5),
        (4, 6),
        (5, 7),
        (6, 7),
        (2, 6),
    ];
    for (a, b) in links {
        topo.insert_edge((a, NodeType::Drone), (b, NodeType::Drone));
    }
    topo.insert_edge((7, NodeType::Drone), (8, NodeType::Client));
    let seen: [(u8, u64, u64); 7] =
        [(1, 3, 9), (2, 10, 1), (3, 1, 0), (4, 2, 7), (5, 6, 6), (6, 9, 2), (7, 1, 1)];
    for (node, good, bad) in seen {
        for _ in 0..good {
            topo.observe_success(node);
        }
        for _ in 0..bad {
            topo.observe_failure(node);
        }
    }
    let found = topo.dijkstra(0, 8).expect("a route exists");
    assert_eq!(found.first(), Some(&0));
    assert_eq!(found.last(), Some(&8));
    for pair in found.windows(2) {
        assert!(topo.has_edge(pair[0], pair[1]));
    }
    for inner in &found[1..found.len() - 1] {
        assert_eq!(topo.node_type(*inner), NodeType::Drone);
    }
    let mut routes = Vec::new();
    all_routes(&topo, &mut vec![0], 8, &mut routes);
    assert!(routes.contains(&found));
    let best = routes.iter().map(|r| cost_of(&topo, r)).min().expect("routes exist");
    assert_eq!(cost_of(&topo, &found), best);
    assert_eq!(found, vec![0, 2, 6, 7, 8]);
}

#[test]
fn counters_stop_at_the_top() {
    let mut topo = Topology::new(0);
    assert_eq!(topo.successes(1), 1);
    topo.observe_success(1);
    assert_eq!(topo.successes(1), 2);
    assert_eq!(topo.failures(1), 1);
}
