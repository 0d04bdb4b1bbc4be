use pathfinder::domain::{NodeInfo, PathPoint};
use pathfinder::graph::{Continuation, Graph, GraphError, Node, Vertex};
use pathfinder::graph_provider::{parse_region_bits, LoadError, RawNode, RawVertex};
use pathfinder::routes::PathResult;
use std::collections::HashMap;

fn node(id: u64, region: u32) -> RawNode {
    RawNode { id, cord_x: id * 10, cord_y: id * 10 + 1, region }
}

fn edge(id: u64, a: u64, b: u64, weight: u64, bits: &str) -> RawVertex {
    RawVertex { id, a, b, weight, region_bits: bits.to_string() }
}

fn point(id: u64, region: u32) -> PathPoint {
    PathPoint::new(id, region, id * 10, id * 10 + 1)
}

fn graph(nodes: Vec<RawNode>, edges: Vec<RawVertex>, region: u32) -> Graph {
    Graph::from_rows(&nodes, &edges, region).unwrap()
}

fn line() -> Graph {
    graph(
        vec![node(1, 0), node(2, 0), node(3, 0)],
        vec![edge(100, 1, 2, 5, "10"), edge(101, 2, 3, 7, "10")],
        0,
    )
}

fn reached(result: Result<PathResult, GraphError>) -> (Vec<PathPoint>, u64) {
    match result {
        Ok(PathResult::TargetReached(path, cost)) => (path, cost),
        other => panic!("no path: {:?}", other),
    }
}

fn exits(result: Result<Vec<PathResult>, GraphError>) -> Vec<(Vec<u64>, u64, Continuation)> {
    let mut out = vec![];
    for item in result.unwrap() {
        match item {
            PathResult::Continue(path, cost, next) => {
                out.push((path.iter().map(|p| p.id).collect(), cost, next))
            }
            other => panic!("not a way out: {:?}", other),
        }
    }
    out
}

#[test]
fn local_path_along_a_line() {
    let (path, cost) = reached(line().find_way_local(NodeInfo(1, 0), NodeInfo(3, 0)));
    assert_eq!(path, vec![point(1, 0), point(2, 0), point(3, 0)]);
    assert_eq!(cost, 12);
}

#[test]
fn local_path_to_the_start_itself() {
    let (path, cost) = reached(line().find_way_local(NodeInfo(2, 0), NodeInfo(2, 0)));
    assert_eq!(path, vec![point(2, 0)]);
    assert_eq!(cost, 0);
}

#[test]
fn local_path_takes_the_cheaper_detour() {
    let g = graph(
        vec![node(1, 0), node(2, 0), node(3, 0)],
        vec![edge(1, 1, 2, 10, ""), edge(2, 1, 3, 1, ""), edge(3, 3, 2, 1, "")],
        0,
    );
    let (path, cost) = reached(g.find_way_local(NodeInfo(1, 0), NodeInfo(2, 0)));
    assert_eq!(path.iter().map(|p| p.id).collect::<Vec<_>>(), vec![1, 3, 2]);
    assert_eq!(cost, 2);
}

#[test]
fn local_path_among_equals_takes_the_first_found() {
    let g = graph(
        vec![node(1, 0), node(2, 0), node(3, 0), node(4, 0)],
        vec![
            edge(1, 1, 2, 1, ""),
            edge(2, 1, 3, 1, ""),
            edge(3, 2, 4, 1, ""),
            edge(4, 3, 4, 1, ""),
        ],
        0,
    );
    let (path, cost) = reached(g.find_way_local(NodeInfo(1, 0), NodeInfo(4, 0)));
    assert_eq!(path.iter().map(|p| p.id).collect::<Vec<_>>(), vec![1, 2, 4]);
    assert_eq!(cost, 2);
}

#[test]
fn local_path_is_the_same_on_every_run() {
    let first = reached(line().find_way_local(NodeInfo(1, 0), NodeInfo(3, 0)));
    for _ in 0..20 {
        assert_eq!(reached(line().find_way_local(NodeInfo(1, 0), NodeInfo(3, 0))), first);
    }
}

#[test]
fn local_path_crosses_a_zero_weight_edge() {
    let g = graph(
        vec![node(1, 0), node(2, 0), node(3, 0)],
        vec![edge(1, 1, 2, 0, ""), edge(2, 2, 3, 4, "")],
        0,
    );
    let (path, cost) = reached(g.find_way_local(NodeInfo(1, 0), NodeInfo(3, 0)));
    assert_eq!(path.len(), 3);
    assert_eq!(cost, 4);
}

#[test]
fn local_start_not_found() {
    assert_eq!(
        line().find_way_local(NodeInfo(9, 0), NodeInfo(3, 0)).unwrap_err(),
        GraphError::StartNodeNotFound(9, 0)
    );
}

#[test]
fn local_target_unreachable() {
    let g = graph(vec![node(1, 0), node(2, 0), node(3, 0)], vec![edge(1, 1, 2, 5, "")], 0);
    assert_eq!(
        g.find_way_local(NodeInfo(1, 0), NodeInfo(3, 0)).unwrap_err(),
        GraphError::Unreachable(3, 0)
    );
}

#[test]
fn local_target_outside_the_region_is_unreachable() {
    let g = graph(vec![node(1, 0)], vec![edge(1, 1, 7, 5, "")], 0);
    assert_eq!(
        g.find_way_local(NodeInfo(1, 0), NodeInfo(7, 4)).unwrap_err(),
        GraphError::Unreachable(7, 4)
    );
}

#[test]
fn local_cost_that_does_not_fit_is_unreachable() {
    let g = graph(
        vec![node(1, 0), node(2, 0), node(3, 0)],
        vec![edge(1, 1, 2, u64::MAX, ""), edge(2, 2, 3, 1, "")],
        0,
    );
    let (_, cost) = reached(g.find_way_local(NodeInfo(1, 0), NodeInfo(2, 0)));
    assert_eq!(cost, u64::MAX);
    assert_eq!(
        g.find_way_local(NodeInfo(1, 0), NodeInfo(3, 0)).unwrap_err(),
        GraphError::Unreachable(3, 0)
    );
}

#[test]
fn local_vertex_not_found() {
    let mut nodes = HashMap::new();
    nodes.insert(1, Node::new(vec![77], 1, 3, 0, 0));
    nodes.insert(2, Node::new(vec![], 2, 3, 0, 0));
    let vertices: HashMap<u64, Vertex> = HashMap::new();
    let g = Graph::new(nodes, vertices, 3);
    assert_eq!(
        g.find_way_local(NodeInfo(1, 3), NodeInfo(2, 3)).unwrap_err(),
        GraphError::VertexNotFound(77, 3)
    );
    assert_eq!(
        g.find_way(NodeInfo(1, 3), NodeInfo(2, 5)).unwrap_err(),
        GraphError::VertexNotFound(77, 3)
    );
}

#[test]
fn ways_out_come_cheapest_first() {
    let g = graph(
        vec![node(1, 0), node(2, 0)],
        vec![edge(1, 1, 2, 1, "01"), edge(2, 2, 11, 4, "01"), edge(3, 2, 10, 3, "01")],
        0,
    );
    assert_eq!(
        exits(g.find_way(NodeInfo(1, 0), NodeInfo(50, 1))),
        vec![
            (vec![1, 2], 4, Continuation::CRegionUnknown(10)),
            (vec![1, 2], 5, Continuation::CRegionUnknown(11)),
        ]
    );
}

#[test]
fn way_out_to_a_stitched_node_names_its_region() {
    let g = graph(
        vec![node(1, 0), node(2, 0), node(3, 0), node(4, 1)],
        vec![edge(1, 1, 2, 2, "01"), edge(2, 2, 3, 3, "01"), edge(3, 3, 4, 2, "01")],
        0,
    );
    assert_eq!(
        exits(g.find_way(NodeInfo(1, 0), NodeInfo(5, 1))),
        vec![(vec![1, 2, 3, 4], 7, Continuation::CRegionKnown(4, 1))]
    );
}

#[test]
fn way_out_only_along_hinted_edges() {
    let g = graph(
        vec![node(1, 0), node(2, 0)],
        vec![edge(1, 1, 2, 1, "011"), edge(2, 2, 10, 3, "010"), edge(3, 1, 11, 9, "001")],
        0,
    );
    assert_eq!(
        exits(g.find_way(NodeInfo(1, 0), NodeInfo(50, 1))),
        vec![(vec![1, 2], 4, Continuation::CRegionUnknown(10))]
    );
    assert_eq!(
        exits(g.find_way(NodeInfo(1, 0), NodeInfo(50, 2))),
        vec![(vec![1], 9, Continuation::CRegionUnknown(11))]
    );
    assert_eq!(exits(g.find_way(NodeInfo(1, 0), NodeInfo(50, 0))), vec![]);
}

#[test]
fn way_out_towards_a_region_past_the_hints() {
    let g = graph(vec![node(1, 0)], vec![edge(1, 1, 10, 3, "11")], 0);
    assert_eq!(exits(g.find_way(NodeInfo(1, 0), NodeInfo(50, 2))), vec![]);
    assert_eq!(exits(g.find_way(NodeInfo(1, 0), NodeInfo(50, 4_000_000_000))), vec![]);
}

#[test]
fn way_out_lists_each_node_once_at_its_least_cost() {
    let g = graph(
        vec![node(1, 0), node(2, 0), node(3, 0)],
        vec![
            edge(1, 1, 2, 1, "01"),
            edge(2, 1, 3, 5, "01"),
            edge(3, 2, 10, 10, "01"),
            edge(4, 3, 10, 1, "01"),
        ],
        0,
    );
    assert_eq!(
        exits(g.find_way(NodeInfo(1, 0), NodeInfo(50, 1))),
        vec![(vec![1, 3], 6, Continuation::CRegionUnknown(10))]
    );
}

#[test]
fn way_out_from_a_stitched_start() {
    let g = graph(vec![node(1, 0), node(4, 1)], vec![edge(1, 1, 4, 2, "111")], 0);
    assert_eq!(
        exits(g.find_way(NodeInfo(4, 0), NodeInfo(50, 2))),
        vec![(vec![4], 0, Continuation::CRegionKnown(4, 1))]
    );
}

#[test]
fn way_out_start_not_found() {
    assert_eq!(
        line().find_way(NodeInfo(9, 0), NodeInfo(3, 1)).unwrap_err(),
        GraphError::StartNodeNotFound(9, 0)
    );
}

#[test]
fn continuation_node() {
    assert_eq!(Continuation::CRegionKnown(4, 1).get_node_idx(), 4);
    assert_eq!(Continuation::CRegionUnknown(9).get_node_idx(), 9);
}

#[test]
fn region_bits_are_read() {
    assert_eq!(parse_region_bits("0110"), Some(vec![false, true, true, false]));
    assert_eq!(parse_region_bits(""), Some(vec![]));
    assert_eq!(parse_region_bits("01x"), None);
    assert_eq!(parse_region_bits("2"), None);
}

#[test]
fn edge_from_a_row() {
    let vertex = Vertex::from_raw(&edge(5, 1, 2, 9, "101")).unwrap();
    assert_eq!((vertex.id, vertex.a, vertex.b, vertex.weight), (5, 1, 2, 9));
    assert!(vertex.hints_at(0));
    assert!(!vertex.hints_at(1));
    assert!(vertex.hints_at(2));
    assert!(!vertex.hints_at(3));
    assert_eq!(vertex.get_neighbour(1), 2);
    assert_eq!(vertex.get_neighbour(2), 1);
    assert!(Vertex::from_raw(&edge(5, 1, 2, 9, "1a1")).is_none());
}

#[test]
fn graph_from_rows() {
    let g = graph(
        vec![node(1, 0), node(2, 0), RawNode { id: 1, cord_x: 7, cord_y: 8, region: 0 }],
        vec![edge(10, 1, 2, 5, "1"), edge(11, 2, 2, 1, "1"), edge(12, 9, 1, 1, "1")],
        0,
    );
    assert_eq!(g.region_idx(), 0);
    let one = g.get_node(1).unwrap();
    assert_eq!((one.cord_x, one.cord_y), (7, 8));
    assert_eq!(one.connections, vec![10, 12]);
    assert_eq!(g.get_node(2).unwrap().connections, vec![10, 11, 11]);
    assert!(g.get_node(9).is_none());
    assert_eq!(g.get_vertex(12).unwrap().weight, 1);
    assert!(g.get_vertex(13).is_none());
}

#[test]
fn graph_from_bad_rows() {
    let nodes = vec![node(1, 0), node(2, 0)];
    assert_eq!(
        Graph::from_rows(&nodes, &vec![edge(10, 1, 2, 5, "1"), edge(11, 1, 2, 5, "12")], 0)
            .unwrap_err(),
        LoadError::BadRegionBits(11)
    );
    assert_eq!(
        Graph::from_rows(&nodes, &vec![edge(10, 1, 2, 5, "1"), edge(10, 2, 1, 6, "1")], 0)
            .unwrap_err(),
        LoadError::DuplicateVertex(10)
    );
}

#[test]
fn errors_say_what_went_wrong() {
    assert_eq!(
        GraphError::StartNodeNotFound(7, 2).message(),
        "Starting node 7 cannot be found in region 2"
    );
    assert_eq!(
        GraphError::VertexNotFound(70, 0).message(),
        "Vertex 70 cannot be found in region 0"
    );
    assert_eq!(
        GraphError::Unreachable(18446744073709551615, 4294967295).message(),
        "Vertex 18446744073709551615 cannot be reached in region 4294967295"
    );
}
