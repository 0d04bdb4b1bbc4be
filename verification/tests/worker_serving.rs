use pathfinder::domain::{NodeInfo, PathPoint, PathRequest};
use pathfinder::graph::{Continuation, Graph, GraphError};
use pathfinder::graph_provider::{RawNode, RawVertex};
use pathfinder::routes::PathResult;
use pathfinder::worker::{
    find_start, open_request, search, Action, DropReason, Event, Outcome, Serving,
};

fn node(id: u64, region: u32) -> RawNode {
    RawNode { id, cord_x: id, cord_y: 2 * id, region }
}

fn edge(id: u64, a: u64, b: u64, weight: u64, bits: &str) -> RawVertex {
    RawVertex { id, a, b, weight, region_bits: bits.to_string() }
}

fn point(id: u64, region: u32) -> PathPoint {
    PathPoint::new(id, region, id, 2 * id)
}

fn graph(nodes: Vec<RawNode>, edges: Vec<RawVertex>, region: u32) -> Graph {
    Graph::from_rows(&nodes, &edges, region).unwrap()
}

fn region_zero() -> Graph {
    graph(
        vec![node(1, 0), node(2, 0), node(3, 0)],
        vec![edge(1, 1, 2, 2, "01"), edge(2, 2, 3, 3, "01"), edge(3, 3, 4, 2, "01")],
        0,
    )
}

fn region_one() -> Graph {
    graph(vec![node(4, 1), node(5, 1)], vec![edge(7, 4, 5, 3, "10")], 1)
}

fn request(source: NodeInfo, target: NodeInfo, visited: Vec<u32>) -> PathRequest {
    PathRequest::new(12, source, target, source.0, vec![], 0, visited)
}

fn ids(path: &[PathPoint]) -> Vec<u64> {
    path.iter().map(|p| p.id).collect()
}

fn freed(action: Action) -> Outcome {
    match action {
        Action::Free(_, outcome) => outcome,
        other => panic!("worker not freed: {:?}", other),
    }
}

#[test]
fn single_region_local_path() {
    let graphs = vec![graph(
        vec![node(1, 0), node(2, 0), node(3, 0)],
        vec![edge(1, 1, 2, 5, ""), edge(2, 2, 3, 7, "")],
        0,
    )];
    let (serving, action) =
        Serving::begin(&graphs, 3, request(NodeInfo(1, 0), NodeInfo(3, 0), vec![]));
    let reply = match action {
        Action::Reply(reply) => reply,
        other => panic!("no reply: {:?}", other),
    };
    assert_eq!(reply.path, vec![point(1, 0), point(2, 0), point(3, 0)]);
    assert_eq!(reply.cost, 12);
    assert_eq!(reply.visited_regions, Vec::<u32>::new());
    assert_eq!(reply.last, 3);
    assert_eq!(reply.request_id, 12);
    assert!(!serving.is_finished());
    let (serving, action) = serving.step(Event::Sent);
    assert!(serving.is_finished());
    assert!(matches!(action, Action::Free(3, Outcome::Replied)));
}

#[test]
fn two_region_forward() {
    let at_a = vec![region_zero()];
    let (serving, action) =
        Serving::begin(&at_a, 0, request(NodeInfo(1, 0), NodeInfo(5, 1), vec![]));
    assert!(matches!(action, Action::ResolveRegion(4)));
    let (serving, action) = serving.step(Event::RegionResolved(1));
    assert!(matches!(action, Action::ResolveServer(1)));
    let (serving, action) = serving.step(Event::ServerResolved(20));
    let forwarded = match action {
        Action::Forward(20, forwarded) => forwarded,
        other => panic!("nothing sent on: {:?}", other),
    };
    assert_eq!(forwarded.last, 4);
    assert_eq!(forwarded.cost, 5 + 2);
    assert_eq!(forwarded.visited_regions, vec![1]);
    assert_eq!(ids(&forwarded.path), vec![1, 2, 3]);
    assert_eq!(forwarded.request_id, 12);
    let (serving, action) = serving.step(Event::Sent);
    assert!(serving.is_finished());
    assert_eq!(freed(action), Outcome::Forwarded(1));

    let at_b = vec![region_one()];
    let (_, action) = Serving::begin(&at_b, 1, forwarded);
    let reply = match action {
        Action::Reply(reply) => reply,
        other => panic!("no reply: {:?}", other),
    };
    assert_eq!(ids(&reply.path), vec![1, 2, 3, 4, 5]);
    assert_eq!(reply.cost, 7 + 3);
    assert_eq!(reply.last, 5);
    assert_eq!(reply.visited_regions, vec![1]);
}

#[test]
fn cycle_prevention() {
    let at_b = vec![graph(
        vec![node(4, 1), node(5, 1)],
        vec![edge(7, 4, 5, 3, "111"), edge(8, 5, 3, 1, "111")],
        1,
    )];
    let came = PathRequest::new(
        12,
        NodeInfo(1, 0),
        NodeInfo(9, 2),
        4,
        vec![point(1, 0), point(2, 0), point(3, 0)],
        7,
        vec![0, 1],
    );
    let (serving, action) = Serving::begin(&at_b, 0, came);
    assert!(matches!(action, Action::ResolveRegion(3)));
    let (serving, action) = serving.step(Event::RegionResolved(0));
    assert!(serving.is_finished());
    assert_eq!(freed(action), Outcome::Forwarded(0));
}

#[test]
fn known_region_that_was_visited_is_passed_over() {
    let graphs = vec![graph(
        vec![node(1, 0), node(4, 1), node(6, 2)],
        vec![edge(1, 1, 4, 2, "111"), edge(2, 1, 6, 5, "111")],
        0,
    )];
    let (_, action) =
        Serving::begin(&graphs, 0, request(NodeInfo(1, 0), NodeInfo(9, 2), vec![1]));
    assert!(matches!(action, Action::ResolveServer(2)));
}

#[test]
fn multiple_possibilities() {
    let graphs = vec![graph(
        vec![node(2, 0)],
        vec![edge(1, 2, 11, 4, "01"), edge(2, 2, 10, 3, "01")],
        0,
    )];
    let (serving, action) =
        Serving::begin(&graphs, 0, request(NodeInfo(2, 0), NodeInfo(50, 1), vec![]));
    assert!(matches!(action, Action::ResolveRegion(10)));
    let (serving, action) = serving.step(Event::RegionResolved(1));
    assert!(matches!(action, Action::ResolveServer(1)));
    let (serving, action) = serving.step(Event::ServerResolved(7));
    assert!(matches!(action, Action::ResolveRegion(11)));
    let (serving, action) = serving.step(Event::RegionResolved(1));
    assert!(matches!(action, Action::ResolveServer(1)));
    let (serving, action) = serving.step(Event::ServerResolved(7));
    let first = match action {
        Action::Forward(7, out) => out,
        other => panic!("nothing sent on: {:?}", other),
    };
    assert_eq!((first.last, first.cost), (10, 3));
    let (serving, action) = serving.step(Event::Sent);
    let second = match action {
        Action::Forward(7, out) => out,
        other => panic!("nothing sent on: {:?}", other),
    };
    assert_eq!((second.last, second.cost), (11, 4));
    assert_eq!(second.visited_regions, vec![1]);
    let (serving, action) = serving.step(Event::Sent);
    assert!(serving.is_finished());
    assert_eq!(freed(action), Outcome::Forwarded(2));
}

#[test]
fn unknown_next_region() {
    let graphs = vec![graph(vec![node(1, 0)], vec![edge(1, 1, 30, 6, "001")], 0)];
    let (serving, action) =
        Serving::begin(&graphs, 0, request(NodeInfo(1, 0), NodeInfo(50, 2), vec![]));
    assert!(matches!(action, Action::ResolveRegion(30)));
    let (serving, action) = serving.step(Event::RegionResolved(2));
    assert!(matches!(action, Action::ResolveServer(2)));
    let (_, action) = serving.step(Event::ServerResolved(99));
    match action {
        Action::Forward(99, out) => {
            assert_eq!(out.last, 30);
            assert_eq!(out.cost, 6);
            assert_eq!(out.visited_regions, vec![2]);
            assert_eq!(ids(&out.path), vec![1]);
        }
        other => panic!("nothing sent on: {:?}", other),
    }
}

#[test]
fn stitched_node_is_sent_on_with_its_region() {
    let graphs = vec![graph(
        vec![node(1, 0), node(4, 1)],
        vec![edge(1, 1, 4, 2, "01")],
        0,
    )];
    let (serving, action) =
        Serving::begin(&graphs, 0, request(NodeInfo(1, 0), NodeInfo(5, 1), vec![]));
    assert!(matches!(action, Action::ResolveServer(1)));
    let (_, action) = serving.step(Event::ServerResolved(8));
    match action {
        Action::Forward(8, out) => {
            assert_eq!(out.last, 4);
            assert_eq!(out.cost, 2);
            assert_eq!(ids(&out.path), vec![1, 4]);
            assert_eq!(out.visited_regions, vec![1]);
        }
        other => panic!("nothing sent on: {:?}", other),
    }
}

#[test]
fn request_for_a_node_that_is_not_served() {
    let graphs = vec![region_zero()];
    let (serving, action) =
        Serving::begin(&graphs, 5, request(NodeInfo(77, 0), NodeInfo(3, 0), vec![]));
    assert!(serving.is_finished());
    assert!(matches!(
        action,
        Action::Free(5, Outcome::Dropped(DropReason::NotServed))
    ));
}

#[test]
fn failed_search_frees_the_worker() {
    let graphs = vec![graph(vec![node(1, 0), node(2, 0)], vec![], 0)];
    let (serving, action) =
        Serving::begin(&graphs, 0, request(NodeInfo(1, 0), NodeInfo(2, 0), vec![]));
    assert!(serving.is_finished());
    assert_eq!(
        freed(action),
        Outcome::Dropped(DropReason::Search(GraphError::Unreachable(2, 0)))
    );
}

#[test]
fn failures_free_the_worker() {
    let start = || Serving::begin(
        &vec![region_zero()],
        0,
        request(NodeInfo(1, 0), NodeInfo(5, 1), vec![]),
    )
    .0;
    let (serving, action) = start().step(Event::Failed);
    assert!(serving.is_finished());
    assert_eq!(freed(action), Outcome::Dropped(DropReason::Directory));

    let (serving, _) = start().step(Event::RegionResolved(1));
    let (serving, action) = serving.step(Event::Failed);
    assert!(serving.is_finished());
    assert_eq!(freed(action), Outcome::Dropped(DropReason::Directory));

    let (serving, _) = start().step(Event::RegionResolved(1));
    let (serving, _) = serving.step(Event::ServerResolved(20));
    let (serving, action) = serving.step(Event::Failed);
    assert!(serving.is_finished());
    assert_eq!(freed(action), Outcome::Dropped(DropReason::Transport));

    let (serving, action) = start().step(Event::Sent);
    assert!(serving.is_finished());
    assert_eq!(freed(action), Outcome::Dropped(DropReason::Unexpected));
    let (_, action) = serving.step(Event::Sent);
    assert_eq!(freed(action), Outcome::Dropped(DropReason::Unexpected));

    let (serving, _) =
        Serving::begin(&vec![region_one()], 0, request(NodeInfo(4, 1), NodeInfo(5, 1), vec![]));
    let (serving, action) = serving.step(Event::Failed);
    assert!(serving.is_finished());
    assert_eq!(freed(action), Outcome::Dropped(DropReason::Transport));
}

#[test]
fn cost_that_does_not_fit_drops_the_request() {
    let came = PathRequest::new(1, NodeInfo(1, 0), NodeInfo(5, 1), 4, vec![], u64::MAX - 2, vec![]);
    let (serving, action) = Serving::begin(&vec![region_one()], 0, came);
    assert!(serving.is_finished());
    assert_eq!(freed(action), Outcome::Dropped(DropReason::CostOverflow));

    let came = PathRequest::new(1, NodeInfo(1, 0), NodeInfo(5, 1), 1, vec![], u64::MAX - 2, vec![]);
    let (serving, action) = Serving::begin(&vec![region_zero()], 0, came);
    assert!(matches!(action, Action::ResolveRegion(4)));
    let (serving, action) = serving.step(Event::RegionResolved(1));
    assert!(serving.is_finished());
    assert_eq!(freed(action), Outcome::Dropped(DropReason::CostOverflow));
}

#[test]
fn a_reached_target_ends_the_dealing() {
    let results = vec![
        PathResult::Continue(vec![point(1, 0)], 1, Continuation::CRegionKnown(4, 1)),
        PathResult::TargetReached(vec![point(1, 0), point(2, 0)], 4),
        PathResult::Continue(vec![point(1, 0)], 5, Continuation::CRegionKnown(6, 2)),
    ];
    let (serving, action) =
        Serving::with_results(2, request(NodeInfo(1, 0), NodeInfo(2, 0), vec![1]), results);
    match action {
        Action::Reply(reply) => {
            assert_eq!(reply.cost, 4);
            assert_eq!(reply.last, 2);
            assert_eq!(ids(&reply.path), vec![1, 2]);
        }
        other => panic!("no reply: {:?}", other),
    }
    let (serving, action) = serving.step(Event::Sent);
    assert!(serving.is_finished());
    assert_eq!(freed(action), Outcome::Replied);
}

#[test]
fn start_graph_is_the_one_that_owns_the_node() {
    let stitched = graph(vec![node(1, 0), node(4, 1)], vec![edge(1, 1, 4, 2, "01")], 0);
    let graphs = vec![stitched, region_one(), region_one()];
    assert_eq!(find_start(&graphs, 4), Some(1));
    assert_eq!(find_start(&graphs, 1), Some(0));
    assert_eq!(find_start(&graphs, 5), Some(1));
    assert_eq!(find_start(&graphs, 9), None);
    let only_stitched = vec![region_zero(), graph(vec![node(4, 1)], vec![], 0)];
    assert_eq!(find_start(&only_stitched, 4), Some(1));
}

#[test]
fn search_picks_by_the_targets_region() {
    let g = region_zero();
    let local = search(&g, &request(NodeInfo(1, 0), NodeInfo(3, 0), vec![])).unwrap();
    assert_eq!(local.len(), 1);
    assert!(matches!(&local[0], PathResult::TargetReached(path, 5) if path.len() == 3));
    let out = search(&g, &request(NodeInfo(1, 0), NodeInfo(3, 1), vec![])).unwrap();
    assert_eq!(out.len(), 1);
    assert!(matches!(&out[0], PathResult::Continue(_, 7, Continuation::CRegionUnknown(4))));
}

#[test]
fn question_without_a_frontier_starts_at_the_source() {
    let graphs = vec![region_zero()];
    let opened = open_request(&graphs, 5, NodeInfo(1, 0), NodeInfo(3, 0), vec![2]).unwrap();
    assert_eq!(opened.request_id, 5);
    assert_eq!(opened.last, 1);
    assert_eq!(opened.path, vec![point(1, 0)]);
    assert_eq!(opened.cost, 0);
    assert_eq!(opened.visited_regions, vec![2]);
    assert!(open_request(&graphs, 5, NodeInfo(9, 0), NodeInfo(3, 0), vec![]).is_none());
}
