use pathfinder::domain::{region_visited, NodeInfo, PathPoint, PathRequest};
use pathfinder::graph::Node;

fn sample() -> PathRequest {
    PathRequest::new(12, NodeInfo(1, 1), NodeInfo(100, 10), 1, vec![], 0, vec![])
}

#[test]
fn sample_request() {
    let mut request = sample();
    assert_eq!(request.request_id, 12);
    assert_eq!(request.source, NodeInfo(1, 1));
    assert_eq!(request.target, NodeInfo(100, 10));
    assert!(request.path.is_empty());
    assert_eq!(request.cost, 0);
    assert!(request.visited_regions.is_empty());
    println!("{:?}", request);

    let p1 = PathPoint::new(2, 1, 10, 0);
    let p2 = PathPoint::new(3, 1, 10, 3);
    request.path.push(p1);
    request.path.push(p2);
    assert_eq!(request.path, vec![p1, p2]);
    println!("{:?}", request);
}

#[test]
fn update_without_region_appends_and_adds() {
    let first = sample().update_without_region(vec![PathPoint::new(1, 1, 0, 0)], 1, 4);
    let next = first.update_without_region(
        vec![PathPoint::new(2, 1, 10, 0), PathPoint::new(3, 1, 10, 3)],
        3,
        7,
    );
    assert_eq!(next.request_id, 12);
    assert_eq!(next.source, NodeInfo(1, 1));
    assert_eq!(next.target, NodeInfo(100, 10));
    assert_eq!(next.last, 3);
    assert_eq!(next.cost, 11);
    assert_eq!(next.path.iter().map(|p| p.id).collect::<Vec<_>>(), vec![1, 2, 3]);
    assert!(next.visited_regions.is_empty());
    assert_eq!(first.cost, 4);
    assert_eq!(first.path.len(), 1);
}

#[test]
fn update_enters_the_region() {
    let first = sample().update(vec![PathPoint::new(1, 1, 0, 0)], 5, 2, 3);
    assert_eq!(first.visited_regions, vec![3]);
    assert_eq!(first.last, 5);
    assert_eq!(first.cost, 2);
    let second = first.update(vec![], 6, 1, 4);
    assert_eq!(second.visited_regions, vec![3, 4]);
    assert_eq!(second.cost, 3);
    let again = second.update(vec![], 7, 0, 3);
    assert_eq!(again.visited_regions, vec![3, 4]);
    assert_eq!(again.last, 7);
}

#[test]
fn cost_can_be_added_up_to_the_limit() {
    let request = PathRequest::new(1, NodeInfo(1, 0), NodeInfo(2, 0), 1, vec![], u64::MAX - 5, vec![]);
    assert!(request.can_add(5));
    assert!(!request.can_add(6));
    assert_eq!(request.update_without_region(vec![], 2, 5).cost, u64::MAX);
}

#[test]
fn last_node_of_the_path() {
    assert_eq!(sample().get_last_node(), None);
    let request = sample().update_without_region(
        vec![PathPoint::new(2, 1, 10, 0), PathPoint::new(3, 7, 10, 3)],
        3,
        0,
    );
    assert_eq!(request.get_last_node(), Some(NodeInfo(3, 7)));
}

#[test]
fn duplicate_is_equal() {
    let request = sample().update(vec![PathPoint::new(2, 1, 10, 0)], 2, 9, 5);
    let copy = request.duplicate();
    assert_eq!(copy.request_id, request.request_id);
    assert_eq!(copy.path, request.path);
    assert_eq!(copy.cost, request.cost);
    assert_eq!(copy.last, request.last);
    assert_eq!(copy.visited_regions, request.visited_regions);
}

#[test]
fn visited_regions_are_found() {
    assert!(region_visited(&vec![4, 2, 9], 9));
    assert!(!region_visited(&vec![4, 2, 9], 3));
    assert!(!region_visited(&vec![], 0));
}

#[test]
fn point_of_a_node() {
    let node = Node::new(vec![5, 6], 7, 2, 30, 40);
    assert_eq!(PathPoint::of_node(&node), PathPoint::new(7, 2, 30, 40));
    assert_eq!(PathPoint::from(node), PathPoint { id: 7, region_id: 2, cord_x: 30, cord_y: 40 });
}
