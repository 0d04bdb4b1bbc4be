//! The values that travel between servers: node references, path points and
//! the path request itself.

use crate::graph::{Node, NodeIdx, NodeView, RegionIdx};
use vstd::prelude::*;

verus! {

/// A node and the region that it lies in.
#[derive(Debug, Clone, Copy, PartialEq, Eq, Structural)]
pub struct NodeInfo(pub NodeIdx, pub RegionIdx);

/// A node on a path, with its place.
#[derive(Debug, Clone, Copy, Hash, PartialEq, Eq, Structural)]
pub struct PathPoint {
    pub id: NodeIdx,
    pub region_id: RegionIdx,
    pub cord_x: u64,
    pub cord_y: u64,
}

/// The point that stands for a node on a path.
pub open spec fn point_of(node: NodeView) -> PathPoint {
    PathPoint { id: node.id, region_id: node.region, cord_x: node.cord_x, cord_y: node.cord_y }
}

/// The ids of the nodes along a path.
pub open spec fn point_ids(path: Seq<PathPoint>) -> Seq<NodeIdx> {
    Seq::new(path.len(), |i: int| path[i].id)
}

impl PathPoint {
    pub fn new(id: NodeIdx, region_id: RegionIdx, cord_x: u64, cord_y: u64) -> (point: Self)
        ensures
            point == (PathPoint { id, region_id, cord_x, cord_y }),
    {
        Self { id, region_id, cord_x, cord_y }
    }

    /// The point of a node.
    pub fn of_node(node: &Node) -> (point: Self)
        ensures
            point == point_of(node@),
    {
        Self::new(node.id, node.region, node.cord_x, node.cord_y)
    }
}

impl From<Node> for PathPoint {
    fn from(node: Node) -> (point: Self) {
        PathPoint::of_node(&node)
    }
}

impl vstd::std_specs::convert::FromSpecImpl<Node> for PathPoint {
    open spec fn obeys_from_spec() -> bool {
        true
    }

    open spec fn from_spec(node: Node) -> Self {
        point_of(node@)
    }
}

/// A request for a path, as far as it has been answered.
///
/// `path` leads from the source to a node from which `last` is entered, and
/// `cost` is what that walk and the step to `last` weigh. `visited_regions`
/// holds the regions that the request was sent on to.
#[derive(Debug, Clone)]
pub struct PathRequest {
    pub request_id: u64,
    pub source: NodeInfo,
    pub target: NodeInfo,
    pub last: NodeIdx,
    pub path: Vec<PathPoint>,
    pub cost: u64,
    pub visited_regions: Vec<RegionIdx>,
}

/// The model of a path request.
pub ghost struct PathRequestView {
    pub request_id: u64,
    pub source: NodeInfo,
    pub target: NodeInfo,
    pub last: NodeIdx,
    pub path: Seq<PathPoint>,
    pub cost: u64,
    pub visited_regions: Seq<RegionIdx>,
}

impl View for PathRequest {
    type V = PathRequestView;

    open spec fn view(&self) -> PathRequestView {
        PathRequestView {
            request_id: self.request_id,
            source: self.source,
            target: self.target,
            last: self.last,
            path: self.path@,
            cost: self.cost,
            visited_regions: self.visited_regions@,
        }
    }
}

impl PathRequestView {
    /// The request after a search added `suffix` at a cost of `extra` and
    /// stopped before or at `last`.
    pub open spec fn extended(self, suffix: Seq<PathPoint>, last: NodeIdx, extra: u64) -> Self
        recommends
            self.cost + extra <= u64::MAX,
    {
        PathRequestView {
            last,
            path: self.path + suffix,
            cost: (self.cost + extra) as u64,
            ..self
        }
    }

    /// The regions after `region` was entered: it is added at the end unless
    /// it is among them already.
    pub open spec fn entered(self, region: RegionIdx) -> Seq<RegionIdx> {
        if self.visited_regions.contains(region) {
            self.visited_regions
        } else {
            self.visited_regions.push(region)
        }
    }

    /// The request as it is sent on to `region`.
    pub open spec fn forwarded(
        self,
        suffix: Seq<PathPoint>,
        last: NodeIdx,
        extra: u64,
        region: RegionIdx,
    ) -> Self
        recommends
            self.cost + extra <= u64::MAX,
    {
        PathRequestView { visited_regions: self.entered(region), ..self.extended(suffix, last, extra) }
    }
}

/// A copy of `items`.
pub(crate) fn copy_points(items: &Vec<PathPoint>) -> (copy: Vec<PathPoint>)
    ensures
        copy@ == items@,
{
    let mut copy: Vec<PathPoint> = Vec::new();
    let mut i: usize = 0;
    while i < items.len()
        invariant
            i <= items.len(),
            copy@ == items@.take(i as int),
        decreases items.len() - i,
    {
        copy.push(items[i]);
        i += 1;
    }
    copy
}

/// A copy of `items`.
pub(crate) fn copy_regions(items: &Vec<RegionIdx>) -> (copy: Vec<RegionIdx>)
    ensures
        copy@ == items@,
{
    let mut copy: Vec<RegionIdx> = Vec::new();
    let mut i: usize = 0;
    while i < items.len()
        invariant
            i <= items.len(),
            copy@ == items@.take(i as int),
        decreases items.len() - i,
    {
        copy.push(items[i]);
        i += 1;
    }
    copy
}

/// Whether `region` is among `regions`.
pub fn region_visited(regions: &Vec<RegionIdx>, region: RegionIdx) -> (found: bool)
    ensures
        found == regions@.contains(region),
{
    let mut i: usize = 0;
    while i < regions.len()
        invariant
            i <= regions.len(),
            forall|j: int| 0 <= j < i ==> regions@[j] != region,
        decreases regions.len() - i,
    {
        if regions[i] == region {
            return true;
        }
        i += 1;
    }
    false
}

impl PathRequest {
    pub fn new(
        request_id: u64,
        source: NodeInfo,
        target: NodeInfo,
        last: NodeIdx,
        path: Vec<PathPoint>,
        cost: u64,
        visited_regions: Vec<RegionIdx>,
    ) -> (request: PathRequest)
        ensures
            request@ == (PathRequestView {
                request_id,
                source,
                target,
                last,
                path: path@,
                cost,
                visited_regions: visited_regions@,
            }),
    {
        PathRequest { request_id, source, target, last, path, cost, visited_regions }
    }

    /// A copy of the request.
    pub fn duplicate(&self) -> (request: PathRequest)
        ensures
            request@ == self@,
    {
        PathRequest::new(
            self.request_id,
            self.source,
            self.target,
            self.last,
            copy_points(&self.path),
            self.cost,
            copy_regions(&self.visited_regions),
        )
    }

    /// Whether `cost` can be added to the request's cost.
    pub fn can_add(&self, cost: u64) -> (fits: bool)
        ensures
            fits == (self.cost + cost <= u64::MAX),
    {
        cost <= u64::MAX - self.cost
    }

    /// The request after a search that completed it: `path` is added to the
    /// path, `cost` to the cost, and `last` is the node reached. The regions
    /// stay as they are.
    pub fn update_without_region(&self, path: Vec<PathPoint>, last: NodeIdx, cost: u64) -> (request:
        Self)
        requires
            self.cost + cost <= u64::MAX,
        ensures
            request@ == self@.extended(path@, last, cost),
    {
        let mut path = path;
        let mut new_path = copy_points(&self.path);
        new_path.append(&mut path);
        PathRequest::new(
            self.request_id,
            self.source,
            self.target,
            last,
            new_path,
            self.cost + cost,
            copy_regions(&self.visited_regions),
        )
    }

    /// The request as it is sent on to `new_region_idx`: extended as by
    /// `update_without_region`, with the region entered among the visited.
    pub fn update(
        &self,
        path: Vec<PathPoint>,
        last: NodeIdx,
        cost: u64,
        new_region_idx: RegionIdx,
    ) -> (request: Self)
        requires
            self.cost + cost <= u64::MAX,
        ensures
            request@ == self@.forwarded(path@, last, cost, new_region_idx),
            self@.visited_regions.no_duplicates() ==> request@.visited_regions.no_duplicates(),
    {
        let mut path = path;
        let mut new_path = copy_points(&self.path);
        new_path.append(&mut path);
        let mut visited_regions = copy_regions(&self.visited_regions);
        if !region_visited(&visited_regions, new_region_idx) {
            visited_regions.push(new_region_idx);
        }
        PathRequest::new(
            self.request_id,
            self.source,
            self.target,
            last,
            new_path,
            self.cost + cost,
            visited_regions,
        )
    }

    /// The last point of the path as a node reference, if there is one.
    pub fn get_last_node(&self) -> (node: Option<NodeInfo>)
        ensures
            node == (if self@.path.len() > 0 {
                Some(NodeInfo(self@.path.last().id, self@.path.last().region_id))
            } else {
                None
            }),
    {
        if self.path.len() > 0 {
            let point = &self.path[self.path.len() - 1];
            Some(NodeInfo(point.id, point.region_id))
        } else {
            None
        }
    }
}

} // verus!
