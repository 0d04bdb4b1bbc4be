//! The two searches that a region's graph offers: to a target inside the
//! region, and towards another region.

use crate::domain::{point_of, NodeInfo, PathPoint};
use crate::graph::{Continuation, Graph, GraphError, GraphView, NodeIdx, RegionIdx, VertexIdx};
use crate::search::{arena_ok, lemma_trail, link_ok, trail_edges, trail_nodes, Entry, Search};
use vstd::prelude::*;

verus! {

/// What a search found.
#[derive(Debug)]
pub enum PathResult {
    /// The points from the start to the target, both included, and what the
    /// walk along them weighs.
    TargetReached(Vec<PathPoint>, u64),
    /// The points from the start to the region's edge, what the walk to the
    /// node past the edge weighs, and that node.
    Continue(Vec<PathPoint>, u64, Continuation),
}

impl PathResult {
    /// The points found.
    pub open spec fn path(self) -> Seq<PathPoint> {
        match self {
            PathResult::TargetReached(path, _) => path@,
            PathResult::Continue(path, _, _) => path@,
        }
    }

    /// The weight found.
    pub open spec fn cost(self) -> u64 {
        match self {
            PathResult::TargetReached(_, cost) => cost,
            PathResult::Continue(_, cost, _) => cost,
        }
    }
}

impl GraphView {
    /// The points of `nodes`, which the region holds.
    pub open spec fn points(self, nodes: Seq<NodeIdx>) -> Seq<PathPoint> {
        Seq::new(nodes.len(), |i: int| point_of(self.nodes[nodes[i]]))
    }

    /// `path` runs along a walk inside the region from `source` to `target`
    /// that weighs `cost`, and no such walk weighs less.
    pub open spec fn local_route(
        self,
        source: NodeIdx,
        target: NodeIdx,
        path: Seq<PathPoint>,
        cost: u64,
    ) -> bool {
        &&& exists|nodes: Seq<NodeIdx>, edges: Seq<VertexIdx>|
            {
                &&& #[trigger] self.joins(None, source, target, nodes, edges)
                &&& self.weight(edges) == cost
                &&& path == self.points(nodes)
            }
        &&& self.is_least(None, source, target, cost as int)
    }

    /// How a search goes on at the node `b` outside the region.
    pub open spec fn exit_of(self, b: NodeIdx) -> Continuation {
        if self.nodes.contains_key(b) {
            Continuation::CRegionKnown(b, self.nodes[b].region)
        } else {
            Continuation::CRegionUnknown(b)
        }
    }

    /// A walk from `source` along edges that lead towards `region` ends at
    /// the node of `next`, which lies outside this region, and weighs
    /// `cost`; no such walk to that node weighs less. `path` runs along the
    /// walk: up to that node where the region holds a copy of it, up to the
    /// node before it where not.
    pub open spec fn is_exit(
        self,
        region: RegionIdx,
        source: NodeIdx,
        path: Seq<PathPoint>,
        cost: u64,
        next: Continuation,
    ) -> bool {
        let b = next.node_idx();
        &&& self.is_boundary(b)
        &&& next == self.exit_of(b)
        &&& exists|nodes: Seq<NodeIdx>, edges: Seq<VertexIdx>|
            {
                &&& #[trigger] self.joins(Some(region), source, b, nodes, edges)
                &&& self.weight(edges) == cost
                &&& path == self.points(
                    if self.nodes.contains_key(b) {
                        nodes
                    } else {
                        nodes.drop_last()
                    },
                )
            }
        &&& self.is_least(Some(region), source, b, cost as int)
    }

    /// `list` holds the ways out of the region towards `region`: one for each
    /// node outside to which a walk from `source` leads at a cost that fits
    /// into 64 bits, the cheapest first.
    pub open spec fn exits_listed(
        self,
        region: RegionIdx,
        source: NodeIdx,
        list: Seq<PathResult>,
    ) -> bool {
        &&& forall|i: int|
            0 <= i < list.len() ==> {
                &&& (#[trigger] list[i]) is Continue
                &&& self.is_exit(region, source, list[i].path(), list[i].cost(), list[i]->Continue_2)
            }
        &&& forall|i: int, j: int|
            0 <= i < j < list.len() ==> {
                &&& (#[trigger] list[i]).cost() <= (#[trigger] list[j]).cost()
                &&& list[i]->Continue_2.node_idx() != list[j]->Continue_2.node_idx()
            }
        &&& forall|b: NodeIdx|
            self.is_boundary(b) && #[trigger] self.reaches(Some(region), source, b) ==> exists|
                i: int,
            |
                0 <= i < list.len() && (#[trigger] list[i])->Continue_2.node_idx() == b
    }

    /// All cheapest walks inside the region from `source` to `target` run
    /// along the same nodes.
    pub open spec fn one_cheapest(self, source: NodeIdx, target: NodeIdx) -> bool {
        forall|
            first: Seq<NodeIdx>,
            first_edges: Seq<VertexIdx>,
            second: Seq<NodeIdx>,
            second_edges: Seq<VertexIdx>,
        |
            {
                &&& #[trigger] self.joins(None, source, target, first, first_edges)
                &&& #[trigger] self.joins(None, source, target, second, second_edges)
                &&& self.is_least(None, source, target, self.weight(first_edges))
                &&& self.is_least(None, source, target, self.weight(second_edges))
            } ==> first == second
    }

    /// What a search inside the region may answer is settled by the graph:
    /// two answers to one question name the same cost, and, where all
    /// cheapest walks run along the same nodes, the same path.
    pub proof fn lemma_route_determined(
        self,
        source: NodeIdx,
        target: NodeIdx,
        first: Seq<PathPoint>,
        first_cost: u64,
        second: Seq<PathPoint>,
        second_cost: u64,
    )
        requires
            self.local_route(source, target, first, first_cost),
            self.local_route(source, target, second, second_cost),
        ensures
            first_cost == second_cost,
            self.one_cheapest(source, target) ==> first == second,
    {
    }

    /// In a graph that holds every edge that its nodes name, no search finds
    /// an edge missing.
    pub proof fn lemma_closed_never_dangles(
        self,
        hint: Option<RegionIdx>,
        source: NodeIdx,
        e: VertexIdx,
    )
        requires
            self.closed(),
        ensures
            !self.dangles(hint, source, e),
    {
        if self.dangles(hint, source, e) {
            let u = choose|u: NodeIdx|
                {
                    &&& #[trigger] self.reaches(hint, source, u)
                    &&& self.nodes.contains_key(u)
                    &&& self.nodes[u].connections.contains(e)
                    &&& !self.vertices.contains_key(e)
                };
            let k = choose|k: int|
                0 <= k < self.nodes[u].connections.len() && self.nodes[u].connections[k] == e;
            assert(self.vertices.contains_key(self.nodes[u].connections[k]));
        }
    }
}

impl Graph {
    /// The points along the trail of the candidate `ticket`, whose node the
    /// region holds.
    pub(crate) fn build_path(
        &self,
        arena: &Vec<Entry>,
        ticket: usize,
        Ghost(hint): Ghost<Option<RegionIdx>>,
        Ghost(source): Ghost<NodeIdx>,
    ) -> (path: Vec<PathPoint>)
        requires
            arena_ok(self@, hint, source, arena@),
            ticket < arena@.len(),
            self@.nodes.contains_key(arena@[ticket as int].node),
        ensures
            path@ == self@.points(trail_nodes(arena@, ticket as int)),
    {
        let ghost g = self@;
        let ghost trail = trail_nodes(arena@, ticket as int);
        let mut rev: Vec<PathPoint> = Vec::new();
        let mut cur = ticket;
        while cur > 0
            invariant
                arena_ok(g, hint, source, arena@),
                g == self@,
                cur < arena@.len(),
                g.nodes.contains_key(arena@[cur as int].node),
                rev@.len() < trail.len(),
                trail_nodes(arena@, cur as int) == trail.take(trail.len() - rev@.len()),
                forall|i: int|
                    0 <= i < rev@.len() ==> rev@[i] == point_of(
                        g.nodes[trail[trail.len() - 1 - i]],
                    ),
            decreases cur,
        {
            let entry = arena[cur];
            proof {
                assert(link_ok(g, hint, arena@, cur as int));
                let p = entry.parent as int;
                let shorter = trail_nodes(arena@, p);
                let n = trail.len() - rev@.len();
                assert(trail.take(n).len() == n);
                assert(shorter.len() == n - 1);
                assert(trail.take(n)[n - 1] == entry.node);
            }
            match self.get_node(entry.node) {
                Some(node) => {
                    rev.push(PathPoint::of_node(node));
                },
                None => {},
            }
            cur = entry.parent;
        }
        proof {
            assert(trail[0] == trail.take(1)[0]);
        }
        match self.get_node(arena[0].node) {
            Some(node) => {
                rev.push(PathPoint::of_node(node));
            },
            None => {},
        }
        let mut path: Vec<PathPoint> = Vec::new();
        let mut i: usize = rev.len();
        while i > 0
            invariant
                i <= rev@.len(),
                rev@.len() == trail.len(),
                path@.len() == rev@.len() - i,
                forall|j: int| 0 <= j < rev@.len() ==> rev@[j] == point_of(g.nodes[trail[trail.len() - 1 - j]]),
                forall|j: int| 0 <= j < path@.len() ==> path@[j] == point_of(g.nodes[trail[j]]),
            decreases i,
        {
            i -= 1;
            path.push(rev[i]);
        }
        path
    }

    /// The cheapest walk inside the region from `source` to `target`, with
    /// the points along it and its weight.
    ///
    /// The search fails where the region does not hold the start, where no
    /// walk leads to the target at a cost that fits into 64 bits, and where
    /// it comes upon a node that names an edge which the region does not
    /// hold.
    pub fn find_way_local(&self, source: NodeInfo, target: NodeInfo) -> (r: Result<
        PathResult,
        GraphError,
    >)
        ensures
            match r {
                Ok(PathResult::TargetReached(path, cost)) => {
                    &&& self@.nodes.contains_key(source.0)
                    &&& self@.local_route(source.0, target.0, path@, cost)
                },
                Ok(PathResult::Continue(_, _, _)) => false,
                Err(GraphError::StartNodeNotFound(node, region)) => {
                    &&& node == source.0
                    &&& region == self@.region_idx
                    &&& !self@.nodes.contains_key(source.0)
                },
                Err(GraphError::Unreachable(node, region)) => {
                    &&& node == target.0
                    &&& region == target.1
                    &&& self@.nodes.contains_key(source.0)
                    &&& !self@.reaches(None, source.0, target.0)
                },
                Err(GraphError::VertexNotFound(edge, region)) => {
                    &&& region == self@.region_idx
                    &&& self@.nodes.contains_key(source.0)
                    &&& self@.dangles(None, source.0, edge)
                },
            },
            self@.closed() ==> (r is Ok <==> self@.nodes.contains_key(source.0) && self@.reaches(
                None,
                source.0,
                target.0,
            )),
    {
        let ghost g = self@;
        if self.get_node(source.0).is_none() {
            return Err(GraphError::StartNodeNotFound(source.0, self.region_idx()));
        }
        match self.explore(source.0, None, Some(target.0)) {
            Err(e) => {
                Err(e)
            },
            Ok((search, found)) => {
                let ghost s = search.state();
                if found {
                    let ticket = search.order[search.order.len() - 1];
                    let entry = search.arena[ticket];
                    proof {
                        lemma_trail(g, None, source.0, s.arena, ticket as int);
                        let nodes = trail_nodes(s.arena, ticket as int);
                        let edges = trail_edges(s.arena, ticket as int);
                        if edges.len() > 0 {
                            g.lemma_walk_shorten(None, nodes, edges);
                        }
                    }
                    let path = self.build_path(&search.arena, ticket, Ghost(None), Ghost(source.0));
                    Ok(PathResult::TargetReached(path, entry.cost))
                } else {
                    proof {
                        assert forall|nodes: Seq<NodeIdx>, edges: Seq<VertexIdx>| #[trigger]
                            g.joins(None, source.0, target.0, nodes, edges) implies g.weight(edges)
                            > u64::MAX by {
                            if g.weight(edges) <= u64::MAX {
                                s.lemma_drained(g, None, source.0, nodes, edges);
                            }
                        }
                    }
                    Err(GraphError::Unreachable(target.0, target.1))
                }
            },
        }
    }

    /// The ways out of the region towards the region of `target`: the search
    /// follows only edges that are marked as leading there, and lists each
    /// node outside the region that it comes to, the cheapest first, with the
    /// points up to it and the weight of the cheapest walk to it.
    ///
    /// The search fails where the region does not hold the start, and where
    /// it comes upon a node that names an edge which the region does not
    /// hold.
    pub fn find_way(&self, source: NodeInfo, target: NodeInfo) -> (r: Result<
        Vec<PathResult>,
        GraphError,
    >)
        ensures
            match r {
                Ok(list) => {
                    &&& self@.nodes.contains_key(source.0)
                    &&& self@.exits_listed(target.1, source.0, list@)
                },
                Err(GraphError::StartNodeNotFound(node, region)) => {
                    &&& node == source.0
                    &&& region == self@.region_idx
                    &&& !self@.nodes.contains_key(source.0)
                },
                Err(GraphError::Unreachable(_, _)) => false,
                Err(GraphError::VertexNotFound(edge, region)) => {
                    &&& region == self@.region_idx
                    &&& self@.nodes.contains_key(source.0)
                    &&& self@.dangles(Some(target.1), source.0, edge)
                },
            },
            self@.closed() ==> (r is Ok <==> self@.nodes.contains_key(source.0)),
    {
        let hint = Some(target.1);
        if self.get_node(source.0).is_none() {
            return Err(GraphError::StartNodeNotFound(source.0, self.region_idx()));
        }
        match self.explore(source.0, hint, None) {
            Err(e) => {
                Err(e)
            },
            Ok((search, found)) => {
                let list = self.list_exits(&search, target.1, Ghost(source.0));
                Ok(list)
            },
        }
    }

    /// The ways out that a finished search towards `region` has found.
    fn list_exits(&self, search: &Search, region: RegionIdx, Ghost(source): Ghost<NodeIdx>) -> (list:
        Vec<PathResult>)
        requires
            self@.nodes.contains_key(source),
            search.wf(self@, Some(region), source),
            search.state().queue.dom().is_empty(),
            search.state().at_rest(self@),
        ensures
            self@.exits_listed(region, source, list@),
    {
        let ghost g = self@;
        let ghost hint = Some(region);
        let ghost s = search.state();
        let mut list: Vec<PathResult> = Vec::new();
        let ghost mut from: Seq<int> = Seq::empty();
        let ghost mut slot: Seq<int> = Seq::empty();
        let mut p: usize = 0;
        while p < search.order.len()
            invariant
                g == self@,
                hint == Some(region),
                s == search.state(),
                search.wf(g, hint, source),
                g.nodes.contains_key(source),
                p <= search.order@.len(),
                from.len() == list@.len(),
                slot.len() == p,
                forall|j: int|
                    0 <= j < list@.len() ==> {
                        &&& 0 <= #[trigger] from[j] < p
                        &&& list@[j] is Continue
                        &&& list@[j]->Continue_2.node_idx() == s.arena[s.order[from[j]] as int].node
                        &&& list@[j].cost() == s.arena[s.order[from[j]] as int].cost
                        &&& g.is_exit(
                            region,
                            source,
                            list@[j].path(),
                            list@[j].cost(),
                            list@[j]->Continue_2,
                        )
                    },
                forall|i: int, j: int| 0 <= i < j < list@.len() ==> #[trigger] from[i] < #[trigger] from[j],
                forall|q: int|
                    0 <= q < p && g.is_boundary(s.arena[s.order[q] as int].node) ==> 0 <= #[trigger] slot[q]
                        < list@.len() && from[slot[q]] == q,
            decreases search.order@.len() - p,
        {
            let ticket = search.order[p];
            assert(ticket < s.arena.len());
            let entry = search.arena[ticket];
            let ghost nodes = trail_nodes(s.arena, ticket as int);
            let ghost edges = trail_edges(s.arena, ticket as int);
            proof {
                lemma_trail(g, hint, source, s.arena, ticket as int);
            }
            match self.get_node(entry.node) {
                None => {
                    proof {
                        assert(link_ok(g, hint, s.arena, ticket as int));
                        assert(nodes.drop_last() =~= trail_nodes(s.arena, entry.parent as int));
                    }
                    let path = self.build_path(
                        &search.arena,
                        entry.parent,
                        Ghost(hint),
                        Ghost(source),
                    );
                    let next = Continuation::CRegionUnknown(entry.node);
                    list.push(PathResult::Continue(path, entry.cost, next));
                    proof {
                        slot = slot.push(from.len() as int);
                        from = from.push(p as int);
                    }
                },
                Some(node) => {
                    if node.region != self.region_idx() {
                        let path = self.build_path(&search.arena, ticket, Ghost(hint), Ghost(source));
                        let next = Continuation::CRegionKnown(entry.node, node.region);
                        list.push(PathResult::Continue(path, entry.cost, next));
                        proof {
                            slot = slot.push(from.len() as int);
                            from = from.push(p as int);
                        }
                    } else {
                        proof {
                            slot = slot.push(-1);
                        }
                    }
                },
            }
            proof {
                assert forall|j: int| 0 <= j < list@.len() implies {
                    &&& 0 <= #[trigger] from[j] < p + 1
                    &&& list@[j] is Continue
                    &&& list@[j]->Continue_2.node_idx() == s.arena[s.order[from[j]] as int].node
                    &&& list@[j].cost() == s.arena[s.order[from[j]] as int].cost
                    &&& g.is_exit(
                        region,
                        source,
                        list@[j].path(),
                        list@[j].cost(),
                        list@[j]->Continue_2,
                    )
                } by {
                }
            }
            p += 1;
        }
        proof {
            assert forall|i: int| 0 <= i < list@.len() implies {
                &&& (#[trigger] list@[i]) is Continue
                &&& g.is_exit(region, source, list@[i].path(), list@[i].cost(), list@[i]->Continue_2)
            } by {
                assert(0 <= from[i]);
            }
            assert forall|i: int, j: int| 0 <= i < j < list@.len() implies {
                &&& (#[trigger] list@[i]).cost() <= (#[trigger] list@[j]).cost()
                &&& list@[i]->Continue_2.node_idx() != list@[j]->Continue_2.node_idx()
            } by {
                assert(from[i] < from[j]);
            }
            assert forall|b: NodeIdx|
                g.is_boundary(b) && #[trigger] g.reaches(hint, source, b) implies exists|i: int|
                0 <= i < list@.len() && (#[trigger] list@[i])->Continue_2.node_idx() == b by {
                let (nodes, edges) = choose|nodes: Seq<NodeIdx>, edges: Seq<VertexIdx>|
                    #[trigger] g.joins(hint, source, b, nodes, edges) && g.weight(edges) <= u64::MAX;
                s.lemma_drained(g, hint, source, nodes, edges);
                assert(from[slot[s.settled[b]]] == s.settled[b]);
            }
        }
        list
    }
}

} // verus!
