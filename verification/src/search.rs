//! Best-first search through a region's graph.
//!
//! The search keeps every candidate that it has found in an arena, each with
//! the candidate that it was reached from, and the tickets of those not yet
//! looked at in a priority queue, cheapest first and, among equally cheap
//! ones, earliest first.

use crate::graph::{Graph, GraphError, GraphView, Node, NodeIdx, RegionIdx, VertexIdx};
use crate::queue::{pair_le, queue_map, queue_new, queue_pop, queue_push, Frontier, Rank};
use std::collections::HashSet;
use vstd::prelude::*;

verus! {

broadcast use vstd::std_specs::hash::group_hash_axioms;

/// A candidate: a node, what it costs to reach it, and the candidate and
/// edge by which it was reached. The first candidate is its own parent.
#[derive(Clone, Copy, Debug)]
pub(crate) struct Entry {
    pub(crate) node: NodeIdx,
    pub(crate) cost: u64,
    pub(crate) parent: usize,
    pub(crate) edge: VertexIdx,
}

/// The rank under which a ticket waits: cheaper first, then earlier first.
pub(crate) open spec fn rank_of(cost: u64, ticket: int) -> Rank {
    ((u64::MAX - cost) as u64, (u64::MAX - ticket) as u64)
}

/// The candidate `i` was reached from an earlier one by one step.
pub(crate) open spec fn link_ok(
    g: GraphView,
    hint: Option<RegionIdx>,
    arena: Seq<Entry>,
    i: int,
) -> bool {
    let p = arena[i].parent as int;
    &&& p < i
    &&& g.hop(hint, arena[p].node, arena[i].edge, arena[i].node)
    &&& arena[i].cost == arena[p].cost + g.vertices[arena[i].edge].weight
}

/// The arena starts with the source at no cost, and every later candidate
/// was reached from an earlier one.
pub(crate) open spec fn arena_ok(
    g: GraphView,
    hint: Option<RegionIdx>,
    source: NodeIdx,
    arena: Seq<Entry>,
) -> bool {
    &&& arena.len() >= 1
    &&& arena[0].node == source
    &&& arena[0].cost == 0
    &&& forall|i: int| 0 < i < arena.len() ==> #[trigger] link_ok(g, hint, arena, i)
}

/// The nodes from the source to the candidate `i`.
pub(crate) open spec fn trail_nodes(arena: Seq<Entry>, i: int) -> Seq<NodeIdx>
    decreases i,
{
    if 0 < i && (arena[i].parent as int) < i {
        trail_nodes(arena, arena[i].parent as int).push(arena[i].node)
    } else {
        seq![arena[i].node]
    }
}

/// The edges from the source to the candidate `i`.
pub(crate) open spec fn trail_edges(arena: Seq<Entry>, i: int) -> Seq<VertexIdx>
    decreases i,
{
    if 0 < i && (arena[i].parent as int) < i {
        trail_edges(arena, arena[i].parent as int).push(arena[i].edge)
    } else {
        Seq::empty()
    }
}

/// The trail of a candidate is a walk from the source to its node, and
/// weighs what the candidate costs.
pub(crate) proof fn lemma_trail(
    g: GraphView,
    hint: Option<RegionIdx>,
    source: NodeIdx,
    arena: Seq<Entry>,
    i: int,
)
    requires
        arena_ok(g, hint, source, arena),
        0 <= i < arena.len(),
    ensures
        g.joins(hint, source, arena[i].node, trail_nodes(arena, i), trail_edges(arena, i)),
        g.weight(trail_edges(arena, i)) == arena[i].cost,
    decreases i,
{
    if i > 0 {
        assert(link_ok(g, hint, arena, i));
        let p = arena[i].parent as int;
        lemma_trail(g, hint, source, arena, p);
        g.lemma_walk_extend(
            hint,
            trail_nodes(arena, p),
            trail_edges(arena, p),
            arena[i].edge,
            arena[i].node,
        );
    }
}

/// What a search knows beside its arena and queue.
pub(crate) ghost struct State {
    /// The candidates found so far.
    pub arena: Seq<Entry>,
    /// The tickets that wait, each with its rank.
    pub queue: Map<u64, Rank>,
    /// The nodes that have been settled.
    pub visited: Set<NodeIdx>,
    /// The tickets by which nodes were settled, in that order.
    pub order: Seq<usize>,
    /// For each settled node its place in `order`.
    pub settled: Map<NodeIdx, int>,
    /// For a settled node and one of its connections, the ticket that the
    /// step along that connection got.
    pub pushed: Map<(NodeIdx, int), int>,
    /// The cost of the ticket taken last.
    pub floor: u64,
    /// The node whose connections are being followed.
    pub cur: NodeIdx,
    /// How many of them have been followed.
    pub done: int,
}

impl State {
    /// The ticket by which `v` was settled.
    pub(crate) open spec fn ticket_of(self, v: NodeIdx) -> int {
        self.order[self.settled[v]] as int
    }

    /// What it costs to reach the settled node `v`.
    pub(crate) open spec fn cost_of(self, v: NodeIdx) -> u64 {
        self.arena[self.ticket_of(v)].cost
    }

    /// Every waiting ticket names a candidate, waits under that candidate's
    /// rank, and costs no less than the ticket taken last.
    pub(crate) open spec fn queue_ok(self) -> bool {
        &&& self.queue.dom().finite()
        &&& forall|t: u64| #[trigger]
            self.queue.contains_key(t) ==> {
                &&& t < self.arena.len()
                &&& self.queue[t] == rank_of(self.arena[t as int].cost, t as int)
                &&& self.arena[t as int].cost >= self.floor
            }
    }

    /// Every settled node was settled by a ticket for it, at the least cost
    /// of any walk to it.
    pub(crate) open spec fn settled_ok(self, g: GraphView, hint: Option<RegionIdx>, source: NodeIdx) -> bool {
        &&& forall|v: NodeIdx| self.visited.contains(v) <==> #[trigger] self.settled.contains_key(v)
        &&& forall|v: NodeIdx| #[trigger]
            self.visited.contains(v) ==> {
                &&& 0 <= self.settled[v] < self.order.len()
                &&& self.ticket_of(v) < self.arena.len()
                &&& self.arena[self.ticket_of(v)].node == v
                &&& g.is_least(hint, source, v, self.cost_of(v) as int)
            }
    }

    /// `order` lists the tickets of the settled nodes, each once, by rising
    /// cost.
    pub(crate) open spec fn order_ok(self) -> bool {
        &&& forall|i: int|
            0 <= i < self.order.len() ==> {
                &&& (#[trigger] self.order[i]) < self.arena.len()
                &&& self.visited.contains(self.arena[self.order[i] as int].node)
                &&& self.settled[self.arena[self.order[i] as int].node] == i
                &&& self.arena[self.order[i] as int].cost <= self.floor
            }
        &&& forall|i: int, j: int|
            0 <= i <= j < self.order.len() ==> self.arena[(#[trigger] self.order[i]) as int].cost
                <= self.arena[(#[trigger] self.order[j]) as int].cost
    }

    /// The step from the settled node `u` along its connection `k`, where it
    /// leads to an unsettled node at a cost that fits, has a ticket waiting.
    pub(crate) open spec fn frontier_ok(self, g: GraphView, hint: Option<RegionIdx>, u: NodeIdx, k: int) -> bool {
        let e = g.nodes[u].connections[k];
        let v = g.vertices[e].neighbour(u);
        let d = self.cost_of(u);
        (g.hop(hint, u, e, v) && !self.visited.contains(v) && d + g.vertices[e].weight <= u64::MAX)
            ==> {
            let t = self.pushed[(u, k)];
            &&& 0 <= t < self.arena.len()
            &&& self.queue.contains_key(t as u64)
            &&& self.arena[t].node == v
            &&& self.arena[t].cost == d + g.vertices[e].weight
        }
    }

    /// `frontier_ok` of every connection of a settled node, but those of `cur`
    /// that have not been followed yet.
    pub(crate) open spec fn frontier_all(self, g: GraphView, hint: Option<RegionIdx>) -> bool {
        forall|u: NodeIdx, k: int|
            self.visited.contains(u) && g.nodes.contains_key(u) && 0 <= k
                < g.nodes[u].connections.len() && (u != self.cur || k < self.done)
                ==> #[trigger] self.frontier_ok(g, hint, u, k)
    }

    /// What holds throughout a search from `source`.
    pub(crate) open spec fn inv(self, g: GraphView, hint: Option<RegionIdx>, source: NodeIdx) -> bool {
        &&& arena_ok(g, hint, source, self.arena)
        &&& self.arena.len() <= usize::MAX
        &&& self.queue_ok()
        &&& self.settled_ok(g, hint, source)
        &&& self.order_ok()
        &&& (!self.visited.contains(source) ==> self.queue.contains_key(0))
        &&& self.frontier_all(g, hint)
    }

    /// No connection of `cur` is left to follow.
    pub(crate) open spec fn at_rest(self, g: GraphView) -> bool {
        self.visited.contains(self.cur) && g.nodes.contains_key(self.cur) ==> self.done
            >= g.nodes[self.cur].connections.len()
    }

    /// `t` waits, and no waiting ticket is ranked above it.
    pub(crate) open spec fn is_top(self, t: u64) -> bool {
        &&& self.queue.contains_key(t)
        &&& forall|o: u64| #[trigger] self.queue.contains_key(o) ==> pair_le(self.queue[o], self.queue[t])
    }

    /// While `t` is on top of the queue, a walk from the source to an
    /// unsettled node weighs no less than `t` costs.
    pub(crate) proof fn lemma_least_at_top(
        self,
        g: GraphView,
        hint: Option<RegionIdx>,
        source: NodeIdx,
        t: u64,
        nodes: Seq<NodeIdx>,
        edges: Seq<VertexIdx>,
    )
        requires
            self.inv(g, hint, source),
            self.at_rest(g),
            self.is_top(t),
            g.is_walk(hint, nodes, edges),
            nodes.first() == source,
            !self.visited.contains(nodes.last()),
        ensures
            g.weight(edges) >= self.arena[t as int].cost,
        decreases edges.len(),
    {
        if edges.len() == 0 {
            assert(self.queue.contains_key(0));
            assert(pair_le(self.queue[0], self.queue[t]));
        } else {
            g.lemma_walk_shorten(hint, nodes, edges);
            let ns = nodes.drop_last();
            let es = edges.drop_last();
            let u = ns.last();
            let e = edges.last();
            g.lemma_weight_nonnegative(es);
            if self.visited.contains(u) {
                assert(g.joins(hint, source, u, ns, es));
                let k = choose|k: int|
                    0 <= k < g.nodes[u].connections.len() && g.nodes[u].connections[k] == e;
                assert(self.frontier_ok(g, hint, u, k));
                if self.cost_of(u) + g.vertices[e].weight <= u64::MAX {
                    let t2 = self.pushed[(u, k)] as u64;
                    assert(self.queue.contains_key(t2));
                    assert(pair_le(self.queue[t2], self.queue[t]));
                }
            } else {
                self.lemma_least_at_top(g, hint, source, t, ns, es);
            }
        }
    }

    /// Once the queue is empty, every node to which a walk of fitting weight
    /// leads has been settled.
    pub(crate) proof fn lemma_drained(
        self,
        g: GraphView,
        hint: Option<RegionIdx>,
        source: NodeIdx,
        nodes: Seq<NodeIdx>,
        edges: Seq<VertexIdx>,
    )
        requires
            self.inv(g, hint, source),
            self.at_rest(g),
            self.queue.dom().is_empty(),
            g.is_walk(hint, nodes, edges),
            nodes.first() == source,
            g.weight(edges) <= u64::MAX,
        ensures
            self.visited.contains(nodes.last()),
        decreases edges.len(),
    {
        if edges.len() == 0 {
            if !self.visited.contains(source) {
                assert(self.queue.dom().contains(0));
            }
        } else {
            g.lemma_walk_shorten(hint, nodes, edges);
            let ns = nodes.drop_last();
            let es = edges.drop_last();
            let u = ns.last();
            let e = edges.last();
            g.lemma_weight_nonnegative(es);
            self.lemma_drained(g, hint, source, ns, es);
            assert(g.joins(hint, source, u, ns, es));
            let k = choose|k: int|
                0 <= k < g.nodes[u].connections.len() && g.nodes[u].connections[k] == e;
            assert(self.frontier_ok(g, hint, u, k));
            if !self.visited.contains(nodes.last()) {
                let t2 = self.pushed[(u, k)] as u64;
                assert(self.queue.dom().contains(t2));
            }
        }
    }

    /// The state in which a search from `source` starts.
    pub(crate) open spec fn initial(source: NodeIdx) -> State {
        State {
            arena: seq![Entry { node: source, cost: 0, parent: 0, edge: 0 }],
            queue: Map::<u64, Rank>::empty().insert(0, rank_of(0, 0)),
            visited: Set::empty(),
            order: Seq::empty(),
            settled: Map::empty(),
            pushed: Map::empty(),
            floor: 0,
            cur: source,
            done: 0,
        }
    }

    /// The state after the ticket `t`, whose node is settled already, was
    /// taken from the queue.
    pub(crate) open spec fn dropped(self, t: u64) -> State {
        State { queue: self.queue.remove(t), floor: self.arena[t as int].cost, ..self }
    }

    /// The state after the ticket `t` was taken from the queue and its node
    /// settled by it.
    pub(crate) open spec fn settle(self, t: u64) -> State {
        let x = self.arena[t as int].node;
        State {
            queue: self.queue.remove(t),
            visited: self.visited.insert(x),
            order: self.order.push(t as usize),
            settled: self.settled.insert(x, self.order.len() as int),
            floor: self.arena[t as int].cost,
            cur: x,
            done: 0,
            ..self
        }
    }

    /// The state after the next connection of `cur` was followed and its far
    /// end got a ticket.
    pub(crate) open spec fn offer(self, entry: Entry) -> State {
        let t = self.arena.len() as int;
        State {
            arena: self.arena.push(entry),
            queue: self.queue.insert(t as u64, rank_of(entry.cost, t)),
            pushed: self.pushed.insert((self.cur, self.done), t),
            done: self.done + 1,
            ..self
        }
    }

    /// The state after the next connection of `cur` was passed over.
    pub(crate) open spec fn pass(self) -> State {
        State { done: self.done + 1, ..self }
    }

    /// It still holds after a ticket was taken whose node is settled already.
    pub(crate) proof fn lemma_dropped(
        self,
        g: GraphView,
        hint: Option<RegionIdx>,
        source: NodeIdx,
        t: u64,
    )
        requires
            self.inv(g, hint, source),
            self.is_top(t),
            self.visited.contains(self.arena[t as int].node),
        ensures
            self.dropped(t).inv(g, hint, source),
    {
        let s = self.dropped(t);
        assert forall|u: NodeIdx, k: int|
            s.visited.contains(u) && g.nodes.contains_key(u) && 0 <= k
                < g.nodes[u].connections.len() && (u != s.cur || k < s.done)
                implies #[trigger] s.frontier_ok(g, hint, u, k) by {
            assert(self.frontier_ok(g, hint, u, k));
        }
    }

    /// It still holds after the top ticket was taken and has settled its
    /// node; the ticket's cost is the least that any walk to the node weighs.
    pub(crate) proof fn lemma_settle(
        self,
        g: GraphView,
        hint: Option<RegionIdx>,
        source: NodeIdx,
        t: u64,
    )
        requires
            self.inv(g, hint, source),
            self.at_rest(g),
            self.is_top(t),
            !self.visited.contains(self.arena[t as int].node),
        ensures
            self.settle(t).inv(g, hint, source),
    {
        let s = self.settle(t);
        let x = self.arena[t as int].node;
        assert forall|nodes: Seq<NodeIdx>, edges: Seq<VertexIdx>| #[trigger]
            g.joins(hint, source, x, nodes, edges) implies self.arena[t as int].cost <= g.weight(
            edges,
        ) by {
            self.lemma_least_at_top(g, hint, source, t, nodes, edges);
        }
        assert forall|u: NodeIdx, k: int|
            s.visited.contains(u) && g.nodes.contains_key(u) && 0 <= k
                < g.nodes[u].connections.len() && (u != s.cur || k < s.done)
                implies #[trigger] s.frontier_ok(g, hint, u, k) by {
            assert(self.frontier_ok(g, hint, u, k));
        }
    }

    /// It still holds after a connection was passed over along which no
    /// step leads to an unsettled node at a cost that fits.
    pub(crate) proof fn lemma_pass(self, g: GraphView, hint: Option<RegionIdx>, source: NodeIdx)
        requires
            self.inv(g, hint, source),
            self.visited.contains(self.cur),
            g.nodes.contains_key(self.cur),
            0 <= self.done < g.nodes[self.cur].connections.len(),
            ({
                let e = g.nodes[self.cur].connections[self.done];
                let v = g.vertices[e].neighbour(self.cur);
                !(g.hop(hint, self.cur, e, v) && !self.visited.contains(v) && self.cost_of(self.cur)
                    + g.vertices[e].weight <= u64::MAX)
            }),
        ensures
            self.pass().inv(g, hint, source),
    {
        let s = self.pass();
        assert forall|u: NodeIdx, k: int|
            s.visited.contains(u) && g.nodes.contains_key(u) && 0 <= k
                < g.nodes[u].connections.len() && (u != s.cur || k < s.done)
                implies #[trigger] s.frontier_ok(g, hint, u, k) by {
            if u != self.cur || k < self.done {
                assert(self.frontier_ok(g, hint, u, k));
            }
        }
    }

    /// It still holds after the far end of a connection got a ticket.
    pub(crate) proof fn lemma_offer(
        self,
        g: GraphView,
        hint: Option<RegionIdx>,
        source: NodeIdx,
        entry: Entry,
    )
        requires
            self.inv(g, hint, source),
            self.visited.contains(self.cur),
            g.nodes.contains_key(self.cur),
            0 <= self.done < g.nodes[self.cur].connections.len(),
            self.arena.len() < usize::MAX,
            entry.edge == g.nodes[self.cur].connections[self.done],
            entry.parent == self.ticket_of(self.cur),
            g.hop(hint, self.cur, entry.edge, entry.node),
            entry.cost == self.cost_of(self.cur) + g.vertices[entry.edge].weight,
            self.floor <= entry.cost,
        ensures
            self.offer(entry).inv(g, hint, source),
    {
        let s = self.offer(entry);
        let t = self.arena.len() as int;
        assert forall|i: int| 0 < i < s.arena.len() implies #[trigger] link_ok(g, hint, s.arena, i) by {
            if i < t {
                assert(link_ok(g, hint, self.arena, i));
            }
        }
        assert forall|u: NodeIdx, k: int|
            s.visited.contains(u) && g.nodes.contains_key(u) && 0 <= k
                < g.nodes[u].connections.len() && (u != s.cur || k < s.done)
                implies #[trigger] s.frontier_ok(g, hint, u, k) by {
            if u != self.cur || k < self.done {
                assert(self.frontier_ok(g, hint, u, k));
            }
        }
    }

    /// The state after all connections of `cur`, from which no step leads,
    /// were passed over.
    pub(crate) open spec fn pass_all(self, n: int) -> State {
        State { done: n, ..self }
    }

    /// It still holds after all connections of a node were passed over from
    /// which no step leads.
    pub(crate) proof fn lemma_pass_all(
        self,
        g: GraphView,
        hint: Option<RegionIdx>,
        source: NodeIdx,
        n: int,
    )
        requires
            self.inv(g, hint, source),
            forall|e: VertexIdx, v: NodeIdx| !g.hop(hint, self.cur, e, v),
        ensures
            self.pass_all(n).inv(g, hint, source),
    {
        let s = self.pass_all(n);
        assert forall|u: NodeIdx, k: int|
            s.visited.contains(u) && g.nodes.contains_key(u) && 0 <= k
                < g.nodes[u].connections.len() && (u != s.cur || k < s.done)
                implies #[trigger] s.frontier_ok(g, hint, u, k) by {
            if u != self.cur {
                assert(self.frontier_ok(g, hint, u, k));
            }
        }
    }
}

/// A search under way.
pub(crate) struct Search {
    pub(crate) arena: Vec<Entry>,
    pub(crate) queue: Frontier,
    pub(crate) visited: HashSet<NodeIdx>,
    pub(crate) order: Vec<usize>,
    pub(crate) notes: Ghost<State>,
}

impl Search {
    /// What the search knows.
    pub(crate) open spec fn state(&self) -> State {
        self.notes@
    }

    /// The search is under way from `source`, and its notes agree with what
    /// it holds.
    pub(crate) open spec fn wf(&self, g: GraphView, hint: Option<RegionIdx>, source: NodeIdx) -> bool {
        &&& self.notes@.arena == self.arena@
        &&& self.notes@.queue == queue_map(self.queue)
        &&& self.notes@.visited == self.visited@
        &&& self.notes@.order == self.order@
        &&& self.notes@.inv(g, hint, source)
    }

    /// A search that is about to start at `source`.
    pub(crate) fn start(
        source: NodeIdx,
        Ghost(g): Ghost<GraphView>,
        Ghost(hint): Ghost<Option<RegionIdx>>,
    ) -> (search: Search)
        ensures
            search.wf(g, hint, source),
            search.state() == State::initial(source),
    {
        let mut arena: Vec<Entry> = Vec::new();
        arena.push(Entry { node: source, cost: 0, parent: 0, edge: 0 });
        let mut queue = queue_new();
        queue_push(&mut queue, 0, (u64::MAX, u64::MAX));
        Search {
            arena,
            queue,
            visited: HashSet::new(),
            order: Vec::new(),
            notes: Ghost(State::initial(source)),
        }
    }

    /// Takes tickets from the queue until one comes whose node is not
    /// settled yet, and settles the node by it. `None` when the queue runs
    /// empty first.
    pub(crate) fn take(
        &mut self,
        Ghost(g): Ghost<GraphView>,
        Ghost(hint): Ghost<Option<RegionIdx>>,
        Ghost(source): Ghost<NodeIdx>,
    ) -> (ticket: Option<usize>)
        requires
            old(self).wf(g, hint, source),
            old(self).state().at_rest(g),
        ensures
            final(self).wf(g, hint, source),
            final(self).arena@ == old(self).arena@,
            final(self).state().queue.dom().subset_of(old(self).state().queue.dom()),
            match ticket {
                None => {
                    &&& final(self).state().queue.dom().is_empty()
                    &&& final(self).state().at_rest(g)
                    &&& final(self).visited@ == old(self).visited@
                    &&& final(self).order@ == old(self).order@
                },
                Some(t) => {
                    &&& t < final(self).arena@.len()
                    &&& old(self).state().queue.contains_key(t as u64)
                    &&& !final(self).state().queue.contains_key(t as u64)
                    &&& !old(self).visited@.contains(final(self).arena@[t as int].node)
                    &&& final(self).visited@ == old(self).visited@.insert(
                        final(self).arena@[t as int].node,
                    )
                    &&& final(self).order@ == old(self).order@.push(t)
                    &&& final(self).state().cur == final(self).arena@[t as int].node
                    &&& final(self).state().done == 0
                    &&& final(self).state().floor == final(self).arena@[t as int].cost
                    &&& final(self).state().ticket_of(final(self).state().cur) == t
                },
            },
    {
        loop
            invariant
                self.wf(g, hint, source),
                self.state().at_rest(g),
                self.arena@ == old(self).arena@,
                self.visited@ == old(self).visited@,
                self.order@ == old(self).order@,
                self.state().queue.dom().subset_of(old(self).state().queue.dom()),
            decreases self.state().queue.dom().len(),
        {
            let ghost before = self.state();
            let top = queue_pop(&mut self.queue);
            match top {
                None => {
                    return None;
                },
                Some((t, rank)) => {
                    let idx = t as usize;
                    let entry = self.arena[idx];
                    if self.visited.contains(&entry.node) {
                        proof {
                            before.lemma_dropped(g, hint, source, t);
                            self.notes = Ghost(before.dropped(t));
                        }
                    } else {
                        self.visited.insert(entry.node);
                        self.order.push(idx);
                        proof {
                            before.lemma_settle(g, hint, source, t);
                            self.notes = Ghost(before.settle(t));
                        }
                        return Some(idx);
                    }
                },
            }
        }
    }
}

impl GraphView {
    /// A node to which a search from `source` leads names the edge `e`,
    /// which the region does not hold.
    pub open spec fn dangles(self, hint: Option<RegionIdx>, source: NodeIdx, e: VertexIdx) -> bool {
        exists|u: NodeIdx|
            {
                &&& #[trigger] self.reaches(hint, source, u)
                &&& self.nodes.contains_key(u)
                &&& self.nodes[u].connections.contains(e)
                &&& !self.vertices.contains_key(e)
            }
    }
}

impl Graph {
    /// Follows the connection `k` of `node`, which the ticket `ticket` has
    /// just settled: where a step leads along it to a node that is not
    /// settled, at a cost that fits, that node gets a ticket.
    pub(crate) fn follow(
        &self,
        search: &mut Search,
        hint: Option<RegionIdx>,
        Ghost(source): Ghost<NodeIdx>,
        node: &Node,
        ticket: usize,
        k: usize,
    ) -> (r: Result<(), GraphError>)
        requires
            old(search).wf(self@, hint, source),
            self@.nodes.contains_key(node.id),
            self@.nodes[node.id] == node@,
            hint is Some ==> node.region == self@.region_idx,
            old(search).state().cur == node.id,
            old(search).state().done == k,
            k < node.connections@.len(),
            old(search).visited@.contains(node.id),
            old(search).state().ticket_of(node.id) == ticket,
            old(search).state().floor == old(search).state().cost_of(node.id),
        ensures
            match r {
                Ok(()) => {
                    &&& final(search).wf(self@, hint, source)
                    &&& final(search).state().cur == node.id
                    &&& final(search).state().done == k + 1
                    &&& final(search).visited@ == old(search).visited@
                    &&& final(search).order@ == old(search).order@
                    &&& final(search).state().settled == old(search).state().settled
                    &&& final(search).state().floor == old(search).state().floor
                    &&& final(search).arena@.len() >= old(search).arena@.len()
                    &&& final(search).arena@[ticket as int] == old(search).arena@[ticket as int]
                },
                Err(e) => {
                    &&& e == GraphError::VertexNotFound(node.connections@[k as int], self@.region_idx)
                    &&& !self@.vertices.contains_key(node.connections@[k as int])
                },
            },
    {
        let ghost before = search.state();
        let ghost g = self@;
        let edge = node.connections[k];
        match self.get_vertex(edge) {
            None => Err(GraphError::VertexNotFound(edge, self.region_idx())),
            Some(vertex) => {
                assert(g.nodes[node.id].connections[k as int] == edge);
                let next = vertex.get_neighbour(node.id);
                let usable = match hint {
                    None => self.get_node(next).is_some(),
                    Some(region) => vertex.hints_at(region),
                };
                let cost = search.arena[ticket].cost;
                let fresh = usable && !search.visited.contains(&next);
                let sum = if fresh {
                    cost.checked_add(vertex.weight)
                } else {
                    None
                };
                match sum {
                    Some(total) => {
                        let entry = Entry { node: next, cost: total, parent: ticket, edge };
                        let number = search.arena.len();
                        search.arena.push(entry);
                        queue_push(
                            &mut search.queue,
                            number as u64,
                            (u64::MAX - total, u64::MAX - number as u64),
                        );
                        proof {
                            assert(search.arena.len() == search.arena@.len());
                            before.lemma_offer(g, hint, source, entry);
                            search.notes = Ghost(before.offer(entry));
                        }
                    },
                    None => {
                        proof {
                            before.lemma_pass(g, hint, source);
                            search.notes = Ghost(before.pass());
                        }
                    },
                }
                Ok(())
            },
        }
    }

    /// Follows every connection of `node`, which the ticket `ticket` has
    /// just settled.
    pub(crate) fn expand(
        &self,
        search: &mut Search,
        hint: Option<RegionIdx>,
        Ghost(source): Ghost<NodeIdx>,
        node: &Node,
        ticket: usize,
    ) -> (r: Result<(), GraphError>)
        requires
            old(search).wf(self@, hint, source),
            self@.nodes.contains_key(node.id),
            self@.nodes[node.id] == node@,
            hint is Some ==> node.region == self@.region_idx,
            old(search).state().cur == node.id,
            old(search).state().done == 0,
            old(search).visited@.contains(node.id),
            old(search).state().ticket_of(node.id) == ticket,
            old(search).state().floor == old(search).state().cost_of(node.id),
        ensures
            match r {
                Ok(()) => {
                    &&& final(search).wf(self@, hint, source)
                    &&& final(search).state().at_rest(self@)
                    &&& final(search).visited@ == old(search).visited@
                    &&& final(search).order@ == old(search).order@
                },
                Err(e) => {
                    &&& e is VertexNotFound
                    &&& e->VertexNotFound_1 == self@.region_idx
                    &&& node.connections@.contains(e->VertexNotFound_0)
                    &&& !self@.vertices.contains_key(e->VertexNotFound_0)
                },
            },
    {
        let mut k: usize = 0;
        while k < node.connections.len()
            invariant
                search.wf(self@, hint, source),
                self@.nodes.contains_key(node.id),
                self@.nodes[node.id] == node@,
                hint is Some ==> node.region == self@.region_idx,
                search.state().cur == node.id,
                search.state().done == k,
                k <= node.connections@.len(),
                search.visited@ == old(search).visited@,
                search.order@ == old(search).order@,
                search.visited@.contains(node.id),
                search.state().ticket_of(node.id) == ticket,
                search.state().floor == search.state().cost_of(node.id),
            decreases node.connections@.len() - k,
        {
            match self.follow(search, hint, Ghost(source), node, ticket, k) {
                Ok(()) => {},
                Err(e) => {
                    return Err(e);
                },
            }
            k += 1;
        }
        Ok(())
    }

    /// Searches from `source`, which the region holds, until the node `stop`
    /// is settled or nothing is left to look at. The flag tells which.
    pub(crate) fn explore(
        &self,
        source: NodeIdx,
        hint: Option<RegionIdx>,
        stop: Option<NodeIdx>,
    ) -> (r: Result<(Search, bool), GraphError>)
        requires
            self@.consistent(),
            self@.nodes.contains_key(source),
        ensures
            match r {
                Ok((search, found)) => {
                    &&& search.wf(self@, hint, source)
                    &&& found ==> search.order@.len() > 0 && stop == Some(
                        search.arena@[search.order@.last() as int].node,
                    )
                    &&& !found ==> {
                        &&& search.state().queue.dom().is_empty()
                        &&& search.state().at_rest(self@)
                        &&& stop is Some ==> !search.visited@.contains(stop->0)
                    }
                },
                Err(e) => {
                    &&& e is VertexNotFound
                    &&& e->VertexNotFound_1 == self@.region_idx
                    &&& self@.dangles(hint, source, e->VertexNotFound_0)
                },
            },
    {
        let ghost g = self@;
        let mut search = Search::start(source, Ghost(g), Ghost(hint));
        loop
            invariant
                g == self@,
                g.consistent(),
                search.wf(g, hint, source),
                search.state().at_rest(g),
                stop is Some ==> !search.visited@.contains(stop->0),
            decreases
                    g.nodes.dom().difference(search.visited@).len(),
                    search.state().queue.dom().len(),
        {
            let ghost before = search.state();
            match search.take(Ghost(g), Ghost(hint), Ghost(source)) {
                None => {
                    return Ok((search, false));
                },
                Some(ticket) => {
                    let entry = search.arena[ticket];
                    let ghost taken = search.state();
                    proof {
                        let x = entry.node;
                        let rest = g.nodes.dom().difference(before.visited);
                        assert(g.nodes.dom().difference(taken.visited) =~= rest.remove(x));
                        vstd::set_lib::lemma_len_subset(
                            taken.queue.dom(),
                            before.queue.dom().remove(ticket as u64),
                        );
                    }
                    let hit = match stop {
                        Some(wanted) => wanted == entry.node,
                        None => false,
                    };
                    if hit {
                        return Ok((search, true));
                    }
                    match self.get_node(entry.node) {
                        None => {},
                        Some(node) => {
                            let local = match hint {
                                None => true,
                                Some(_) => node.region == self.region_idx(),
                            };
                            if local {
                                match self.expand(&mut search, hint, Ghost(source), node, ticket) {
                                    Ok(()) => {},
                                    Err(e) => {
                                        proof {
                                            lemma_trail(g, hint, source, taken.arena, ticket as int);
                                            assert(g.reaches(hint, source, entry.node));
                                        }
                                        return Err(e);
                                    },
                                }
                            } else {
                                let ghost n = node.connections@.len() as int;
                                proof {
                                    taken.lemma_pass_all(g, hint, source, n);
                                }
                                search.notes = Ghost(taken.pass_all(n));
                            }
                        },
                    }
                },
            }
        }
    }
}

} // verus!
