//! Walks through a region's graph: what a search may follow, and what a
//! walk weighs.

use crate::graph::{GraphView, NodeIdx, RegionIdx, VertexIdx};
use vstd::prelude::*;

verus! {

impl GraphView {
    /// One step of a search: from the node `u`, which the region holds, along
    /// the edge `e`, which `u` names and the region holds, to the edge's
    /// other end `v`.
    ///
    /// A search inside the region (`hint` is `None`) steps only to nodes that
    /// the region holds. A search towards another region (`hint` names it)
    /// steps only from the region's own nodes and only along edges that are
    /// marked as leading there; it may step to a node outside.
    pub open spec fn hop(self, hint: Option<RegionIdx>, u: NodeIdx, e: VertexIdx, v: NodeIdx) -> bool {
        &&& self.nodes.contains_key(u)
        &&& self.nodes[u].connections.contains(e)
        &&& self.vertices.contains_key(e)
        &&& self.vertices[e].neighbour(u) == v
        &&& match hint {
            None => self.nodes.contains_key(v),
            Some(region) => self.nodes[u].region == self.region_idx && self.vertices[e].hints_at(
                region,
            ),
        }
    }

    /// `nodes` and `edges` describe a walk: each edge is a step from its node
    /// to the next.
    pub open spec fn is_walk(
        self,
        hint: Option<RegionIdx>,
        nodes: Seq<NodeIdx>,
        edges: Seq<VertexIdx>,
    ) -> bool {
        &&& nodes.len() == edges.len() + 1
        &&& forall|i: int|
            0 <= i < edges.len() ==> #[trigger] self.hop(hint, nodes[i], edges[i], nodes[i + 1])
    }

    /// A walk from `from` to `to`.
    pub open spec fn joins(
        self,
        hint: Option<RegionIdx>,
        from: NodeIdx,
        to: NodeIdx,
        nodes: Seq<NodeIdx>,
        edges: Seq<VertexIdx>,
    ) -> bool {
        &&& self.is_walk(hint, nodes, edges)
        &&& nodes.first() == from
        &&& nodes.last() == to
    }

    /// The weight of an edge; an edge that the region does not hold weighs
    /// nothing.
    pub open spec fn edge_weight(self, e: VertexIdx) -> int {
        if self.vertices.contains_key(e) {
            self.vertices[e].weight as int
        } else {
            0
        }
    }

    /// The sum of the weights of `edges`.
    pub open spec fn weight(self, edges: Seq<VertexIdx>) -> int
        decreases edges.len(),
    {
        if edges.len() == 0 {
            0
        } else {
            self.weight(edges.drop_last()) + self.edge_weight(edges.last())
        }
    }

    /// `to` can be reached from `from` at a cost that fits into 64 bits.
    pub open spec fn reaches(self, hint: Option<RegionIdx>, from: NodeIdx, to: NodeIdx) -> bool {
        exists|nodes: Seq<NodeIdx>, edges: Seq<VertexIdx>|
            #[trigger] self.joins(hint, from, to, nodes, edges) && self.weight(edges) <= u64::MAX
    }

    /// No walk from `from` to `to` weighs less than `cost`.
    pub open spec fn is_least(
        self,
        hint: Option<RegionIdx>,
        from: NodeIdx,
        to: NodeIdx,
        cost: int,
    ) -> bool {
        forall|nodes: Seq<NodeIdx>, edges: Seq<VertexIdx>| #[trigger]
            self.joins(hint, from, to, nodes, edges) ==> cost <= self.weight(edges)
    }

    /// A walk weighs nothing or more.
    pub proof fn lemma_weight_nonnegative(self, edges: Seq<VertexIdx>)
        ensures
            self.weight(edges) >= 0,
        decreases edges.len(),
    {
        if edges.len() > 0 {
            self.lemma_weight_nonnegative(edges.drop_last());
        }
    }

    /// A walk without its last step is a walk, to the node before the last,
    /// and weighs less by that step's edge.
    pub proof fn lemma_walk_shorten(
        self,
        hint: Option<RegionIdx>,
        nodes: Seq<NodeIdx>,
        edges: Seq<VertexIdx>,
    )
        requires
            self.is_walk(hint, nodes, edges),
            edges.len() > 0,
        ensures
            self.is_walk(hint, nodes.drop_last(), edges.drop_last()),
            nodes.drop_last().first() == nodes.first(),
            nodes.drop_last().last() == nodes[nodes.len() - 2],
            self.hop(hint, nodes[nodes.len() - 2], edges.last(), nodes.last()),
            self.weight(edges) == self.weight(edges.drop_last()) + self.vertices[edges.last()].weight,
    {
    }

    /// A walk with one more step is a walk, and weighs more by that step's
    /// edge.
    pub proof fn lemma_walk_extend(
        self,
        hint: Option<RegionIdx>,
        nodes: Seq<NodeIdx>,
        edges: Seq<VertexIdx>,
        e: VertexIdx,
        v: NodeIdx,
    )
        requires
            self.is_walk(hint, nodes, edges),
            self.hop(hint, nodes.last(), e, v),
        ensures
            self.is_walk(hint, nodes.push(v), edges.push(e)),
            nodes.push(v).first() == nodes.first(),
            nodes.push(v).last() == v,
            self.weight(edges.push(e)) == self.weight(edges) + self.vertices[e].weight,
    {
        let es = edges.push(e);
        assert(es.drop_last() =~= edges);
    }
}

} // verus!
