//! The in-memory graph of one region and its mathematical model.

use crate::bits::{bit_seq, bits_get, RegionBits};
use crate::text::{decimal, push_decimal};
use std::collections::HashMap;
use vstd::prelude::*;
use vstd::string::StringExecFns;

verus! {

broadcast use vstd::std_specs::hash::group_hash_axioms;

pub type RegionIdx = u32;

pub type VertexIdx = u64;

pub type NodeIdx = u64;

/// Why a search gave no result.
#[derive(Debug, Clone, Copy, PartialEq, Eq, Structural)]
pub enum GraphError {
    /// The node at which the search was to start is not held by the region.
    StartNodeNotFound(NodeIdx, RegionIdx),
    /// A node names an edge that the region does not hold.
    VertexNotFound(VertexIdx, RegionIdx),
    /// No walk inside the region leads to the target.
    Unreachable(NodeIdx, RegionIdx),
}

impl GraphError {
    /// What the error says, as a model.
    pub open spec fn message_of(self) -> Seq<char> {
        match self {
            GraphError::StartNodeNotFound(node, region) => "Starting node "@ + decimal(node as nat)
                + " cannot be found in region "@ + decimal(region as nat),
            GraphError::VertexNotFound(vertex, region) => "Vertex "@ + decimal(vertex as nat)
                + " cannot be found in region "@ + decimal(region as nat),
            GraphError::Unreachable(node, region) => "Vertex "@ + decimal(node as nat)
                + " cannot be reached in region "@ + decimal(region as nat),
        }
    }

    /// What the error says.
    pub fn message(&self) -> (text: String)
        ensures
            text@ == self.message_of(),
    {
        let (head, first, middle, second) = match self {
            GraphError::StartNodeNotFound(node, region) => (
                "Starting node ",
                *node,
                " cannot be found in region ",
                *region,
            ),
            GraphError::VertexNotFound(vertex, region) => (
                "Vertex ",
                *vertex,
                " cannot be found in region ",
                *region,
            ),
            GraphError::Unreachable(node, region) => (
                "Vertex ",
                *node,
                " cannot be reached in region ",
                *region,
            ),
        };
        let mut text = String::from_str(head);
        push_decimal(&mut text, first);
        text.append(middle);
        push_decimal(&mut text, second as u64);
        text
    }
}

/// An undirected weighted edge between the nodes `a` and `b`.
#[derive(Debug)]
pub struct Vertex {
    pub a: NodeIdx,
    pub b: NodeIdx,
    pub weight: u64,
    pub id: VertexIdx,
    pub region_bits: RegionBits,
}

/// A node with its place and the ids of the edges that meet it.
#[derive(Debug, Clone)]
pub struct Node {
    pub connections: Vec<VertexIdx>,
    pub id: NodeIdx,
    pub region: RegionIdx,
    pub cord_x: u64,
    pub cord_y: u64,
}

/// The model of an edge.
pub ghost struct VertexView {
    pub a: NodeIdx,
    pub b: NodeIdx,
    pub weight: u64,
    pub id: VertexIdx,
    pub region_bits: Seq<bool>,
}

/// The model of a node.
pub ghost struct NodeView {
    pub connections: Seq<VertexIdx>,
    pub id: NodeIdx,
    pub region: RegionIdx,
    pub cord_x: u64,
    pub cord_y: u64,
}

/// The model of a region's graph.
pub ghost struct GraphView {
    pub nodes: Map<NodeIdx, NodeView>,
    pub vertices: Map<VertexIdx, VertexView>,
    pub region_idx: RegionIdx,
}

impl VertexView {
    /// The edge ends at `n`.
    pub open spec fn touches(self, n: NodeIdx) -> bool {
        n == self.a || n == self.b
    }

    /// The other end of the edge, seen from `n`.
    pub open spec fn neighbour(self, n: NodeIdx) -> NodeIdx {
        if n == self.a {
            self.b
        } else {
            self.a
        }
    }

    /// The edge is marked as leading towards `region`. A region past the end
    /// of the bits is not hinted at.
    pub open spec fn hints_at(self, region: RegionIdx) -> bool {
        region < self.region_bits.len() && self.region_bits[region as int]
    }
}

impl GraphView {
    /// Every edge that a node names and the region holds ends at that node,
    /// and every node is filed under its own id.
    pub open spec fn consistent(self) -> bool {
        &&& forall|n: NodeIdx| #[trigger] self.nodes.contains_key(n) ==> self.nodes[n].id == n
        &&& forall|n: NodeIdx, k: int|
            #![trigger self.nodes[n].connections[k]]
            self.nodes.contains_key(n) && 0 <= k < self.nodes[n].connections.len()
                && self.vertices.contains_key(self.nodes[n].connections[k])
                ==> self.vertices[self.nodes[n].connections[k]].touches(n)
        &&& self.nodes.dom().finite()
    }

    /// Every edge that a node names is held by the region.
    pub open spec fn closed(self) -> bool {
        forall|n: NodeIdx, k: int|
            #![trigger self.nodes[n].connections[k]]
            self.nodes.contains_key(n) && 0 <= k < self.nodes[n].connections.len()
                ==> self.vertices.contains_key(self.nodes[n].connections[k])
    }

    /// `n` lies outside the region: it is not held here, or it is held as a
    /// stitched copy of another region's node.
    pub open spec fn is_boundary(self, n: NodeIdx) -> bool {
        !self.nodes.contains_key(n) || self.nodes[n].region != self.region_idx
    }
}

impl View for Vertex {
    type V = VertexView;

    open spec fn view(&self) -> VertexView {
        VertexView {
            a: self.a,
            b: self.b,
            weight: self.weight,
            id: self.id,
            region_bits: bit_seq(self.region_bits),
        }
    }
}

impl View for Node {
    type V = NodeView;

    open spec fn view(&self) -> NodeView {
        NodeView {
            connections: self.connections@,
            id: self.id,
            region: self.region,
            cord_x: self.cord_x,
            cord_y: self.cord_y,
        }
    }
}

impl Vertex {
    /// The other end of the edge, seen from `a`, which is one of its ends.
    pub fn get_neighbour(&self, a: NodeIdx) -> (other: NodeIdx)
        requires
            self@.touches(a),
        ensures
            other == self@.neighbour(a),
    {
        if a == self.a {
            self.b
        } else {
            self.a
        }
    }

    /// Whether the edge is marked as leading towards `region`.
    pub fn hints_at(&self, region: RegionIdx) -> (hinted: bool)
        ensures
            hinted == self@.hints_at(region),
    {
        match bits_get(&self.region_bits, region as usize) {
            Some(bit) => bit,
            None => false,
        }
    }
}

impl Node {
    pub fn new(
        connections: Vec<VertexIdx>,
        id: NodeIdx,
        region: RegionIdx,
        cord_x: u64,
        cord_y: u64,
    ) -> (node: Self)
        ensures
            node.connections == connections,
            node.id == id,
            node.region == region,
            node.cord_x == cord_x,
            node.cord_y == cord_y,
    {
        Self { connections, id, region, cord_x, cord_y }
    }
}

/// Where a search that left the region goes on.
#[derive(Debug, Clone, Copy, PartialEq, Eq, Structural)]
pub enum Continuation {
    /// The next node is held here as a copy, so its region is known.
    CRegionKnown(NodeIdx, RegionIdx),
    /// The next node is known by its id alone.
    CRegionUnknown(NodeIdx),
}

impl Continuation {
    pub open spec fn node_idx(self) -> NodeIdx {
        match self {
            Continuation::CRegionKnown(idx, _) => idx,
            Continuation::CRegionUnknown(idx) => idx,
        }
    }

    pub fn get_node_idx(&self) -> (idx: NodeIdx)
        ensures
            idx == self.node_idx(),
    {
        match self {
            Continuation::CRegionKnown(idx, _) => *idx,
            Continuation::CRegionUnknown(idx) => *idx,
        }
    }
}

/// The graph of one region: its nodes and edges by id.
#[derive(Debug)]
pub struct Graph {
    pub(crate) nodes: HashMap<NodeIdx, Node>,
    pub(crate) vertices: HashMap<VertexIdx, Vertex>,
    pub(crate) region_idx: RegionIdx,
}

/// The model of the graph that is made of `nodes` and `vertices`.
pub open spec fn graph_model(
    nodes: Map<NodeIdx, Node>,
    vertices: Map<VertexIdx, Vertex>,
    region_idx: RegionIdx,
) -> GraphView {
    GraphView {
        nodes: Map::new(|n: NodeIdx| nodes.contains_key(n), |n: NodeIdx| nodes[n]@),
        vertices: Map::new(|e: VertexIdx| vertices.contains_key(e), |e: VertexIdx| vertices[e]@),
        region_idx,
    }
}

impl View for Graph {
    type V = GraphView;

    closed spec fn view(&self) -> GraphView {
        graph_model(self.nodes@, self.vertices@, self.region_idx)
    }
}

impl Graph {
    #[verifier::type_invariant]
    pub closed spec fn inv(&self) -> bool {
        self@.consistent()
    }

    /// The graph of the region `region_idx` that is made of `nodes` and
    /// `vertices`, which fit together.
    pub fn new(
        nodes: HashMap<NodeIdx, Node>,
        vertices: HashMap<VertexIdx, Vertex>,
        region_idx: RegionIdx,
    ) -> (graph: Self)
        requires
            graph_model(nodes@, vertices@, region_idx).consistent(),
        ensures
            graph@ == graph_model(nodes@, vertices@, region_idx),
    {
        Self { nodes, vertices, region_idx }
    }

    /// The region that the graph belongs to.
    pub fn region_idx(&self) -> (region: RegionIdx)
        ensures
            region == self@.region_idx,
    {
        self.region_idx
    }

    /// The ids of the nodes that the graph holds and that lie in `region`,
    /// each once, in no particular order.
    pub fn nodes_of(&self, region: RegionIdx) -> (ids: Vec<NodeIdx>)
        ensures
            ids@.no_duplicates(),
            forall|n: NodeIdx|
                ids@.contains(n) <==> self@.nodes.contains_key(n) && self@.nodes[n].region == region,
    {
        let mut ids: Vec<NodeIdx> = Vec::new();
        let ghost mut seen: Seq<NodeIdx> = Seq::empty();
        for key in it: self.nodes.keys()
            invariant
                it.seq().no_duplicates(),
                it.seq().unref().to_set() == self.nodes@.dom(),
                seen == it.seq().unref().take(it.index() as int),
                ids@.no_duplicates(),
                forall|n: NodeIdx|
                    #![trigger ids@.contains(n)]
                    #![trigger seen.contains(n)]
                    ids@.contains(n) <==> seen.contains(n) && self.nodes@[n].region == region,
                forall|n: NodeIdx| #[trigger] seen.contains(n) ==> self.nodes@.contains_key(n),
                it.index() == it.seq().len() ==> forall|n: NodeIdx| #[trigger]
                    self.nodes@.contains_key(n) ==> seen.contains(n),
        {
            let ghost all = it.seq().unref();
            let ghost before = ids@;
            let ghost k = it.index() as int;
            proof {
                assert(all.take(k + 1) =~= seen.push(*key));
                assert(!seen.contains(*key));
            }
            let node = self.nodes.get(key);
            let own = match node {
                Some(node) => node.region == region,
                None => false,
            };
            if own {
                ids.push(*key);
            }
            proof {
                let after = seen.push(*key);
                assert forall|n: NodeIdx|
                    #![trigger ids@.contains(n)]
                    #![trigger after.contains(n)]
                    ids@.contains(n) <==> after.contains(n) && self.nodes@[n].region == region by {
                    if ids@.contains(n) {
                        let j = choose|j: int| 0 <= j < ids@.len() && ids@[j] == n;
                        if j < before.len() {
                            assert(before.contains(n));
                        } else {
                            assert(after[k] == n);
                        }
                    }
                    if after.contains(n) && self.nodes@[n].region == region {
                        let i = choose|i: int| 0 <= i < after.len() && after[i] == n;
                        if i < k {
                            assert(seen.contains(n));
                            let j = choose|j: int| 0 <= j < before.len() && before[j] == n;
                            assert(ids@[j] == n);
                        } else {
                            assert(ids@[before.len() as int] == n);
                        }
                    }
                }
                if k + 1 == all.len() {
                    assert(after =~= all);
                }
                seen = after;
            }
        }
        ids
    }

    /// The node filed under `idx`, if the region holds one.
    pub fn get_node(&self, idx: NodeIdx) -> (node: Option<&Node>)
        ensures
            match node {
                Some(n) => self@.nodes.contains_key(idx) && n@ == self@.nodes[idx] && n.id == idx,
                None => !self@.nodes.contains_key(idx),
            },
            self@.consistent(),
    {
        proof {
            use_type_invariant(self);
        }
        self.nodes.get(&idx)
    }

    /// The edge filed under `idx`, if the region holds one.
    pub fn get_vertex(&self, idx: VertexIdx) -> (vertex: Option<&Vertex>)
        ensures
            match vertex {
                Some(v) => self@.vertices.contains_key(idx) && v@ == self@.vertices[idx],
                None => !self@.vertices.contains_key(idx),
            },
            self@.consistent(),
    {
        proof {
            use_type_invariant(self);
        }
        self.vertices.get(&idx)
    }
}

} // verus!
