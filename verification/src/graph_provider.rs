//! Building a region's graph from the rows of its node and edge tables.

use crate::bits::{bits_from_bools, max_bits};
use crate::graph::{
    graph_model, Graph, GraphView, Node, NodeIdx, NodeView, RegionIdx, Vertex, VertexIdx, VertexView,
};
use crate::text::{decimal, numbered};
use std::collections::HashMap;
use vstd::prelude::*;
use vstd::string::StringExecFns;

verus! {

broadcast use vstd::std_specs::hash::group_hash_axioms;

/// A row of a region's node table.
#[derive(Debug, Clone, Copy, PartialEq, Eq, Structural)]
pub struct RawNode {
    pub id: NodeIdx,
    pub cord_x: u64,
    pub cord_y: u64,
    pub region: RegionIdx,
}

/// A row of a region's edge table. `region_bits` is written with the
/// characters `0` and `1`, the bit of region 0 first.
#[derive(Debug, Clone)]
pub struct RawVertex {
    pub id: VertexIdx,
    pub a: NodeIdx,
    pub b: NodeIdx,
    pub weight: u64,
    pub region_bits: String,
}

/// The regions that a group server owns.
#[derive(Debug, Clone)]
pub struct GroupInfo {
    pub group_id: u64,
    pub regions: Vec<RegionIdx>,
}

/// The object of the store that describes the group `group_id`.
pub fn group_object(group_id: u64) -> (name: String)
    ensures
        name@ == "group_"@ + decimal(group_id as nat) + ".json"@,
{
    let mut name = numbered("group_", group_id);
    name.append(".json");
    name
}

/// The object of the store that holds the node table of `region`.
pub fn nodes_object(region: RegionIdx) -> (name: String)
    ensures
        name@ == "nodes_"@ + decimal(region as nat) + ".csv"@,
{
    let mut name = numbered("nodes_", region as u64);
    name.append(".csv");
    name
}

/// The object of the store that holds the edge table of `region`.
pub fn vertices_object(region: RegionIdx) -> (name: String)
    ensures
        name@ == "vertices_"@ + decimal(region as nat) + ".csv"@,
{
    let mut name = numbered("vertices_", region as u64);
    name.append(".csv");
    name
}

/// `text` is made of the characters `0` and `1` and is no longer than a bit
/// vector can be.
pub open spec fn bits_valid(text: Seq<char>) -> bool {
    &&& text.len() <= max_bits()
    &&& forall|i: int| 0 <= i < text.len() ==> text[i] == '0' || text[i] == '1'
}

/// The bits that `text` spells.
pub open spec fn bits_of(text: Seq<char>) -> Seq<bool> {
    Seq::new(text.len(), |i: int| text[i] == '1')
}

/// Reads a string of the characters `0` and `1` as bits. `None` where
/// another character stands in it or it is too long.
pub fn parse_region_bits(text: &str) -> (bits: Option<Vec<bool>>)
    ensures
        bits is Some <==> bits_valid(text@),
        bits is Some ==> bits->0@ == bits_of(text@),
{
    let mut flags: Vec<bool> = Vec::new();
    let limit: usize = usize::MAX / 8;
    for c in it: text.chars()
        invariant
            limit == max_bits(),
            it.seq() == text@,
            flags@.len() == it.index(),
            flags@.len() <= limit,
            forall|i: int| 0 <= i < flags@.len() ==> text@[i] == '0' || text@[i] == '1',
            forall|i: int| 0 <= i < flags@.len() ==> flags@[i] == (text@[i] == '1'),
    {
        if flags.len() >= limit {
            return None;
        }
        if c == '1' {
            flags.push(true);
        } else if c == '0' {
            flags.push(false);
        } else {
            return None;
        }
    }
    Some(flags)
}

/// The model of an edge row.
pub ghost struct RawVertexView {
    pub id: VertexIdx,
    pub a: NodeIdx,
    pub b: NodeIdx,
    pub weight: u64,
    pub region_bits: Seq<char>,
}

impl View for RawVertex {
    type V = RawVertexView;

    open spec fn view(&self) -> RawVertexView {
        RawVertexView {
            id: self.id,
            a: self.a,
            b: self.b,
            weight: self.weight,
            region_bits: self.region_bits@,
        }
    }
}

/// Why a region's tables give no graph.
#[derive(Debug, Clone, Copy, PartialEq, Eq, Structural)]
pub enum LoadError {
    /// The hints of this edge are not written with `0` and `1`, or are too
    /// long.
    BadRegionBits(VertexIdx),
    /// This edge id stands in an earlier row too.
    DuplicateVertex(VertexIdx),
}

/// The edge that a row describes.
pub open spec fn vertex_of(row: RawVertexView) -> VertexView {
    VertexView {
        a: row.a,
        b: row.b,
        weight: row.weight,
        id: row.id,
        region_bits: bits_of(row.region_bits),
    }
}

/// The node that a row describes, with the edges `connections`.
pub open spec fn node_of(row: RawNode, connections: Seq<VertexIdx>) -> NodeView {
    NodeView { connections, id: row.id, region: row.region, cord_x: row.cord_x, cord_y: row.cord_y }
}

/// The models of edge rows.
pub open spec fn rows_of(rows: Seq<RawVertex>) -> Seq<RawVertexView> {
    Seq::new(rows.len(), |i: int| rows[i]@)
}

/// The last row for the node `n`, if there is one.
pub open spec fn last_row(rows: Seq<RawNode>, n: NodeIdx) -> Option<RawNode>
    decreases rows.len(),
{
    if rows.len() == 0 {
        None
    } else if rows.last().id == n {
        Some(rows.last())
    } else {
        last_row(rows.drop_last(), n)
    }
}

/// The ids of the edges that end at `n`, in the order of their rows; an
/// edge from `n` to `n` is named twice.
pub open spec fn incident(rows: Seq<RawVertexView>, n: NodeIdx) -> Seq<VertexIdx>
    decreases rows.len(),
{
    if rows.len() == 0 {
        Seq::empty()
    } else {
        let row = rows.last();
        let before = incident(rows.drop_last(), n);
        let with_a = if row.a == n {
            before.push(row.id)
        } else {
            before
        };
        if row.b == n {
            with_a.push(row.id)
        } else {
            with_a
        }
    }
}

/// Some row describes the edge `e`.
pub open spec fn has_row(rows: Seq<RawVertexView>, e: VertexIdx) -> bool {
    exists|j: int| 0 <= j < rows.len() && (#[trigger] rows[j]).id == e
}

/// The row `i` can be read, and no earlier row has its id.
pub open spec fn row_ok(rows: Seq<RawVertexView>, i: int) -> bool {
    &&& bits_valid(rows[i].region_bits)
    &&& !has_row(rows.take(i), rows[i].id)
}

/// What is wrong with the row `i`.
pub open spec fn row_error(rows: Seq<RawVertexView>, i: int) -> LoadError {
    if !bits_valid(rows[i].region_bits) {
        LoadError::BadRegionBits(rows[i].id)
    } else {
        LoadError::DuplicateVertex(rows[i].id)
    }
}

/// `g` is the graph of the region `region` that the rows describe: a node
/// for each id among the node rows, as its last row has it, with the edges
/// that end at it; and an edge for each edge row.
pub open spec fn built(
    nodes: Seq<RawNode>,
    rows: Seq<RawVertexView>,
    region: RegionIdx,
    g: GraphView,
) -> bool {
    &&& g.region_idx == region
    &&& forall|n: NodeIdx| #[trigger] g.nodes.contains_key(n) <==> last_row(nodes, n) is Some
    &&& forall|n: NodeIdx| #[trigger]
        g.nodes.contains_key(n) ==> g.nodes[n] == node_of(last_row(nodes, n)->0, incident(rows, n))
    &&& forall|e: VertexIdx| #[trigger] g.vertices.contains_key(e) <==> has_row(rows, e)
    &&& forall|i: int|
        0 <= i < rows.len() ==> g.vertices[(#[trigger] rows[i]).id] == vertex_of(rows[i])
}

impl Node {
    /// The node that a row describes, with no edges yet.
    pub fn from_raw(raw_node: &RawNode) -> (node: Node)
        ensures
            node@ == node_of(*raw_node, Seq::empty()),
    {
        Node::new(Vec::new(), raw_node.id, raw_node.region, raw_node.cord_x, raw_node.cord_y)
    }
}

impl Vertex {
    /// The edge that a row describes. `None` where the row's hints cannot
    /// be read.
    pub fn from_raw(raw_vertex: &RawVertex) -> (vertex: Option<Vertex>)
        ensures
            vertex is Some <==> bits_valid(raw_vertex@.region_bits),
            vertex is Some ==> vertex->0@ == vertex_of(raw_vertex@),
    {
        match parse_region_bits(raw_vertex.region_bits.as_str()) {
            None => None,
            Some(flags) => Some(
                Vertex {
                    a: raw_vertex.a,
                    b: raw_vertex.b,
                    weight: raw_vertex.weight,
                    id: raw_vertex.id,
                    region_bits: bits_from_bools(flags),
                },
            ),
        }
    }
}

/// Each edge that `incident` names for `n` has a row, and ends at `n`
/// there.
pub proof fn lemma_incident_touches(rows: Seq<RawVertexView>, n: NodeIdx, k: int)
    requires
        0 <= k < incident(rows, n).len(),
    ensures
        exists|j: int|
            0 <= j < rows.len() && (#[trigger] rows[j]).id == incident(rows, n)[k] && (rows[j].a == n
                || rows[j].b == n),
    decreases rows.len(),
{
    let row = rows.last();
    let before = incident(rows.drop_last(), n);
    if k < before.len() {
        lemma_incident_touches(rows.drop_last(), n, k);
    }
}

/// The rows up to and with the row `i` name what the rows before it name,
/// and the edge of the row `i` at each of its ends.
pub proof fn lemma_incident_step(rows: Seq<RawVertexView>, i: int, n: NodeIdx)
    requires
        0 <= i < rows.len(),
    ensures
        incident(rows.take(i + 1), n) == ({
            let before = incident(rows.take(i), n);
            let with_a = if rows[i].a == n {
                before.push(rows[i].id)
            } else {
                before
            };
            if rows[i].b == n {
                with_a.push(rows[i].id)
            } else {
                with_a
            }
        }),
{
    assert(rows.take(i + 1).drop_last() =~= rows.take(i));
}

/// The rows up to and with the row `i` describe the edges that the rows
/// before it describe, and the edge of the row `i`.
pub proof fn lemma_has_row_step(rows: Seq<RawVertexView>, i: int, e: VertexIdx)
    requires
        0 <= i < rows.len(),
    ensures
        has_row(rows.take(i + 1), e) <==> has_row(rows.take(i), e) || rows[i].id == e,
{
    let more = rows.take(i + 1);
    if rows[i].id == e {
        assert(more[i].id == e);
    }
}

/// The nodes that the rows describe, none with an edge yet.
fn load_nodes(raw_nodes: &Vec<RawNode>) -> (nodes: HashMap<NodeIdx, Node>)
    ensures
        forall|n: NodeIdx| #[trigger] nodes@.contains_key(n) <==> last_row(raw_nodes@, n) is Some,
        forall|n: NodeIdx| #[trigger]
            nodes@.contains_key(n) ==> nodes@[n]@ == node_of(
                last_row(raw_nodes@, n)->0,
                Seq::empty(),
            ),
{
    let mut nodes: HashMap<NodeIdx, Node> = HashMap::new();
    let mut i: usize = 0;
    while i < raw_nodes.len()
        invariant
            i <= raw_nodes@.len(),
            forall|n: NodeIdx| #[trigger]
                nodes@.contains_key(n) <==> last_row(raw_nodes@.take(i as int), n) is Some,
            forall|n: NodeIdx| #[trigger]
                nodes@.contains_key(n) ==> nodes@[n]@ == node_of(
                    last_row(raw_nodes@.take(i as int), n)->0,
                    Seq::empty(),
                ),
        decreases raw_nodes@.len() - i,
    {
        let node = Node::from_raw(&raw_nodes[i]);
        proof {
            assert(raw_nodes@.take(i + 1).drop_last() =~= raw_nodes@.take(i as int));
        }
        nodes.insert(node.id, node);
        i += 1;
    }
    assert(raw_nodes@.take(i as int) =~= raw_nodes@);
    nodes
}

/// Adds the edge `id` to the edges of the node `n`, where there is such a
/// node.
fn attach(nodes: &mut HashMap<NodeIdx, Node>, n: NodeIdx, id: VertexIdx)
    ensures
        forall|m: NodeIdx| #[trigger] final(nodes)@.contains_key(m) <==> old(nodes)@.contains_key(m),
        forall|m: NodeIdx|
            m != n && #[trigger] final(nodes)@.contains_key(m) ==> final(nodes)@[m]@ == old(
                nodes,
            )@[m]@,
        old(nodes)@.contains_key(n) ==> final(nodes)@[n]@ == (NodeView {
            connections: old(nodes)@[n]@.connections.push(id),
            ..old(nodes)@[n]@
        }),
{
    match nodes.remove(&n) {
        Some(node) => {
            let mut node = node;
            node.connections.push(id);
            nodes.insert(n, node);
        },
        None => {},
    }
}

impl Graph {
    /// The graph of the region `region` that the rows of its two tables
    /// describe.
    ///
    /// Of two rows for one node the later one counts. The rows of the edge
    /// table are read in order; the first whose hints cannot be read, or
    /// whose id an earlier row has, ends the reading with its error.
    pub fn from_rows(raw_nodes: &Vec<RawNode>, raw_vertices: &Vec<RawVertex>, region: RegionIdx) -> (r:
        Result<Graph, LoadError>)
        ensures
            match r {
                Ok(graph) => {
                    &&& forall|i: int|
                        0 <= i < raw_vertices@.len() ==> #[trigger] row_ok(rows_of(raw_vertices@), i)
                    &&& built(raw_nodes@, rows_of(raw_vertices@), region, graph@)
                    &&& graph@.closed()
                },
                Err(e) => exists|i: int|
                    {
                        &&& 0 <= i < raw_vertices@.len()
                        &&& forall|j: int| 0 <= j < i ==> #[trigger] row_ok(rows_of(raw_vertices@), j)
                        &&& !(#[trigger] row_ok(rows_of(raw_vertices@), i))
                        &&& e == row_error(rows_of(raw_vertices@), i)
                    },
            },
    {
        let ghost rows = rows_of(raw_vertices@);
        let mut nodes = load_nodes(raw_nodes);
        let mut vertices: HashMap<VertexIdx, Vertex> = HashMap::new();
        let mut i: usize = 0;
        while i < raw_vertices.len()
            invariant
                rows == rows_of(raw_vertices@),
                i <= raw_vertices@.len(),
                forall|n: NodeIdx| #[trigger] nodes@.contains_key(n) <==> last_row(raw_nodes@, n) is Some,
                forall|n: NodeIdx| #[trigger]
                    nodes@.contains_key(n) ==> nodes@[n]@ == node_of(
                        last_row(raw_nodes@, n)->0,
                        incident(rows.take(i as int), n),
                    ),
                forall|e: VertexIdx| #[trigger]
                    vertices@.contains_key(e) <==> has_row(rows.take(i as int), e),
                forall|j: int| 0 <= j < i ==> vertices@[(#[trigger] rows[j]).id]@ == vertex_of(rows[j]),
                forall|j: int| 0 <= j < i ==> #[trigger] row_ok(rows, j),
            decreases raw_vertices@.len() - i,
        {
            let row = &raw_vertices[i];
            let vertex = match Vertex::from_raw(row) {
                Some(vertex) => vertex,
                None => {
                    proof {
                        assert(!row_ok(rows, i as int));
                    }
                    return Err(LoadError::BadRegionBits(row.id));
                },
            };
            if vertices.contains_key(&row.id) {
                proof {
                    assert(!row_ok(rows, i as int));
                }
                return Err(LoadError::DuplicateVertex(row.id));
            }
            attach(&mut nodes, row.a, row.id);
            attach(&mut nodes, row.b, row.id);
            vertices.insert(row.id, vertex);
            proof {
                assert forall|n: NodeIdx| #[trigger] nodes@.contains_key(n) implies nodes@[n]@
                    == node_of(last_row(raw_nodes@, n)->0, incident(rows.take(i + 1), n)) by {
                    lemma_incident_step(rows, i as int, n);
                }
                assert forall|e: VertexIdx| #[trigger]
                    vertices@.contains_key(e) <==> has_row(rows.take(i + 1), e) by {
                    lemma_has_row_step(rows, i as int, e);
                }
                assert forall|j: int| 0 <= j < i + 1 implies vertices@[(#[trigger] rows[j]).id]@
                    == vertex_of(rows[j]) by {
                    if j < i {
                        assert(rows.take(i as int)[j] == rows[j]);
                    }
                }
            }
            i += 1;
        }
        proof {
            assert(rows.take(i as int) =~= rows);
            let g = graph_model(nodes@, vertices@, region);
            assert forall|n: NodeIdx, k: int|
                #![trigger g.nodes[n].connections[k]]
                g.nodes.contains_key(n) && 0 <= k < g.nodes[n].connections.len() implies {
                &&& g.vertices.contains_key(g.nodes[n].connections[k])
                &&& g.vertices[g.nodes[n].connections[k]].touches(n)
            } by {
                lemma_incident_touches(rows, n, k);
            }
            assert(g.nodes.dom() =~= nodes@.dom());
            assert forall|n: NodeIdx| #[trigger] g.nodes.contains_key(n) implies g.nodes[n].id
                == n by {
                lemma_last_row_id(raw_nodes@, n);
            }
        }
        Ok(Graph::new(nodes, vertices, region))
    }
}

/// The last row for a node has that node's id.
pub proof fn lemma_last_row_id(rows: Seq<RawNode>, n: NodeIdx)
    ensures
        last_row(rows, n) is Some ==> last_row(rows, n)->0.id == n,
    decreases rows.len(),
{
    if rows.len() > 0 && rows.last().id != n {
        lemma_last_row_id(rows.drop_last(), n);
    }
}

} // verus!
