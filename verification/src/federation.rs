//! The graph of all regions together, and what a path request says about
//! it: that its path runs along edges and that its cost is their weight.

use crate::domain::{point_ids, PathPoint, PathRequestView};
use crate::graph::{Continuation, GraphError, GraphView, NodeIdx, RegionIdx, VertexIdx};
use crate::routes::PathResult;
use crate::worker::{replied_on, searched, sent_on, ActionView, Event, ServingView};
use vstd::prelude::*;

verus! {

/// Some region of `graphs` holds an edge of weight `weight` between `a` and
/// `b`; or `a` and `b` are one node, and `weight` is nothing.
///
/// A path names a node twice in a row where a search that was handed a
/// node went on from it.
pub open spec fn linked(graphs: Seq<GraphView>, a: NodeIdx, b: NodeIdx, weight: int) -> bool {
    ||| a == b && weight == 0
    ||| exists|i: int, e: VertexIdx|
        {
            &&& 0 <= i < graphs.len()
            &&& #[trigger] graphs[i].vertices.contains_key(e)
            &&& graphs[i].vertices[e].touches(a)
            &&& graphs[i].vertices[e].neighbour(a) == b
            &&& graphs[i].vertices[e].weight == weight
        }
}

/// The sum of `weights`.
pub open spec fn total(weights: Seq<int>) -> int
    decreases weights.len(),
{
    if weights.len() == 0 {
        0
    } else {
        total(weights.drop_last()) + weights.last()
    }
}

/// Each node of `nodes` is linked to the next, by the weights `weights`.
pub open spec fn chained(graphs: Seq<GraphView>, nodes: Seq<NodeIdx>, weights: Seq<int>) -> bool {
    &&& nodes.len() == weights.len() + 1
    &&& forall|i: int|
        0 <= i < weights.len() ==> linked(graphs, nodes[i], nodes[i + 1], #[trigger] weights[i])
}

/// `nodes` run along edges of the regions, and `cost` is what those edges
/// weigh together.
pub open spec fn follows(graphs: Seq<GraphView>, nodes: Seq<NodeIdx>, cost: int) -> bool {
    exists|weights: Seq<int>| #[trigger] chained(graphs, nodes, weights) && total(weights) == cost
}

/// The path of `request`, and behind it the node at which the search is to
/// go on, run along edges of the regions from the request's source, and the
/// request's cost is what those edges weigh together.
pub open spec fn on_track(graphs: Seq<GraphView>, request: PathRequestView) -> bool {
    &&& follows(graphs, point_ids(request.path).push(request.last), request.cost as int)
    &&& point_ids(request.path).push(request.last).first() == request.source.0
}

/// The path of the answer `reply` runs along edges of the regions from the
/// request's source to its target, and the answer's cost is what those
/// edges weigh together.
pub open spec fn answered(graphs: Seq<GraphView>, reply: PathRequestView) -> bool {
    &&& reply.path.len() > 0
    &&& follows(graphs, point_ids(reply.path), reply.cost as int)
    &&& reply.path.first().id == reply.source.0
    &&& reply.path.last().id == reply.target.0
    &&& reply.last == reply.target.0
}

/// The sum of weights that follow each other is the sum of their sums.
pub proof fn lemma_total_concat(a: Seq<int>, b: Seq<int>)
    ensures
        total(a + b) == total(a) + total(b),
    decreases b.len(),
{
    if b.len() == 0 {
    } else {
        lemma_total_concat(a, b.drop_last());
        assert((a + b).drop_last() =~= a + b.drop_last());
    }
}

/// A walk through one of the regions runs along edges of the regions, at
/// its weight.
pub proof fn lemma_walk_follows(
    graphs: Seq<GraphView>,
    i: int,
    hint: Option<RegionIdx>,
    nodes: Seq<NodeIdx>,
    edges: Seq<VertexIdx>,
)
    requires
        0 <= i < graphs.len(),
        graphs[i].consistent(),
        graphs[i].is_walk(hint, nodes, edges),
    ensures
        follows(graphs, nodes, graphs[i].weight(edges)),
    decreases edges.len(),
{
    let g = graphs[i];
    if edges.len() == 0 {
        assert(chained(graphs, nodes, Seq::<int>::empty()));
    } else {
        g.lemma_walk_shorten(hint, nodes, edges);
        lemma_walk_follows(graphs, i, hint, nodes.drop_last(), edges.drop_last());
        let before = choose|weights: Seq<int>| #[trigger]
            chained(graphs, nodes.drop_last(), weights) && total(weights) == g.weight(
                edges.drop_last(),
            );
        let e = edges.last();
        let weights = before.push(g.vertices[e].weight as int);
        assert(weights.drop_last() =~= before);
        assert(chained(graphs, nodes, weights));
    }
}

/// Where one run of nodes ends at the node at which another starts, the
/// two together run along edges too, at the sum of their costs.
pub proof fn lemma_follows_join(
    graphs: Seq<GraphView>,
    head: Seq<NodeIdx>,
    tail: Seq<NodeIdx>,
    head_cost: int,
    tail_cost: int,
)
    requires
        follows(graphs, head, head_cost),
        follows(graphs, tail, tail_cost),
        head.last() == tail.first(),
    ensures
        follows(graphs, head + tail.drop_first(), head_cost + tail_cost),
{
    let a = choose|weights: Seq<int>| #[trigger]
        chained(graphs, head, weights) && total(weights) == head_cost;
    let b = choose|weights: Seq<int>| #[trigger]
        chained(graphs, tail, weights) && total(weights) == tail_cost;
    let nodes = head + tail.drop_first();
    let weights = a + b;
    lemma_total_concat(a, b);
    assert(chained(graphs, nodes, weights));
}

/// A run of nodes that names its last node once more runs along edges at
/// the same cost.
pub proof fn lemma_follows_repeat(graphs: Seq<GraphView>, nodes: Seq<NodeIdx>, cost: int)
    requires
        nodes.len() > 0,
        follows(graphs, nodes, cost),
    ensures
        follows(graphs, nodes.push(nodes.last()), cost),
{
    let more = nodes.push(nodes.last());
    let a = choose|weights: Seq<int>| #[trigger]
        chained(graphs, nodes, weights) && total(weights) == cost;
    let weights = a.push(0int);
    assert(weights.drop_last() =~= a);
    assert(chained(graphs, more, weights));
}

/// Every node of a walk but the last is held by the region, and the last
/// too where the walk stays inside the region.
pub proof fn lemma_walk_nodes_held(
    g: GraphView,
    hint: Option<RegionIdx>,
    nodes: Seq<NodeIdx>,
    edges: Seq<VertexIdx>,
)
    requires
        g.is_walk(hint, nodes, edges),
    ensures
        forall|i: int| 0 <= i < nodes.len() - 1 ==> g.nodes.contains_key(#[trigger] nodes[i]),
        hint is None && g.nodes.contains_key(nodes.first()) ==> g.nodes.contains_key(nodes.last()),
{
    assert forall|i: int| 0 <= i < nodes.len() - 1 implies g.nodes.contains_key(
        #[trigger] nodes[i],
    ) by {
        assert(g.hop(hint, nodes[i], edges[i], nodes[i + 1]));
    }
    if edges.len() > 0 {
        assert(g.hop(hint, nodes[edges.len() - 1], edges[edges.len() - 1], nodes[edges.len() - 1 + 1]));
    }
}

/// The answer to a request is right about the regions' graph where the
/// request was: where the request's path runs along edges at the request's
/// cost up to the node at which the search went on, and the search found
/// the cheapest walk from there to the target inside one region, the
/// answer's path runs along edges from the source to the target, and the
/// answer's cost is what those edges weigh together.
pub proof fn lemma_reply_on_track(
    graphs: Seq<GraphView>,
    i: int,
    request: PathRequestView,
    path: Seq<PathPoint>,
    cost: u64,
)
    requires
        0 <= i < graphs.len(),
        graphs[i].consistent(),
        graphs[i].nodes.contains_key(request.last),
        on_track(graphs, request),
        graphs[i].local_route(request.last, request.target.0, path, cost),
        request.cost + cost <= u64::MAX,
    ensures
        answered(graphs, request.extended(path, request.target.0, cost)),
{
    let g = graphs[i];
    let (nodes, edges) = choose|nodes: Seq<NodeIdx>, edges: Seq<VertexIdx>|
        {
            &&& #[trigger] g.joins(None, request.last, request.target.0, nodes, edges)
            &&& g.weight(edges) == cost
            &&& path == g.points(nodes)
        };
    lemma_walk_nodes_held(g, None, nodes, edges);
    lemma_walk_follows(graphs, i, None, nodes, edges);
    let head = point_ids(request.path).push(request.last);
    lemma_follows_join(graphs, head, nodes, request.cost as int, cost as int);
    let reply = request.extended(path, request.target.0, cost);
    assert(point_ids(reply.path) =~= head + nodes.drop_first());
}

/// A request that is sent on is right about the regions' graph where the
/// request that came was: where that request's path runs along edges at
/// its cost up to the node at which the search went on, and the search
/// found a way out of one region, the same holds of the request that goes
/// out, up to the node past the region's edge.
pub proof fn lemma_forward_on_track(
    graphs: Seq<GraphView>,
    i: int,
    request: PathRequestView,
    towards: RegionIdx,
    path: Seq<PathPoint>,
    cost: u64,
    next: Continuation,
    entered: RegionIdx,
)
    requires
        0 <= i < graphs.len(),
        graphs[i].consistent(),
        graphs[i].nodes.contains_key(request.last),
        on_track(graphs, request),
        graphs[i].is_exit(towards, request.last, path, cost, next),
        request.cost + cost <= u64::MAX,
    ensures
        on_track(graphs, request.forwarded(path, next.node_idx(), cost, entered)),
{
    let g = graphs[i];
    let b = next.node_idx();
    let (nodes, edges) = choose|nodes: Seq<NodeIdx>, edges: Seq<VertexIdx>|
        {
            &&& #[trigger] g.joins(Some(towards), request.last, b, nodes, edges)
            &&& g.weight(edges) == cost
            &&& path == g.points(
                if g.nodes.contains_key(b) {
                    nodes
                } else {
                    nodes.drop_last()
                },
            )
        };
    lemma_walk_nodes_held(g, Some(towards), nodes, edges);
    lemma_walk_follows(graphs, i, Some(towards), nodes, edges);
    let head = point_ids(request.path).push(request.last);
    lemma_follows_join(graphs, head, nodes, request.cost as int, cost as int);
    let out = request.forwarded(path, b, cost, entered);
    let whole = head + nodes.drop_first();
    if g.nodes.contains_key(b) {
        assert(point_ids(out.path) =~= whole);
        lemma_follows_repeat(graphs, whole, request.cost + cost);
    } else {
        assert(point_ids(out.path).push(b) =~= whole);
    }
}

/// What a worker sends is right about the regions' graph where what it
/// was sent is: an answer that completes the request by a result of the
/// search, and a request that such a result sends on.
pub proof fn lemma_sent_on_track(
    graphs: Seq<GraphView>,
    i: int,
    request: PathRequestView,
    results: Seq<PathResult>,
    action: ActionView,
)
    requires
        0 <= i < graphs.len(),
        graphs[i].consistent(),
        graphs[i].nodes.contains_key(request.last),
        on_track(graphs, request),
        searched(graphs[i], request, Ok::<Seq<PathResult>, GraphError>(results)),
        action is Reply ==> replied_on(request, results, action->Reply_0),
        action is Forward ==> sent_on(request, results, action->Forward_1),
    ensures
        match action {
            ActionView::Reply(reply) => answered(graphs, reply),
            ActionView::Forward(_, out) => on_track(graphs, out),
            _ => true,
        },
{
    match action {
        ActionView::Reply(reply) => {
            let k = choose|k: int|
                {
                    &&& 0 <= k < results.len()
                    &&& #[trigger] results[k] is TargetReached
                    &&& request.cost + results[k].cost() <= u64::MAX
                    &&& reply == request.extended(
                        results[k].path(),
                        request.target.0,
                        results[k].cost(),
                    )
                };
            lemma_reply_on_track(graphs, i, request, results[k].path(), results[k].cost());
        },
        ActionView::Forward(_, out) => {
            let (k, region) = choose|k: int, region: RegionIdx|
                {
                    &&& 0 <= k < results.len()
                    &&& #[trigger] results[k] is Continue
                    &&& !request.visited_regions.contains(region)
                    &&& request.cost + results[k].cost() <= u64::MAX
                    &&& out == #[trigger] request.forwarded(
                        results[k].path(),
                        results[k]->Continue_2.node_idx(),
                        results[k].cost(),
                        region,
                    )
                };
            lemma_forward_on_track(
                graphs,
                i,
                request,
                request.target.1,
                results[k].path(),
                results[k].cost(),
                results[k]->Continue_2,
                region,
            );
        },
        _ => {},
    }
}

/// Every answer is right about the regions' graph, and so is every request
/// that is sent on: where a worker serves a request whose path runs along
/// edges at the request's cost, with what a search of the graph that holds
/// the request's frontier node found, the answer that it gives runs along
/// edges from the source to the target at its cost, and each request that
/// it sends on runs along edges at its cost up to its own frontier node.
pub proof fn lemma_worker_keeps_track(
    graphs: Seq<GraphView>,
    i: int,
    state: ServingView,
    event: Event,
)
    requires
        0 <= i < graphs.len(),
        graphs[i].consistent(),
        graphs[i].nodes.contains_key(state.request.last),
        on_track(graphs, state.request),
        searched(graphs[i], state.request, Ok::<Seq<PathResult>, GraphError>(state.results)),
        state.wf(),
        !(state.phase is Finished),
    ensures
        match state.step(event).1 {
            ActionView::Reply(reply) => answered(graphs, reply),
            ActionView::Forward(_, out) => on_track(graphs, out),
            _ => true,
        },
        match ServingView::initial(state.worker, state.request, state.results).advance().1 {
            ActionView::Reply(reply) => answered(graphs, reply),
            ActionView::Forward(_, out) => on_track(graphs, out),
            _ => true,
        },
{
    state.lemma_step(event);
    lemma_sent_on_track(graphs, i, state.request, state.results, state.step(event).1);
    let first = ServingView::initial(state.worker, state.request, state.results);
    first.lemma_advance();
    lemma_sent_on_track(graphs, i, state.request, state.results, first.advance().1);
}

} // verus!
