//! What a worker decides while it serves one request.
//!
//! A worker searches the graph that holds the request's frontier node and
//! then, step by step, tells its surroundings what to do next: ask the
//! directory, send the request on, or answer the submitter. The
//! surroundings act and report back with an event. Whatever happens, the
//! last step frees the worker.

use crate::directory::ServerIdx;
use crate::domain::{
    copy_points, point_of, region_visited, NodeInfo, PathPoint, PathRequest, PathRequestView,
};
use crate::graph::{Continuation, Graph, GraphError, GraphView, NodeIdx, RegionIdx};
use crate::routes::PathResult;
use vstd::prelude::*;

verus! {

/// Why a request was given up.
#[derive(Debug, Clone, Copy, PartialEq, Eq, Structural)]
pub enum DropReason {
    /// No graph of this server holds the request's frontier node.
    NotServed,
    /// The search failed.
    Search(GraphError),
    /// The directory did not answer.
    Directory,
    /// A message could not be sent.
    Transport,
    /// The cost of the path does not fit into 64 bits.
    CostOverflow,
    /// An event came that the worker was not waiting for.
    Unexpected,
}

/// How the serving of a request ended.
#[derive(Debug, Clone, Copy, PartialEq, Eq, Structural)]
pub enum Outcome {
    /// The completed request went to the submitter.
    Replied,
    /// This many requests went on to other servers.
    Forwarded(usize),
    /// The request was given up.
    Dropped(DropReason),
}

/// What the surroundings report back.
#[derive(Debug, Clone, Copy, PartialEq, Eq, Structural)]
pub enum Event {
    /// The directory names the region of the node asked for.
    RegionResolved(RegionIdx),
    /// The directory names the server of the region asked for.
    ServerResolved(ServerIdx),
    /// The message is out.
    Sent,
    /// The directory or the transport failed.
    Failed,
}

/// What the surroundings are to do next.
#[derive(Debug)]
pub enum Action {
    /// Send the completed request to the submitter, then report `Sent` or
    /// `Failed`.
    Reply(PathRequest),
    /// Ask the directory for the region of this node, then report
    /// `RegionResolved` or `Failed`.
    ResolveRegion(NodeIdx),
    /// Ask the directory for the server of this region, then report
    /// `ServerResolved` or `Failed`.
    ResolveServer(RegionIdx),
    /// Send the request on to this server, then report `Sent` or `Failed`.
    Forward(ServerIdx, PathRequest),
    /// Tell the dispatcher that this worker is idle. Nothing is to be
    /// reported back.
    Free(usize, Outcome),
}

/// The model of an action.
pub ghost enum ActionView {
    Reply(PathRequestView),
    ResolveRegion(NodeIdx),
    ResolveServer(RegionIdx),
    Forward(ServerIdx, PathRequestView),
    Free(usize, Outcome),
}

impl View for Action {
    type V = ActionView;

    open spec fn view(&self) -> ActionView {
        match self {
            Action::Reply(request) => ActionView::Reply(request@),
            Action::ResolveRegion(node) => ActionView::ResolveRegion(*node),
            Action::ResolveServer(region) => ActionView::ResolveServer(*region),
            Action::Forward(server, request) => ActionView::Forward(*server, request@),
            Action::Free(worker, outcome) => ActionView::Free(*worker, *outcome),
        }
    }
}

/// What a worker is waiting for.
#[derive(Debug, Clone, Copy, PartialEq, Eq, Structural)]
pub enum Phase {
    /// The region of the next result's node.
    AwaitRegion,
    /// The server of this region, which the next result leads to.
    AwaitServer(RegionIdx),
    /// The answer to the submitter to be out.
    AwaitReply,
    /// The next request of the outbox to be out.
    Sending,
    /// Nothing: the worker is free.
    Finished,
}

/// The model of a request being served.
pub ghost struct ServingView {
    /// The worker that serves.
    pub worker: usize,
    /// The request as it came.
    pub request: PathRequestView,
    /// What the search found.
    pub results: Seq<PathResult>,
    /// How many of the results have been dealt with.
    pub cursor: int,
    /// The requests to send on, each with its server.
    pub outbox: Seq<(ServerIdx, PathRequestView)>,
    /// How many of them are out.
    pub sent: int,
    pub phase: Phase,
}

/// `out` is `request` as one of `results` sends it on, to a region that it
/// has not been sent to before.
pub open spec fn sent_on(
    request: PathRequestView,
    results: Seq<PathResult>,
    out: PathRequestView,
) -> bool {
    exists|i: int, region: RegionIdx|
        {
            &&& 0 <= i < results.len()
            &&& #[trigger] results[i] is Continue
            &&& !request.visited_regions.contains(region)
            &&& request.cost + results[i].cost() <= u64::MAX
            &&& out == #[trigger] request.forwarded(
                results[i].path(),
                results[i]->Continue_2.node_idx(),
                results[i].cost(),
                region,
            )
        }
}

/// `reply` is `request` as one of `results`, which reaches the target,
/// completes it.
pub open spec fn replied_on(
    request: PathRequestView,
    results: Seq<PathResult>,
    reply: PathRequestView,
) -> bool {
    exists|i: int|
        {
            &&& 0 <= i < results.len()
            &&& #[trigger] results[i] is TargetReached
            &&& request.cost + results[i].cost() <= u64::MAX
            &&& reply == request.extended(results[i].path(), request.target.0, results[i].cost())
        }
}

impl ServingView {
    /// `out` is the request as sent on to a region that it has not been
    /// sent to before.
    pub open spec fn sends_on(self, out: PathRequestView) -> bool {
        sent_on(self.request, self.results, out)
    }

    /// The state fits together.
    pub open spec fn wf(self) -> bool {
        &&& 0 <= self.cursor <= self.results.len()
        &&& 0 <= self.sent <= self.outbox.len()
        &&& forall|i: int| 0 <= i < self.outbox.len() ==> self.sends_on((#[trigger] self.outbox[i]).1)
        &&& match self.phase {
            Phase::AwaitRegion => {
                &&& self.cursor < self.results.len()
                &&& self.results[self.cursor] is Continue
                &&& self.results[self.cursor]->Continue_2 is CRegionUnknown
                &&& self.sent == 0
            },
            Phase::AwaitServer(region) => {
                &&& self.cursor < self.results.len()
                &&& self.results[self.cursor] is Continue
                &&& !self.request.visited_regions.contains(region)
                &&& self.request.cost + self.results[self.cursor].cost() <= u64::MAX
                &&& self.sent == 0
            },
            Phase::AwaitReply => self.sent == 0,
            Phase::Sending => self.cursor == self.results.len() && self.sent < self.outbox.len(),
            Phase::Finished => true,
        }
    }

    /// The worker is freed.
    pub open spec fn finish(self, outcome: Outcome) -> (ServingView, ActionView) {
        (ServingView { phase: Phase::Finished, ..self }, ActionView::Free(self.worker, outcome))
    }

    /// All results are dealt with: the next request of the outbox goes out,
    /// or, where none is left, the worker is freed.
    pub open spec fn flush(self) -> (ServingView, ActionView) {
        if self.sent < self.outbox.len() {
            (
                ServingView { phase: Phase::Sending, ..self },
                ActionView::Forward(self.outbox[self.sent].0, self.outbox[self.sent].1),
            )
        } else {
            self.finish(Outcome::Forwarded(self.sent as usize))
        }
    }

    /// The next result leads to `region`: where the request has been there,
    /// the result is passed over; where the cost does not fit, the request is
    /// given up; else the server of the region is asked for.
    pub open spec fn route(self, region: RegionIdx) -> (ServingView, ActionView)
        decreases self.results.len() - self.cursor, 0int,
    {
        if self.cursor < 0 || self.cursor >= self.results.len() {
            self.finish(Outcome::Dropped(DropReason::Unexpected))
        } else if self.request.visited_regions.contains(region) {
            (ServingView { cursor: self.cursor + 1, phase: Phase::Finished, ..self }).advance()
        } else if self.request.cost + self.results[self.cursor].cost() > u64::MAX {
            self.finish(Outcome::Dropped(DropReason::CostOverflow))
        } else {
            (
                ServingView { phase: Phase::AwaitServer(region), ..self },
                ActionView::ResolveServer(region),
            )
        }
    }

    /// Deals with the results from `cursor` on, up to the first that needs
    /// the surroundings.
    ///
    /// A result that reaches the target is answered to the submitter, and
    /// nothing is done about the results behind it. A result that leaves the
    /// region is routed to the region of its node, which is asked for where
    /// the result does not name it.
    pub open spec fn advance(self) -> (ServingView, ActionView)
        decreases self.results.len() - self.cursor, 1int,
    {
        if self.cursor < 0 || self.cursor >= self.results.len() {
            self.flush()
        } else {
            match self.results[self.cursor] {
                PathResult::TargetReached(path, cost) => {
                    if self.request.cost + cost <= u64::MAX {
                        (
                            ServingView { phase: Phase::AwaitReply, ..self },
                            ActionView::Reply(
                                self.request.extended(path@, self.request.target.0, cost),
                            ),
                        )
                    } else {
                        self.finish(Outcome::Dropped(DropReason::CostOverflow))
                    }
                },
                PathResult::Continue(_, _, Continuation::CRegionKnown(_, region)) => self.route(
                    region,
                ),
                PathResult::Continue(_, _, Continuation::CRegionUnknown(node)) => (
                    ServingView { phase: Phase::AwaitRegion, ..self },
                    ActionView::ResolveRegion(node),
                ),
            }
        }
    }

    /// The request that the result at `cursor` sends on to `region`.
    pub open spec fn onward(self, region: RegionIdx) -> PathRequestView {
        self.request.forwarded(
            self.results[self.cursor].path(),
            self.results[self.cursor]->Continue_2.node_idx(),
            self.results[self.cursor].cost(),
            region,
        )
    }

    /// What the worker does when `event` is reported.
    ///
    /// A failure frees the worker at once, and so does an event that the
    /// worker was not waiting for; what was to be sent on is not sent.
    pub open spec fn step(self, event: Event) -> (ServingView, ActionView) {
        match (self.phase, event) {
            (Phase::AwaitRegion, Event::RegionResolved(region)) => self.route(region),
            (Phase::AwaitServer(region), Event::ServerResolved(server)) => (ServingView {
                outbox: self.outbox.push((server, self.onward(region))),
                cursor: self.cursor + 1,
                phase: Phase::Finished,
                ..self
            }).advance(),
            (Phase::AwaitReply, Event::Sent) => self.finish(Outcome::Replied),
            (Phase::Sending, Event::Sent) => (ServingView {
                sent: self.sent + 1,
                phase: Phase::Finished,
                ..self
            }).flush(),
            (Phase::AwaitRegion, Event::Failed) => self.finish(
                Outcome::Dropped(DropReason::Directory),
            ),
            (Phase::AwaitServer(_), Event::Failed) => self.finish(
                Outcome::Dropped(DropReason::Directory),
            ),
            (Phase::AwaitReply, Event::Failed) => self.finish(
                Outcome::Dropped(DropReason::Transport),
            ),
            (Phase::Sending, Event::Failed) => self.finish(Outcome::Dropped(DropReason::Transport)),
            _ => self.finish(Outcome::Dropped(DropReason::Unexpected)),
        }
    }

    /// How many steps the worker can still take before it is freed, at most.
    pub open spec fn steps_left(self) -> int {
        match self.phase {
            Phase::Finished => 0,
            Phase::AwaitReply => 1,
            Phase::Sending => self.outbox.len() - self.sent,
            Phase::AwaitRegion => 3 * (self.results.len() - self.cursor) + self.outbox.len() + 1,
            Phase::AwaitServer(_) => 3 * (self.results.len() - self.cursor) + self.outbox.len(),
        }
    }

    /// The state in which the worker `worker` starts to deal with what the
    /// search for `request` found.
    pub open spec fn initial(worker: usize, request: PathRequestView, results: Seq<PathResult>) -> ServingView {
        ServingView {
            worker,
            request,
            results,
            cursor: 0,
            outbox: Seq::empty(),
            sent: 0,
            phase: Phase::Finished,
        }
    }

    /// The results are dealt with one after the other, and no request has
    /// gone out yet.
    pub open spec fn collecting(self) -> bool {
        &&& 0 <= self.cursor <= self.results.len()
        &&& self.sent == 0
        &&& forall|i: int| 0 <= i < self.outbox.len() ==> self.sends_on((#[trigger] self.outbox[i]).1)
    }

    /// Dealing with results leaves a state that fits together, in which the
    /// worker is freed or waits, with fewer steps left than three for each
    /// result that was undealt with, one for each request in the outbox, and
    /// one more.
    pub proof fn lemma_advance(self)
        requires
            self.collecting(),
        ensures
            self.advance().0.wf(),
            self.advance().0.steps_left() <= 3 * (self.results.len() - self.cursor)
                + self.outbox.len() + 1,
            self.advance().1 is Free <==> self.advance().0.phase is Finished,
            self.advance().0.results == self.results,
            self.advance().0.request == self.request,
            self.advance().0.worker == self.worker,
            self.advance().1 is Forward ==> self.sends_on(self.advance().1->Forward_1),
            self.advance().1 is Reply ==> replied_on(
                self.request,
                self.results,
                self.advance().1->Reply_0,
            ),
        decreases self.results.len() - self.cursor, 1int,
    {
        if self.cursor < self.results.len() {
            match self.results[self.cursor] {
                PathResult::Continue(_, _, Continuation::CRegionKnown(_, region)) => {
                    self.lemma_route(region);
                },
                _ => {},
            }
        }
    }

    /// Routing a result leaves a state that fits together, with fewer steps
    /// left than three for each result that was undealt with and one for
    /// each request in the outbox.
    pub proof fn lemma_route(self, region: RegionIdx)
        requires
            self.collecting(),
            self.cursor < self.results.len(),
            self.results[self.cursor] is Continue,
        ensures
            self.route(region).0.wf(),
            self.route(region).0.steps_left() <= 3 * (self.results.len() - self.cursor)
                + self.outbox.len(),
            self.route(region).1 is Free <==> self.route(region).0.phase is Finished,
            self.route(region).0.results == self.results,
            self.route(region).0.request == self.request,
            self.route(region).0.worker == self.worker,
            self.route(region).1 is Forward ==> self.sends_on(self.route(region).1->Forward_1),
            self.route(region).1 is Reply ==> replied_on(
                self.request,
                self.results,
                self.route(region).1->Reply_0,
            ),
        decreases self.results.len() - self.cursor, 0int,
    {
        if self.request.visited_regions.contains(region) {
            let next = ServingView { cursor: self.cursor + 1, phase: Phase::Finished, ..self };
            next.lemma_advance();
        }
    }

    /// Whatever is reported, the worker stays in a state that fits together
    /// and comes closer to being freed; it is freed in the end, and at once
    /// where a failure is reported.
    pub proof fn lemma_step(self, event: Event)
        requires
            self.wf(),
            !(self.phase is Finished),
        ensures
            self.step(event).0.wf(),
            0 <= self.step(event).0.steps_left() < self.steps_left(),
            self.step(event).1 is Free <==> self.step(event).0.phase is Finished,
            event is Failed ==> self.step(event).1 is Free,
            self.step(event).0.results == self.results,
            self.step(event).0.request == self.request,
            self.step(event).0.worker == self.worker,
            self.step(event).1 is Forward ==> self.sends_on(self.step(event).1->Forward_1),
            self.step(event).1 is Reply ==> replied_on(
                self.request,
                self.results,
                self.step(event).1->Reply_0,
            ),
    {
        match (self.phase, event) {
            (Phase::AwaitRegion, Event::RegionResolved(region)) => {
                self.lemma_route(region);
            },
            (Phase::AwaitServer(region), Event::ServerResolved(server)) => {
                let next = ServingView {
                    outbox: self.outbox.push((server, self.onward(region))),
                    cursor: self.cursor + 1,
                    phase: Phase::Finished,
                    ..self
                };
                next.lemma_advance();
            },
            _ => {},
        }
    }

    /// A request is never sent on to a region that it has been sent to
    /// before: what goes out is the request that came in, under the same id,
    /// and names one more region among the visited, each of them once.
    pub proof fn lemma_no_region_revisit(self, event: Event)
        requires
            self.wf(),
            !(self.phase is Finished),
            self.request.visited_regions.no_duplicates(),
        ensures
            match self.step(event).1 {
                ActionView::Forward(_, out) => {
                    &&& out.request_id == self.request.request_id
                    &&& out.source == self.request.source
                    &&& out.target == self.request.target
                    &&& out.visited_regions.no_duplicates()
                    &&& exists|region: RegionIdx|
                        {
                            &&& !self.request.visited_regions.contains(region)
                            &&& out.visited_regions == #[trigger] self.request.visited_regions.push(
                                region,
                            )
                        }
                },
                _ => true,
            },
    {
        self.lemma_step(event);
    }
}

/// A request being served by a worker.
#[derive(Debug)]
pub struct Serving {
    worker: usize,
    request: PathRequest,
    results: Vec<PathResult>,
    cursor: usize,
    outbox: Vec<(ServerIdx, PathRequest)>,
    sent: usize,
    phase: Phase,
}

/// The models of the requests in an outbox.
pub open spec fn outbox_view(outbox: Seq<(ServerIdx, PathRequest)>) -> Seq<
    (ServerIdx, PathRequestView),
> {
    Seq::new(outbox.len(), |i: int| (outbox[i].0, outbox[i].1@))
}

impl View for Serving {
    type V = ServingView;

    closed spec fn view(&self) -> ServingView {
        ServingView {
            worker: self.worker,
            request: self.request@,
            results: self.results@,
            cursor: self.cursor as int,
            outbox: outbox_view(self.outbox@),
            sent: self.sent as int,
            phase: self.phase,
        }
    }
}

impl Serving {
    #[verifier::type_invariant]
    closed spec fn inv(&self) -> bool {
        self@.wf()
    }

    fn finish(self, outcome: Outcome) -> (r: (Serving, Action))
        ensures
            (r.0@, r.1@) == self@.finish(outcome),
    {
        proof {
            use_type_invariant(&self);
        }
        let worker = self.worker;
        (Serving { phase: Phase::Finished, ..self }, Action::Free(worker, outcome))
    }

    fn flush(self) -> (r: (Serving, Action))
        requires
            self@.cursor == self@.results.len(),
        ensures
            (r.0@, r.1@) == self@.flush(),
    {
        proof {
            use_type_invariant(&self);
        }
        if self.sent < self.outbox.len() {
            let server = self.outbox[self.sent].0;
            let request = self.outbox[self.sent].1.duplicate();
            (Serving { phase: Phase::Sending, ..self }, Action::Forward(server, request))
        } else {
            let sent = self.sent;
            self.finish(Outcome::Forwarded(sent))
        }
    }

    fn route(self, region: RegionIdx) -> (r: (Serving, Action))
        requires
            self@.collecting(),
            self@.cursor < self@.results.len(),
            self@.results[self@.cursor] is Continue,
        ensures
            (r.0@, r.1@) == self@.route(region),
        decreases self@.results.len() - self@.cursor, 0int,
    {
        proof {
            use_type_invariant(&self);
        }
        if region_visited(&self.request.visited_regions, region) {
            assert(self.cursor < self.results.len());
            let next = Serving { cursor: self.cursor + 1, phase: Phase::Finished, ..self };
            next.advance()
        } else {
            let cost = match &self.results[self.cursor] {
                PathResult::Continue(_, cost, _) => *cost,
                PathResult::TargetReached(_, cost) => *cost,
            };
            if !self.request.can_add(cost) {
                self.finish(Outcome::Dropped(DropReason::CostOverflow))
            } else {
                (
                    Serving { phase: Phase::AwaitServer(region), ..self },
                    Action::ResolveServer(region),
                )
            }
        }
    }

    fn advance(self) -> (r: (Serving, Action))
        requires
            self@.collecting(),
        ensures
            (r.0@, r.1@) == self@.advance(),
        decreases self@.results.len() - self@.cursor, 1int,
    {
        proof {
            use_type_invariant(&self);
        }
        if self.cursor >= self.results.len() {
            return self.flush();
        }
        match &self.results[self.cursor] {
            PathResult::TargetReached(path, cost) => {
                let cost = *cost;
                if self.request.can_add(cost) {
                    let reply = self.request.update_without_region(
                        copy_points(path),
                        self.request.target.0,
                        cost,
                    );
                    (Serving { phase: Phase::AwaitReply, ..self }, Action::Reply(reply))
                } else {
                    self.finish(Outcome::Dropped(DropReason::CostOverflow))
                }
            },
            PathResult::Continue(_, _, Continuation::CRegionKnown(_, region)) => {
                let region = *region;
                self.route(region)
            },
            PathResult::Continue(_, _, Continuation::CRegionUnknown(node)) => {
                let node = *node;
                (Serving { phase: Phase::AwaitRegion, ..self }, Action::ResolveRegion(node))
            },
        }
    }

    /// A worker that has nothing to deal with.
    fn idle(worker: usize, request: PathRequest) -> (serving: Serving)
        ensures
            serving@ == ServingView::initial(worker, request@, Seq::empty()),
    {
        let serving = Serving {
            worker,
            request,
            results: Vec::new(),
            cursor: 0,
            outbox: Vec::new(),
            sent: 0,
            phase: Phase::Finished,
        };
        assert(serving@.outbox =~= Seq::empty());
        serving
    }

    /// Starts to deal with `results`, which the search for `request` found.
    pub fn with_results(worker: usize, request: PathRequest, results: Vec<PathResult>) -> (r: (
        Serving,
        Action,
    ))
        ensures
            (r.0@, r.1@) == ServingView::initial(worker, request@, results@).advance(),
            r.0@.wf(),
    {
        let serving = Serving {
            worker,
            request,
            results,
            cursor: 0,
            outbox: Vec::new(),
            sent: 0,
            phase: Phase::Finished,
        };
        proof {
            assert(serving@.outbox =~= Seq::empty());
            serving@.lemma_advance();
        }
        serving.advance()
    }

    /// What the worker does when `event` is reported.
    pub fn step(self, event: Event) -> (r: (Serving, Action))
        ensures
            (r.0@, r.1@) == self@.step(event),
            self@.wf(),
            r.0@.wf(),
    {
        proof {
            use_type_invariant(&self);
            if !(self@.phase is Finished) {
                self@.lemma_step(event);
            }
        }
        match self.phase {
            Phase::AwaitRegion => match event {
                Event::RegionResolved(region) => self.route(region),
                Event::Failed => self.finish(Outcome::Dropped(DropReason::Directory)),
                _ => self.finish(Outcome::Dropped(DropReason::Unexpected)),
            },
            Phase::AwaitServer(region) => match event {
                Event::ServerResolved(server) => {
                    let ghost before = self@;
                    let (path, cost, node) = match &self.results[self.cursor] {
                        PathResult::Continue(path, cost, next) => (
                            copy_points(path),
                            *cost,
                            next.get_node_idx(),
                        ),
                        PathResult::TargetReached(path, cost) => (copy_points(path), *cost, 0),
                    };
                    assert(self.cursor < self.results.len());
                    let out = self.request.update(path, node, cost, region);
                    let Serving { worker, request, results, cursor, outbox, sent, phase } = self;
                    let mut outbox = outbox;
                    outbox.push((server, out));
                    proof {
                        assert(outbox_view(outbox@) =~= before.outbox.push(
                            (server, before.onward(region)),
                        ));
                    }
                    let next = Serving {
                        worker,
                        request,
                        results,
                        cursor: cursor + 1,
                        outbox,
                        sent,
                        phase: Phase::Finished,
                    };
                    next.advance()
                },
                Event::Failed => self.finish(Outcome::Dropped(DropReason::Directory)),
                _ => self.finish(Outcome::Dropped(DropReason::Unexpected)),
            },
            Phase::AwaitReply => match event {
                Event::Sent => self.finish(Outcome::Replied),
                Event::Failed => self.finish(Outcome::Dropped(DropReason::Transport)),
                _ => self.finish(Outcome::Dropped(DropReason::Unexpected)),
            },
            Phase::Sending => match event {
                Event::Sent => {
                    assert(self.sent < self.outbox.len());
                    let next = Serving { sent: self.sent + 1, phase: Phase::Finished, ..self };
                    next.flush()
                },
                Event::Failed => self.finish(Outcome::Dropped(DropReason::Transport)),
                _ => self.finish(Outcome::Dropped(DropReason::Unexpected)),
            },
            Phase::Finished => self.finish(Outcome::Dropped(DropReason::Unexpected)),
        }
    }

    /// Whether the worker has been freed.
    pub fn is_finished(&self) -> (finished: bool)
        ensures
            finished == (self@.phase is Finished),
    {
        match self.phase {
            Phase::Finished => true,
            _ => false,
        }
    }
}

/// The models of a server's graphs.
pub open spec fn graph_views(graphs: Seq<Graph>) -> Seq<GraphView> {
    Seq::new(graphs.len(), |i: int| graphs[i]@)
}

/// The first graph that holds `n` as a node of its own region.
pub open spec fn first_own(graphs: Seq<GraphView>, n: NodeIdx) -> Option<int>
    decreases graphs.len(),
{
    if graphs.len() == 0 {
        None
    } else {
        match first_own(graphs.drop_last(), n) {
            Some(i) => Some(i),
            None => if !graphs.last().is_boundary(n) {
                Some(graphs.len() - 1)
            } else {
                None
            },
        }
    }
}

/// The first graph that holds `n`.
pub open spec fn first_holding(graphs: Seq<GraphView>, n: NodeIdx) -> Option<int>
    decreases graphs.len(),
{
    if graphs.len() == 0 {
        None
    } else {
        match first_holding(graphs.drop_last(), n) {
            Some(i) => Some(i),
            None => if graphs.last().nodes.contains_key(n) {
                Some(graphs.len() - 1)
            } else {
                None
            },
        }
    }
}

/// The graph in which a search from `n` starts: the first that holds `n` as
/// a node of its own region, or, where none does, the first that holds `n`
/// at all.
pub open spec fn start_graph(graphs: Seq<GraphView>, n: NodeIdx) -> Option<int> {
    match first_own(graphs, n) {
        Some(i) => Some(i),
        None => first_holding(graphs, n),
    }
}

/// The graph at which `start_graph` points holds the node.
pub proof fn lemma_start_graph_holds(graphs: Seq<GraphView>, n: NodeIdx)
    ensures
        match start_graph(graphs, n) {
            Some(i) => 0 <= i < graphs.len() && graphs[i].nodes.contains_key(n),
            None => forall|i: int| 0 <= i < graphs.len() ==> !(#[trigger] graphs[i]).nodes.contains_key(n),
        },
    decreases graphs.len(),
{
    lemma_first_own(graphs, n);
    lemma_first_holding(graphs, n);
}

/// `first_own` points at a graph that holds the node as its own, or no
/// graph does.
proof fn lemma_first_own(graphs: Seq<GraphView>, n: NodeIdx)
    ensures
        match first_own(graphs, n) {
            Some(i) => 0 <= i < graphs.len() && !graphs[i].is_boundary(n),
            None => forall|i: int| 0 <= i < graphs.len() ==> (#[trigger] graphs[i]).is_boundary(n),
        },
    decreases graphs.len(),
{
    if graphs.len() > 0 {
        lemma_first_own(graphs.drop_last(), n);
        if first_own(graphs.drop_last(), n) is None {
            assert forall|i: int| 0 <= i < graphs.len() - 1 implies (#[trigger] graphs[i]).is_boundary(
                n,
            ) by {
                assert(graphs.drop_last()[i] == graphs[i]);
            }
        }
    }
}

/// `first_holding` points at a graph that holds the node, or no graph
/// does.
proof fn lemma_first_holding(graphs: Seq<GraphView>, n: NodeIdx)
    ensures
        match first_holding(graphs, n) {
            Some(i) => 0 <= i < graphs.len() && graphs[i].nodes.contains_key(n),
            None => forall|i: int|
                0 <= i < graphs.len() ==> !(#[trigger] graphs[i]).nodes.contains_key(n),
        },
    decreases graphs.len(),
{
    if graphs.len() > 0 {
        lemma_first_holding(graphs.drop_last(), n);
        if first_holding(graphs.drop_last(), n) is None {
            assert forall|i: int| 0 <= i < graphs.len() - 1 implies !(#[trigger] graphs[i]).nodes.contains_key(
                n,
            ) by {
                assert(graphs.drop_last()[i] == graphs[i]);
            }
        }
    }
}

/// The graph in which a search from `last` starts, if this server has one.
pub fn find_start(graphs: &Vec<Graph>, last: NodeIdx) -> (start: Option<usize>)
    ensures
        match start {
            Some(i) => start_graph(graph_views(graphs@), last) == Some(i as int) && i < graphs@.len()
                && graphs@[i as int]@.nodes.contains_key(last),
            None => start_graph(graph_views(graphs@), last) is None,
        },
{
    let ghost views = graph_views(graphs@);
    let mut own: Option<usize> = None;
    let mut holding: Option<usize> = None;
    let mut i: usize = 0;
    while i < graphs.len()
        invariant
            views == graph_views(graphs@),
            i <= graphs@.len(),
            match own {
                Some(k) => first_own(views.take(i as int), last) == Some(k as int),
                None => first_own(views.take(i as int), last) is None,
            },
            match holding {
                Some(k) => first_holding(views.take(i as int), last) == Some(k as int),
                None => first_holding(views.take(i as int), last) is None,
            },
        decreases graphs@.len() - i,
    {
        proof {
            assert(views.take(i + 1).drop_last() =~= views.take(i as int));
        }
        match graphs[i].get_node(last) {
            Some(node) => {
                if holding.is_none() {
                    holding = Some(i);
                }
                if own.is_none() && node.region == graphs[i].region_idx() {
                    own = Some(i);
                }
            },
            None => {},
        }
        i += 1;
    }
    proof {
        assert(views.take(i as int) =~= views);
        lemma_start_graph_holds(views, last);
    }
    match own {
        Some(k) => Some(k),
        None => holding,
    }
}

/// The request that a submitter's question becomes where it names no node
/// to go on from: the search is to start at the source, whose point opens
/// the path, at no cost. `None` where no graph of this server holds the
/// source.
pub fn open_request(
    graphs: &Vec<Graph>,
    request_id: u64,
    source: NodeInfo,
    target: NodeInfo,
    visited_regions: Vec<RegionIdx>,
) -> (request: Option<PathRequest>)
    ensures
        match (request, start_graph(graph_views(graphs@), source.0)) {
            (Some(opened), Some(i)) => opened@ == (PathRequestView {
                request_id,
                source,
                target,
                last: source.0,
                path: seq![point_of(graph_views(graphs@)[i].nodes[source.0])],
                cost: 0,
                visited_regions: visited_regions@,
            }),
            (None, None) => true,
            _ => false,
        },
{
    match find_start(graphs, source.0) {
        Some(i) => match graphs[i].get_node(source.0) {
            Some(node) => {
                let mut path: Vec<PathPoint> = Vec::new();
                path.push(PathPoint::of_node(node));
                Some(PathRequest::new(request_id, source, target, source.0, path, 0, visited_regions))
            },
            None => None,
        },
        None => None,
    }
}

/// What a search for `request` in the graph `g` may give: the cheapest walk
/// to the target where the target lies in the region of `g`, the ways out
/// towards the target's region where not.
pub open spec fn searched(
    g: GraphView,
    request: PathRequestView,
    found: Result<Seq<PathResult>, GraphError>,
) -> bool {
    if request.target.1 == g.region_idx {
        match found {
            Ok(results) => {
                &&& results.len() == 1
                &&& results[0] is TargetReached
                &&& g.local_route(
                    request.last,
                    request.target.0,
                    results[0].path(),
                    results[0].cost(),
                )
            },
            Err(GraphError::Unreachable(node, region)) => {
                &&& node == request.target.0
                &&& region == request.target.1
                &&& !g.reaches(None, request.last, request.target.0)
            },
            Err(GraphError::VertexNotFound(edge, region)) => {
                &&& region == g.region_idx
                &&& g.dangles(None, request.last, edge)
            },
            Err(GraphError::StartNodeNotFound(_, _)) => false,
        }
    } else {
        match found {
            Ok(results) => g.exits_listed(request.target.1, request.last, results),
            Err(GraphError::VertexNotFound(edge, region)) => {
                &&& region == g.region_idx
                &&& g.dangles(Some(request.target.1), request.last, edge)
            },
            Err(_) => false,
        }
    }
}

/// Searches the graph, which holds the request's frontier node, on behalf
/// of the request.
pub fn search(graph: &Graph, request: &PathRequest) -> (found: Result<Vec<PathResult>, GraphError>)
    requires
        graph@.nodes.contains_key(request@.last),
    ensures
        searched(
            graph@,
            request@,
            match found {
                Ok(results) => Ok(results@),
                Err(e) => Err(e),
            },
        ),
{
    let region = graph.region_idx();
    let source = NodeInfo(request.last, region);
    if request.target.1 == region {
        match graph.find_way_local(source, request.target) {
            Ok(result) => {
                let mut results: Vec<PathResult> = Vec::new();
                results.push(result);
                Ok(results)
            },
            Err(e) => Err(e),
        }
    } else {
        graph.find_way(source, request.target)
    }
}

/// The worker `worker` has searched `g` for `request` and got `found`:
/// it deals with the results, or, where the search failed, is freed.
pub open spec fn begun(
    g: GraphView,
    worker: usize,
    request: PathRequestView,
    found: Result<Seq<PathResult>, GraphError>,
    state: ServingView,
    action: ActionView,
) -> bool {
    &&& searched(g, request, found)
    &&& match found {
        Ok(results) => (state, action) == ServingView::initial(worker, request, results).advance(),
        Err(e) => action == ActionView::Free(worker, Outcome::Dropped(DropReason::Search(e))),
    }
}

impl Serving {
    /// Starts to serve `request` as the worker `worker`: searches the graph
    /// in which the request's frontier node lies and deals with what the
    /// search finds. Where no graph holds the node, or the search fails, the
    /// worker is freed at once.
    pub fn begin(graphs: &Vec<Graph>, worker: usize, request: PathRequest) -> (r: (Serving, Action))
        ensures
            r.0@.wf(),
            r.0@.worker == worker,
            r.0@.request == request@,
            start_graph(graph_views(graphs@), request@.last) is None ==> r.1@ == ActionView::Free(
                worker,
                Outcome::Dropped(DropReason::NotServed),
            ),
            start_graph(graph_views(graphs@), request@.last) is Some ==> exists|
                found: Result<Seq<PathResult>, GraphError>,
            | #[trigger]
                begun(
                    graph_views(graphs@)[start_graph(graph_views(graphs@), request@.last)->0],
                    worker,
                    request@,
                    found,
                    r.0@,
                    r.1@,
                ),
            r.1@ is Free <==> r.0@.phase is Finished,
    {
        match find_start(graphs, request.last) {
            None => {
                let serving = Serving::idle(worker, request);
                serving.finish(Outcome::Dropped(DropReason::NotServed))
            },
            Some(i) => {
                match search(&graphs[i], &request) {
                    Ok(results) => {
                        let ghost asked = request@;
                        let ghost found: Result<Seq<PathResult>, GraphError> = Ok(results@);
                        proof {
                            ServingView::initial(worker, asked, results@).lemma_advance();
                        }
                        let r = Serving::with_results(worker, request, results);
                        proof {
                            assert(begun(
                                graph_views(graphs@)[start_graph(graph_views(graphs@), asked.last)->0],
                                worker,
                                asked,
                                found,
                                r.0@,
                                r.1@,
                            ));
                        }
                        r
                    },
                    Err(e) => {
                        let ghost asked = request@;
                        let ghost found: Result<Seq<PathResult>, GraphError> = Err(e);
                        let serving = Serving::idle(worker, request);
                        let r = serving.finish(Outcome::Dropped(DropReason::Search(e)));
                        proof {
                            assert(begun(
                                graph_views(graphs@)[start_graph(graph_views(graphs@), asked.last)->0],
                                worker,
                                asked,
                                found,
                                r.0@,
                                r.1@,
                            ));
                        }
                        r
                    },
                }
            },
        }
    }
}

} // verus!
