//! The order in which a server comes up: it loads its regions one by one,
//! files each in the directory before it loads the next, and starts its
//! workers when all are filed.

use crate::graph::RegionIdx;
use vstd::prelude::*;

verus! {

/// What the surroundings are to do next while the server comes up.
#[derive(Debug, Clone, Copy, PartialEq, Eq, Structural)]
pub enum BootStep {
    /// Load the graph of this region from the object store.
    Load(RegionIdx),
    /// File this group as the owner of this region.
    ClaimRegion(RegionIdx, u64),
    /// File the nodes of this region, whose graph was loaded last.
    ClaimNodes(RegionIdx),
    /// Start this many workers and the dispatcher.
    Serve(usize),
    /// Give up: the server cannot come up.
    Abort,
}

/// How far a server has come up.
#[derive(Debug, Clone, Copy, PartialEq, Eq, Structural)]
pub enum BootStage {
    Loading,
    ClaimingRegion,
    ClaimingNodes,
    Serving,
    Aborted,
}

/// A server that is coming up.
#[derive(Debug)]
pub struct Bootstrap {
    group_id: u64,
    regions: Vec<RegionIdx>,
    worker_count: usize,
    next: usize,
    stage: BootStage,
}

/// The model of a server that is coming up.
pub ghost struct BootstrapView {
    /// The group that the server serves.
    pub group_id: u64,
    /// The regions of the group.
    pub regions: Seq<RegionIdx>,
    /// The number of workers to start.
    pub worker_count: usize,
    /// How many regions are loaded and filed.
    pub next: int,
    pub stage: BootStage,
}

impl BootstrapView {
    /// The state fits together.
    pub open spec fn wf(self) -> bool {
        &&& 0 <= self.next <= self.regions.len()
        &&& match self.stage {
            BootStage::Serving => self.next == self.regions.len(),
            BootStage::Aborted => true,
            _ => self.next < self.regions.len(),
        }
    }

    /// The server turns to the region at `next`, or, where none is left,
    /// starts to serve.
    pub open spec fn turn_to(self, next: int) -> (BootstrapView, BootStep) {
        if 0 <= next < self.regions.len() {
            (
                BootstrapView { next, stage: BootStage::Loading, ..self },
                BootStep::Load(self.regions[next]),
            )
        } else {
            (
                BootstrapView { next, stage: BootStage::Serving, ..self },
                BootStep::Serve(self.worker_count),
            )
        }
    }

    /// What the server does after the step before has been taken: `done`
    /// tells whether it went well.
    ///
    /// A region is loaded, then filed under the group, then its nodes are
    /// filed; then the next region's turn comes. A step that goes wrong ends
    /// the coming up.
    pub open spec fn step(self, done: bool) -> (BootstrapView, BootStep) {
        if !done {
            (BootstrapView { stage: BootStage::Aborted, ..self }, BootStep::Abort)
        } else {
            match self.stage {
                BootStage::Loading => (
                    BootstrapView { stage: BootStage::ClaimingRegion, ..self },
                    BootStep::ClaimRegion(self.regions[self.next], self.group_id),
                ),
                BootStage::ClaimingRegion => (
                    BootstrapView { stage: BootStage::ClaimingNodes, ..self },
                    BootStep::ClaimNodes(self.regions[self.next]),
                ),
                BootStage::ClaimingNodes => self.turn_to(self.next + 1),
                BootStage::Serving => (self, BootStep::Serve(self.worker_count)),
                BootStage::Aborted => (self, BootStep::Abort),
            }
        }
    }

    /// The server starts to serve only when every region is loaded and
    /// filed, and each step keeps the state fitting together.
    pub proof fn lemma_serves_when_all_filed(self, done: bool)
        requires
            self.wf(),
        ensures
            self.step(done).0.wf(),
            self.step(done).1 is Serve ==> self.step(done).0.next == self.regions.len() && done,
            self.step(done).0.next >= self.next,
            self.step(done).0.regions == self.regions,
    {
    }
}

impl View for Bootstrap {
    type V = BootstrapView;

    closed spec fn view(&self) -> BootstrapView {
        BootstrapView {
            group_id: self.group_id,
            regions: self.regions@,
            worker_count: self.worker_count,
            next: self.next as int,
            stage: self.stage,
        }
    }
}

impl Bootstrap {
    #[verifier::type_invariant]
    closed spec fn inv(&self) -> bool {
        self@.wf()
    }

    fn turn_to(self, next: usize) -> (r: (Bootstrap, BootStep))
        requires
            next <= self@.regions.len(),
        ensures
            (r.0@, r.1) == self@.turn_to(next as int),
    {
        if next < self.regions.len() {
            let region = self.regions[next];
            (Bootstrap { next, stage: BootStage::Loading, ..self }, BootStep::Load(region))
        } else {
            let worker_count = self.worker_count;
            (Bootstrap { next, stage: BootStage::Serving, ..self }, BootStep::Serve(worker_count))
        }
    }

    /// A server of the group `group_id`, which owns `regions`, about to come
    /// up with `worker_count` workers, and its first step.
    pub fn new(group_id: u64, regions: Vec<RegionIdx>, worker_count: usize) -> (r: (
        Bootstrap,
        BootStep,
    ))
        ensures
            (r.0@, r.1) == (BootstrapView {
                group_id,
                regions: regions@,
                worker_count,
                next: 0,
                stage: BootStage::Aborted,
            }).turn_to(0),
            r.0@.wf(),
    {
        let start = Bootstrap { group_id, regions, worker_count, next: 0, stage: BootStage::Aborted };
        start.turn_to(0)
    }

    /// What the server does after the step before has been taken: `done`
    /// tells whether it went well.
    pub fn step(self, done: bool) -> (r: (Bootstrap, BootStep))
        ensures
            (r.0@, r.1) == self@.step(done),
            self@.wf(),
            r.0@.wf(),
    {
        proof {
            use_type_invariant(&self);
        }
        if !done {
            return (Bootstrap { stage: BootStage::Aborted, ..self }, BootStep::Abort);
        }
        match self.stage {
            BootStage::Loading => {
                let region = self.regions[self.next];
                let group_id = self.group_id;
                (
                    Bootstrap { stage: BootStage::ClaimingRegion, ..self },
                    BootStep::ClaimRegion(region, group_id),
                )
            },
            BootStage::ClaimingRegion => {
                let region = self.regions[self.next];
                (Bootstrap { stage: BootStage::ClaimingNodes, ..self }, BootStep::ClaimNodes(region))
            },
            BootStage::ClaimingNodes => {
                assert(self.next < self.regions.len());
                let next = self.next + 1;
                self.turn_to(next)
            },
            BootStage::Serving => {
                let worker_count = self.worker_count;
                (self, BootStep::Serve(worker_count))
            },
            BootStage::Aborted => (self, BootStep::Abort),
        }
    }
}

} // verus!
