//! What the dispatcher of a server decides: it takes a request only while
//! it holds the credit of an idle worker, and hands each request to the
//! worker whose credit it holds.

use crate::domain::{PathRequest, PathRequestView};
use crate::node_connector::{ConnectionError, ListenerFault};
use vstd::prelude::*;

verus! {

/// Why the server stops.
#[derive(Debug, Clone, Copy, PartialEq, Eq, Structural)]
pub enum CrashReason {
    /// The listener's socket failed.
    Protocol,
    /// A worker did not take the request that was handed to it.
    WorkerGone,
    /// A credit came for a worker that the server does not have.
    UnknownWorker,
    /// Something was reported that the dispatcher was not waiting for.
    Unexpected,
}

/// What is reported to the dispatcher.
#[derive(Debug)]
pub enum Incoming {
    /// This worker has signalled that it is idle.
    WorkerFree(usize),
    /// Nothing could be read from the channel of idle workers.
    FreeClosed,
    /// The listener has received this request.
    Request(PathRequest),
    /// The listener has failed.
    ListenerFailed(ConnectionError),
    /// The worker did not take the request that was handed to it last.
    DeliveryFailed,
}

/// What the dispatcher has done next.
#[derive(Debug)]
pub enum Command {
    /// Wait for a worker to signal that it is idle, and report it.
    AwaitWorker,
    /// Wait for the listener, and report what it gives.
    Listen,
    /// Hand the request to this worker; report if that fails. Then wait for
    /// a worker to signal that it is idle, and report it.
    Deliver(usize, PathRequest),
    /// Put this worker's credit back among the idle workers. Then wait for a
    /// worker to signal that it is idle, and report it.
    ReturnCredit(usize),
    /// Put this worker's credit back among the idle workers. Then stop
    /// dispatching: the listener will give no more requests.
    Close(usize),
    /// Stop the server.
    Crash(CrashReason),
}

/// The model of a command.
pub ghost enum CommandView {
    AwaitWorker,
    Listen,
    Deliver(usize, PathRequestView),
    ReturnCredit(usize),
    Close(usize),
    Crash(CrashReason),
}

impl View for Command {
    type V = CommandView;

    open spec fn view(&self) -> CommandView {
        match self {
            Command::AwaitWorker => CommandView::AwaitWorker,
            Command::Listen => CommandView::Listen,
            Command::Deliver(worker, request) => CommandView::Deliver(*worker, request@),
            Command::ReturnCredit(worker) => CommandView::ReturnCredit(*worker),
            Command::Close(worker) => CommandView::Close(*worker),
            Command::Crash(reason) => CommandView::Crash(*reason),
        }
    }
}

/// The model of what is reported.
pub ghost enum IncomingView {
    WorkerFree(usize),
    FreeClosed,
    Request(PathRequestView),
    /// The listener has failed in this way.
    ListenerFailed(ListenerFault),
    DeliveryFailed,
}

impl View for Incoming {
    type V = IncomingView;

    open spec fn view(&self) -> IncomingView {
        match self {
            Incoming::WorkerFree(worker) => IncomingView::WorkerFree(*worker),
            Incoming::FreeClosed => IncomingView::FreeClosed,
            Incoming::Request(request) => IncomingView::Request(request@),
            Incoming::ListenerFailed(error) => IncomingView::ListenerFailed(error.fault_of()),
            Incoming::DeliveryFailed => IncomingView::DeliveryFailed,
        }
    }
}

/// How many of the flags are set.
pub open spec fn count_set(flags: Seq<bool>) -> nat
    decreases flags.len(),
{
    if flags.len() == 0 {
        0
    } else {
        count_set(flags.drop_last()) + if flags.last() {
            1nat
        } else {
            0nat
        }
    }
}

/// No more flags are set than there are.
pub proof fn lemma_count_set_bound(flags: Seq<bool>)
    ensures
        count_set(flags) <= flags.len(),
    decreases flags.len(),
{
    if flags.len() > 0 {
        lemma_count_set_bound(flags.drop_last());
    }
}

/// Setting a flag that was not set adds one to the count, clearing one that
/// was set takes one away, and writing a flag's own value changes nothing.
pub proof fn lemma_count_set_update(flags: Seq<bool>, i: int, value: bool)
    requires
        0 <= i < flags.len(),
    ensures
        count_set(flags.update(i, value)) == count_set(flags) + (if value {
            1int
        } else {
            0int
        }) - (if flags[i] {
            1int
        } else {
            0int
        }),
    decreases flags.len(),
{
    let after = flags.update(i, value);
    if i == flags.len() - 1 {
        assert(after.drop_last() =~= flags.drop_last());
    } else {
        lemma_count_set_update(flags.drop_last(), i, value);
        assert(after.drop_last() =~= flags.drop_last().update(i, value));
    }
}

/// The model of a dispatcher.
pub ghost struct DispatcherView {
    /// For each worker, whether a request is with it.
    pub busy: Seq<bool>,
    /// The worker whose credit the dispatcher holds.
    pub holding: Option<usize>,
    /// Whether the dispatcher has stopped.
    pub crashed: bool,
}

impl DispatcherView {
    /// The credit held is that of a worker of this server which is idle.
    pub open spec fn wf(self) -> bool {
        match self.holding {
            Some(worker) => worker < self.busy.len() && !self.busy[worker as int] && !self.crashed,
            None => true,
        }
    }

    /// How many requests are with workers.
    pub open spec fn in_flight(self) -> nat {
        count_set(self.busy)
    }

    /// The dispatcher of a server with `worker_count` workers, all idle.
    pub open spec fn initial(worker_count: nat) -> DispatcherView {
        DispatcherView { busy: Seq::new(worker_count, |i: int| false), holding: None, crashed: false }
    }

    /// The server stops.
    pub open spec fn crash(self, reason: CrashReason) -> (DispatcherView, CommandView) {
        (DispatcherView { holding: None, crashed: true, ..self }, CommandView::Crash(reason))
    }

    /// What the dispatcher does when `incoming` is reported.
    ///
    /// Without a credit it waits for one, and takes no request. With the
    /// credit of a worker it listens; the request that comes goes to that
    /// worker. Where the listener fails, the server stops if the socket
    /// failed; after any other failure the credit goes back among the idle
    /// workers, and the dispatcher stops if the listener's stream has ended.
    pub open spec fn step(self, incoming: IncomingView) -> (DispatcherView, CommandView) {
        if self.crashed {
            self.crash(CrashReason::Unexpected)
        } else {
            match (self.holding, incoming) {
                (None, IncomingView::WorkerFree(worker)) => if worker < self.busy.len() {
                    (
                        DispatcherView {
                            busy: self.busy.update(worker as int, false),
                            holding: Some(worker),
                            ..self
                        },
                        CommandView::Listen,
                    )
                } else {
                    self.crash(CrashReason::UnknownWorker)
                },
                (None, IncomingView::FreeClosed) => (self, CommandView::AwaitWorker),
                (None, IncomingView::DeliveryFailed) => self.crash(CrashReason::WorkerGone),
                (Some(worker), IncomingView::Request(request)) => (
                    DispatcherView {
                        busy: self.busy.update(worker as int, true),
                        holding: None,
                        ..self
                    },
                    CommandView::Deliver(worker, request),
                ),
                (Some(worker), IncomingView::ListenerFailed(fault)) => match fault {
                    ListenerFault::Socket => self.crash(CrashReason::Protocol),
                    ListenerFault::Closed => (
                        DispatcherView { holding: None, crashed: true, ..self },
                        CommandView::Close(worker),
                    ),
                    ListenerFault::Message => (
                        DispatcherView { holding: None, ..self },
                        CommandView::ReturnCredit(worker),
                    ),
                },
                _ => self.crash(CrashReason::Unexpected),
            }
        }
    }

    /// No more requests are with workers than the server has workers, and
    /// the dispatcher stays in a state that fits together.
    pub proof fn lemma_backpressure(self, incoming: IncomingView)
        requires
            self.wf(),
        ensures
            self.step(incoming).0.wf(),
            self.step(incoming).0.busy.len() == self.busy.len(),
            self.step(incoming).0.in_flight() <= self.busy.len(),
            self.step(incoming).1 is Listen ==> self.step(incoming).0.holding is Some,
            self.step(incoming).1 is Deliver ==> {
                &&& self.holding == Some(self.step(incoming).1->Deliver_0)
                &&& incoming is Request
                &&& self.step(incoming).0.in_flight() == self.in_flight() + 1
            },
            !(self.step(incoming).1 is Deliver) ==> self.step(incoming).0.in_flight()
                <= self.in_flight(),
    {
        lemma_count_set_bound(self.step(incoming).0.busy);
        match (self.holding, incoming) {
            (None, IncomingView::WorkerFree(worker)) => {
                if worker < self.busy.len() {
                    lemma_count_set_update(self.busy, worker as int, false);
                }
            },
            (Some(worker), IncomingView::Request(request)) => {
                lemma_count_set_update(self.busy, worker as int, true);
            },
            _ => {},
        }
    }

    /// A failure of the listener other than one of its socket costs no
    /// worker its credit: the credit that the dispatcher held goes back
    /// among the idle workers, and no worker gets a request.
    pub proof fn lemma_failed_listen_keeps_credit(self, worker: usize, fault: ListenerFault)
        requires
            self.wf(),
            !self.crashed,
            self.holding == Some(worker),
        ensures
            fault is Socket ==> self.step(IncomingView::ListenerFailed(fault)).1
                == CommandView::Crash(CrashReason::Protocol),
            fault is Message ==> self.step(IncomingView::ListenerFailed(fault)).1
                == CommandView::ReturnCredit(worker),
            fault is Closed ==> self.step(IncomingView::ListenerFailed(fault)).1
                == CommandView::Close(worker),
            !(fault is Socket) ==> {
                &&& self.step(IncomingView::ListenerFailed(fault)).0.busy == self.busy
                &&& self.step(IncomingView::ListenerFailed(fault)).0.holding is None
                &&& self.step(IncomingView::ListenerFailed(fault)).0.in_flight() == self.in_flight()
            },
    {
    }
}

/// The dispatcher of a server.
#[derive(Debug)]
pub struct Dispatcher {
    busy: Vec<bool>,
    holding: Option<usize>,
    crashed: bool,
}

impl View for Dispatcher {
    type V = DispatcherView;

    closed spec fn view(&self) -> DispatcherView {
        DispatcherView { busy: self.busy@, holding: self.holding, crashed: self.crashed }
    }
}

impl Dispatcher {
    #[verifier::type_invariant]
    closed spec fn inv(&self) -> bool {
        self@.wf()
    }

    /// The dispatcher of a server with `worker_count` workers, all idle, and
    /// its first command: to wait for a worker.
    pub fn new(worker_count: usize) -> (r: (Dispatcher, Command))
        ensures
            r.0@ == DispatcherView::initial(worker_count as nat),
            r.0@.wf(),
            r.0@.in_flight() == 0,
            r.1@ == CommandView::AwaitWorker,
    {
        let mut busy: Vec<bool> = Vec::new();
        let mut i: usize = 0;
        while i < worker_count
            invariant
                i <= worker_count,
                busy@ =~= Seq::new(i as nat, |k: int| false),
                count_set(busy@) == 0,
            decreases worker_count - i,
        {
            busy.push(false);
            proof {
                assert(busy@.drop_last() =~= Seq::new(i as nat, |k: int| false));
            }
            i += 1;
        }
        (Dispatcher { busy, holding: None, crashed: false }, Command::AwaitWorker)
    }

    fn crash(self, reason: CrashReason) -> (r: (Dispatcher, Command))
        ensures
            (r.0@, r.1@) == self@.crash(reason),
    {
        (Dispatcher { holding: None, crashed: true, ..self }, Command::Crash(reason))
    }

    /// What the dispatcher does when `incoming` is reported.
    pub fn step(self, incoming: Incoming) -> (r: (Dispatcher, Command))
        ensures
            (r.0@, r.1@) == self@.step(incoming@),
            self@.wf(),
            r.0@.wf(),
            r.0@.in_flight() <= r.0@.busy.len(),
    {
        proof {
            use_type_invariant(&self);
            self@.lemma_backpressure(incoming@);
        }
        if self.crashed {
            return self.crash(CrashReason::Unexpected);
        }
        match self.holding {
            None => match incoming {
                Incoming::WorkerFree(worker) => {
                    if worker < self.busy.len() {
                        let Dispatcher { busy, holding, crashed } = self;
                        let mut busy = busy;
                        busy.set(worker, false);
                        (Dispatcher { busy, holding: Some(worker), crashed }, Command::Listen)
                    } else {
                        self.crash(CrashReason::UnknownWorker)
                    }
                },
                Incoming::FreeClosed => (self, Command::AwaitWorker),
                Incoming::DeliveryFailed => self.crash(CrashReason::WorkerGone),
                _ => self.crash(CrashReason::Unexpected),
            },
            Some(worker) => match incoming {
                Incoming::Request(request) => {
                    let Dispatcher { busy, holding, crashed } = self;
                    let mut busy = busy;
                    busy.set(worker, true);
                    (Dispatcher { busy, holding: None, crashed }, Command::Deliver(worker, request))
                },
                Incoming::ListenerFailed(error) => match error.fault() {
                    ListenerFault::Socket => self.crash(CrashReason::Protocol),
                    ListenerFault::Closed => (
                        Dispatcher { holding: None, crashed: true, ..self },
                        Command::Close(worker),
                    ),
                    ListenerFault::Message => (
                        Dispatcher { holding: None, ..self },
                        Command::ReturnCredit(worker),
                    ),
                },
                _ => self.crash(CrashReason::Unexpected),
            },
        }
    }

    /// How many requests are with workers.
    pub fn in_flight(&self) -> (count: usize)
        ensures
            count == self@.in_flight(),
            count <= self@.busy.len(),
    {
        let mut count: usize = 0;
        let mut i: usize = 0;
        while i < self.busy.len()
            invariant
                i <= self.busy@.len(),
                count == count_set(self.busy@.take(i as int)),
                count <= i,
            decreases self.busy@.len() - i,
        {
            proof {
                assert(self.busy@.take(i + 1).drop_last() =~= self.busy@.take(i as int));
            }
            if self.busy[i] {
                count += 1;
            }
            i += 1;
        }
        proof {
            assert(self.busy@.take(i as int) =~= self.busy@);
        }
        count
    }

    /// How many workers the server has.
    pub fn worker_count(&self) -> (count: usize)
        ensures
            count == self@.busy.len(),
    {
        self.busy.len()
    }
}

} // verus!
