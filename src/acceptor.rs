//! The acceptor loop's decisions: when to start another connection attempt, what to do
//! with a finished one, and how many connections were handed off.
//!
//! The loop itself (engine, relay calls, the hand-off queue) runs elsewhere; it asks
//! `next_step` at the top of each iteration and reports each attempt's end to
//! `attempt_finished`. The state counts every engine instance made, handed off and
//! closed, so that a stopped loop provably leaves none open.
use vstd::prelude::*;

verus! {

/// How a connection attempt (a full offer/answer exchange) ended.
#[derive(Debug, Clone, PartialEq, Eq)]
pub enum AttemptOutcome {
    /// The connection is ready to be handed off.
    Completed,
    /// The engine or the relay failed; the error's message.
    Failed(String),
    /// Cancellation was observed during the exchange.
    Cancelled,
}

/// What the loop does at the top of an iteration.
#[derive(Debug, Clone, Copy, PartialEq, Eq, Structural)]
pub enum LoopStep {
    /// Make a new engine instance and connection, and run the exchange.
    StartAttempt,
    /// End the loop.
    Stop,
}

/// What the loop does with a finished attempt's connection.
#[derive(Debug, Clone, PartialEq, Eq)]
pub enum AttemptAction {
    /// Hand the connection off to the consumer.
    Deliver,
    /// Close the connection, surface the error as the last item, and stop.
    CloseAndReport(String),
    /// Close the connection and stop.
    Close,
}

/// What the acceptor's state holds.
pub struct AcceptorView {
    /// The most connections that are handed off.
    pub max_connections: nat,
    /// Connections handed off so far.
    pub delivered: nat,
    /// An attempt is running, its connection not yet handed off or closed.
    pub in_flight: bool,
    /// The loop has ended.
    pub stopped: bool,
    /// Engine instances made so far.
    pub created: nat,
    /// Engine instances closed so far.
    pub closed: nat,
}

/// Every engine instance made was handed off, closed, or belongs to the running
/// attempt; a stopped loop runs none.
pub open spec fn accounted(v: AcceptorView) -> bool {
    &&& v.delivered <= v.max_connections
    &&& v.created == v.delivered + v.closed + if v.in_flight { 1nat } else { 0nat }
    &&& v.stopped ==> !v.in_flight
    &&& v.in_flight ==> v.delivered < v.max_connections
}

/// The acceptor of a fresh loop.
pub open spec fn fresh(max_connections: nat) -> AcceptorView {
    AcceptorView {
        max_connections,
        delivered: 0,
        in_flight: false,
        stopped: false,
        created: 0,
        closed: 0,
    }
}

/// The top of an iteration: the loop stops once stopped, cancelled, or at its maximum;
/// otherwise it makes an engine instance and starts an attempt.
pub open spec fn start(v: AcceptorView, cancelled: bool) -> (AcceptorView, LoopStep) {
    if v.stopped || cancelled || v.delivered >= v.max_connections {
        (AcceptorView { stopped: true, ..v }, LoopStep::Stop)
    } else {
        (AcceptorView { in_flight: true, created: v.created + 1, ..v }, LoopStep::StartAttempt)
    }
}

/// The end of an attempt: a completed connection is handed off; a failed or cancelled
/// one is closed and the loop stops.
pub open spec fn finish(v: AcceptorView, outcome: AttemptOutcome) -> (AcceptorView, AttemptAction) {
    match outcome {
        AttemptOutcome::Completed => (
            AcceptorView { in_flight: false, delivered: v.delivered + 1, ..v },
            AttemptAction::Deliver,
        ),
        AttemptOutcome::Failed(msg) => (
            AcceptorView { in_flight: false, stopped: true, closed: v.closed + 1, ..v },
            AttemptAction::CloseAndReport(msg),
        ),
        AttemptOutcome::Cancelled => (
            AcceptorView { in_flight: false, stopped: true, closed: v.closed + 1, ..v },
            AttemptAction::Close,
        ),
    }
}

/// The state of the acceptor loop.
pub struct Acceptor {
    max_connections: usize,
    delivered: usize,
    in_flight: bool,
    stopped: bool,
    created: Ghost<nat>,
    closed: Ghost<nat>,
}

impl View for Acceptor {
    type V = AcceptorView;

    closed spec fn view(&self) -> AcceptorView {
        AcceptorView {
            max_connections: self.max_connections as nat,
            delivered: self.delivered as nat,
            in_flight: self.in_flight,
            stopped: self.stopped,
            created: self.created@,
            closed: self.closed@,
        }
    }
}

impl Acceptor {
    /// The invariant of the loop's state.
    pub open spec fn wf(&self) -> bool {
        accounted(self@)
    }

    /// A loop that hands off at most `max_connections` connections.
    pub fn new(max_connections: usize) -> (r: Acceptor)
        ensures
            r.wf(),
            r@ == fresh(max_connections as nat),
    {
        Acceptor {
            max_connections,
            delivered: 0,
            in_flight: false,
            stopped: false,
            created: Ghost(0),
            closed: Ghost(0),
        }
    }

    /// A loop that runs until it is cancelled or fails (its maximum is `usize::MAX`).
    pub fn unbounded() -> (r: Acceptor)
        ensures
            r.wf(),
            r@ == fresh(usize::MAX as nat),
    {
        Acceptor::new(usize::MAX)
    }

    /// The top of an iteration; `cancelled` tells whether cancellation was requested.
    pub fn next_step(&mut self, cancelled: bool) -> (r: LoopStep)
        requires
            old(self).wf(),
            !old(self)@.in_flight,
        ensures
            final(self).wf(),
            (final(self)@, r) == start(old(self)@, cancelled),
    {
        if self.stopped || cancelled || self.delivered >= self.max_connections {
            self.stopped = true;
            LoopStep::Stop
        } else {
            self.in_flight = true;
            self.created = Ghost(self.created@ + 1);
            LoopStep::StartAttempt
        }
    }

    /// Reports how the running attempt ended; returns what to do with its connection.
    pub fn attempt_finished(&mut self, outcome: AttemptOutcome) -> (r: AttemptAction)
        requires
            old(self).wf(),
            old(self)@.in_flight,
        ensures
            final(self).wf(),
            (final(self)@, r) == finish(old(self)@, outcome),
    {
        self.in_flight = false;
        match outcome {
            AttemptOutcome::Completed => {
                self.delivered = self.delivered + 1;
                AttemptAction::Deliver
            },
            AttemptOutcome::Failed(msg) => {
                self.stopped = true;
                self.closed = Ghost(self.closed@ + 1);
                AttemptAction::CloseAndReport(msg)
            },
            AttemptOutcome::Cancelled => {
                self.stopped = true;
                self.closed = Ghost(self.closed@ + 1);
                AttemptAction::Close
            },
        }
    }

    /// Tears the loop down: it stops, and the running attempt's connection, if any, is
    /// closed; returns whether there was one to close.
    pub fn shutdown(&mut self) -> (r: bool)
        requires
            old(self).wf(),
        ensures
            final(self).wf(),
            r == old(self)@.in_flight,
            final(self)@ == (AcceptorView {
                stopped: true,
                in_flight: false,
                closed: if r { old(self)@.closed + 1 } else { old(self)@.closed },
                ..old(self)@
            }),
    {
        let r = self.in_flight;
        if r {
            self.closed = Ghost(self.closed@ + 1);
        }
        self.in_flight = false;
        self.stopped = true;
        r
    }

    /// Connections handed off so far.
    pub fn active_connections_count(&self) -> (r: usize)
        ensures
            r == self@.delivered,
    {
        self.delivered
    }

    /// Whether an attempt is running.
    pub fn has_pending_connection(&self) -> (r: bool)
        ensures
            r == self@.in_flight,
    {
        self.in_flight
    }

    /// Whether the loop has ended.
    pub fn is_stopped(&self) -> (r: bool)
        ensures
            r == self@.stopped,
    {
        self.stopped
    }
}

/// The loop run from `v` while attempts end as `outcomes` says, one per started
/// attempt, and no cancellation is requested at the top of an iteration.
pub open spec fn drive(v: AcceptorView, outcomes: Seq<AttemptOutcome>) -> AcceptorView
    decreases outcomes.len(),
{
    let (s, step) = start(v, false);
    if step == LoopStep::Stop || outcomes.len() == 0 {
        s
    } else {
        drive(finish(s, outcomes[0]).0, outcomes.drop_first())
    }
}

/// Whatever the attempts' outcomes, the loop keeps its accounts, and once it has
/// stopped every engine instance it made was handed off or closed.
pub proof fn law_no_engine_left_open(v: AcceptorView, outcomes: Seq<AttemptOutcome>)
    requires
        accounted(v),
        !v.in_flight,
    ensures
        accounted(drive(v, outcomes)),
        drive(v, outcomes).delivered <= drive(v, outcomes).max_connections,
        drive(v, outcomes).stopped ==> drive(v, outcomes).created == drive(v, outcomes).delivered
            + drive(v, outcomes).closed,
    decreases outcomes.len(),
{
    let (s, step) = start(v, false);
    if step == LoopStep::Stop || outcomes.len() == 0 {
    } else {
        law_no_engine_left_open(finish(s, outcomes[0]).0, outcomes.drop_first());
    }
}

/// With a maximum of `n` and every attempt completing, the loop hands off exactly `n`
/// connections and stops, with no engine instance closed or left running.
pub proof fn law_bounded_run(n: nat, outcomes: Seq<AttemptOutcome>)
    requires
        outcomes.len() >= n,
        forall|i: int| 0 <= i < outcomes.len() ==> outcomes[i] == AttemptOutcome::Completed,
    ensures
        drive(fresh(n), outcomes).delivered == n,
        drive(fresh(n), outcomes).stopped,
        drive(fresh(n), outcomes).created == n,
        drive(fresh(n), outcomes).closed == 0,
{
    lemma_completed_run(fresh(n), outcomes);
}

proof fn lemma_completed_run(v: AcceptorView, outcomes: Seq<AttemptOutcome>)
    requires
        accounted(v),
        !v.in_flight,
        !v.stopped,
        v.closed == 0,
        outcomes.len() >= v.max_connections - v.delivered,
        forall|i: int| 0 <= i < outcomes.len() ==> outcomes[i] == AttemptOutcome::Completed,
    ensures
        drive(v, outcomes).delivered == v.max_connections,
        drive(v, outcomes).stopped,
        drive(v, outcomes).created == v.max_connections,
        drive(v, outcomes).closed == 0,
    decreases outcomes.len(),
{
    let (s, step) = start(v, false);
    if step == LoopStep::Stop {
    } else {
        assert(outcomes[0] == AttemptOutcome::Completed);
        let rest = outcomes.drop_first();
        assert forall|i: int| 0 <= i < rest.len() implies rest[i] == AttemptOutcome::Completed by {
            assert(rest[i] == outcomes[i + 1]);
        }
        lemma_completed_run(finish(s, outcomes[0]).0, rest);
    }
}

/// With a maximum of `n`, when cancellation is observed in attempt `k` (counting from
/// zero) with `k < n` and every earlier attempt completed, the loop hands off `k`
/// connections, fewer than `n`, stops, and closes the cancelled attempt's connection.
pub proof fn law_cancelled_run(n: nat, outcomes: Seq<AttemptOutcome>, k: int)
    requires
        0 <= k < n,
        k < outcomes.len(),
        outcomes[k] == AttemptOutcome::Cancelled,
        forall|i: int| 0 <= i < k ==> outcomes[i] == AttemptOutcome::Completed,
    ensures
        drive(fresh(n), outcomes).delivered == k,
        drive(fresh(n), outcomes).delivered < n,
        drive(fresh(n), outcomes).stopped,
        drive(fresh(n), outcomes).closed == 1,
        drive(fresh(n), outcomes).created == k + 1,
{
    lemma_cancelled_run(fresh(n), outcomes, k);
}

proof fn lemma_cancelled_run(v: AcceptorView, outcomes: Seq<AttemptOutcome>, k: int)
    requires
        accounted(v),
        !v.in_flight,
        !v.stopped,
        v.closed == 0,
        0 <= k,
        v.delivered + k < v.max_connections,
        k < outcomes.len(),
        outcomes[k] == AttemptOutcome::Cancelled,
        forall|i: int| 0 <= i < k ==> outcomes[i] == AttemptOutcome::Completed,
    ensures
        drive(v, outcomes).delivered == v.delivered + k,
        drive(v, outcomes).stopped,
        drive(v, outcomes).closed == 1,
        drive(v, outcomes).created == v.delivered + k + 1,
    decreases outcomes.len(),
{
    let (s, step) = start(v, false);
    if k == 0 {
        let after = finish(s, outcomes[0]).0;
        assert(start(after, false).1 == LoopStep::Stop);
        assert(drive(after, outcomes.drop_first()) == start(after, false).0);
    } else {
        assert(outcomes[0] == AttemptOutcome::Completed);
        let rest = outcomes.drop_first();
        assert forall|i: int| 0 <= i < k - 1 implies rest[i] == AttemptOutcome::Completed by {
            assert(rest[i] == outcomes[i + 1]);
        }
        assert(rest[k - 1] == outcomes[k]);
        lemma_cancelled_run(finish(s, outcomes[0]).0, rest, k - 1);
    }
}

} // verus!
