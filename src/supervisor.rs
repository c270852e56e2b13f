//! The supervisor's state: its policies, the children's specifications and
//! the identity of each live child, with the decisions taken on it.
use vstd::prelude::*;
use crate::rate::{RateLimit, RateLimiter};
use crate::spec::{Haste, RecoveryLogic, Restart, Spec, Started};
use crate::teardown::{
    deadline_after, deadline_at, shutdown_orders, waiting_slot, ShutdownCollector, ShutdownOrder,
};
use crate::start::StartError;
use async_backplane::Fault;

verus! {

/// Why a supervisor stopped.
#[derive(Clone, Copy, Debug)]
pub enum SupervisionError {
    /// It was asked to shut down by the child with this identity, presumably
    /// its own supervisor.
    Shutdown(usize),
    /// The child at this index failed to start.
    StartupFailed(usize, StartError),
    /// It exceeded its restart rate limit.
    Throttled,
}

/// What a termination notice asks of the supervisor.
#[derive(Clone, Copy, Debug, PartialEq, Eq, Structural)]
pub enum Recovery {
    /// No tracked child has that identity: the notice is stale.
    Stale,
    /// The child at this index ended and is not to be restarted.
    Idle(usize),
    /// The child at this index ended and a restart is to be attempted.
    Restart(usize),
}

/// What the supervisor's mailbox delivers.
#[derive(Clone, Copy, Debug)]
pub enum Event {
    /// The child with this identity, presumably the supervisor's own
    /// supervisor, asks it to shut down.
    Shutdown(usize),
    /// The child with this identity ended, with a fault if abnormally.
    Terminated(usize, Option<Fault>),
}

/// What one step of the watch loop leaves to do.
#[derive(Clone, Copy, Debug, PartialEq, Eq, Structural)]
pub enum Step {
    /// Nothing: watch on.
    Continue,
    /// Tear every child down and stop, at the request of this identity.
    PowerOff(usize),
    /// Carry out this restart, then watch on.
    Recover(RestartPlan),
    /// Stop: the restart rate limit was exceeded.
    Throttled,
}

/// The work an admitted restart calls for.
#[derive(Clone, Copy, Debug, PartialEq, Eq, Structural)]
pub enum RestartPlan {
    /// Start the child at this index again, alone.
    StartOne(usize),
    /// Shut down the children from `stop_from` on, then start every child
    /// from `start_from` on.
    Cascade { stop_from: usize, start_from: usize },
}

/// The plan that `logic` calls for when the child at `index` is restarted.
pub open spec fn plan_for(logic: RecoveryLogic, index: usize) -> RestartPlan {
    match logic {
        RecoveryLogic::Isolated => RestartPlan::StartOne(index),
        RecoveryLogic::CascadeNewer => RestartPlan::Cascade {
            stop_from: (index + 1) as usize,
            start_from: index,
        },
        RecoveryLogic::CascadeAll => RestartPlan::Cascade { stop_from: 0, start_from: 0 },
    }
}

/// The state a successful startup of a child leaves at its index.
pub open spec fn state_after(started: Started, id: usize) -> Option<usize> {
    match started {
        Started::Running => Some(id),
        Started::Completed => None,
    }
}

/// No identity is tracked at two indices.
pub open spec fn ids_distinct(states: Seq<Option<usize>>) -> bool {
    forall|i: int, j: int|
        0 <= i < states.len() && 0 <= j < states.len() && i != j && states[i] is Some
            ==> states[i] != states[j]
}

/// A child restarted alone keeps its index: when the termination of `id`
/// clears the index tracking it and a restart records `state` there, every other index
/// keeps its state and the number of indices is unchanged.
pub proof fn lemma_restart_keeps_indices<F>(s: Supervisor<F>, id: usize, state: Option<usize>)
    requires
        s.watching(),
        s.states_view().contains(Some(id)),
    ensures
        ({
            let i = s.states_view().index_of(Some(id));
            let after = s.cleared(id).update(i, state);
            &&& after.len() == s.states_view().len()
            &&& s.states_view()[i] == Some(id)
            &&& after[i] == state
            &&& forall|j: int| 0 <= j < after.len() && j != i ==> after[j] == s.states_view()[j]
        }),
{
    let i = s.states_view().index_of(Some(id));
    assert(s.states_view()[i] == Some(id));
}

/// Supervises an ordered set of children.
pub struct Supervisor<F> {
    logic: RecoveryLogic,
    restart_rate: RateLimit,
    specs: Vec<Spec<F>>,
    states: Vec<Option<usize>>,
}

impl<F> Supervisor<F> {
    /// Which other children are restarted with a restarted one.
    pub closed spec fn logic_view(&self) -> RecoveryLogic {
        self.logic
    }

    /// The bound on restarts.
    pub closed spec fn rate_view(&self) -> RateLimit {
        self.restart_rate
    }

    /// The children's specifications, oldest first.
    pub closed spec fn specs_view(&self) -> Seq<Spec<F>> {
        self.specs@
    }

    /// The identity of the live child at each index started so far.
    pub closed spec fn states_view(&self) -> Seq<Option<usize>> {
        self.states@
    }

    /// No more indices are tracked than there are children, and no identity
    /// is tracked twice.
    pub open spec fn wf(&self) -> bool {
        &&& self.states_view().len() <= self.specs_view().len()
        &&& ids_distinct(self.states_view())
    }

    /// What the termination of the child with identity `id` calls for: the
    /// index tracking it, and whether its policy restarts it after a
    /// termination with a fault (`faulted`) or without.
    pub open spec fn recovery_of(&self, id: usize, faulted: bool) -> Recovery {
        if self.states_view().contains(Some(id)) {
            let i = self.states_view().index_of(Some(id));
            if self.specs_view()[i].restart.wants_restart(faulted) {
                Recovery::Restart(i as usize)
            } else {
                Recovery::Idle(i as usize)
            }
        } else {
            Recovery::Stale
        }
    }

    /// The states once the index tracking `id`, if any, is cleared.
    pub open spec fn cleared(&self, id: usize) -> Seq<Option<usize>> {
        if self.states_view().contains(Some(id)) {
            self.states_view().update(self.states_view().index_of(Some(id)), None)
        } else {
            self.states_view()
        }
    }

    /// Every child has been started: each index has its state.
    pub open spec fn watching(&self) -> bool {
        &&& self.wf()
        &&& self.states_view().len() == self.specs_view().len()
    }

    /// Creates a supervisor with no children, allowing five restarts in five
    /// seconds.
    pub fn new(logic: RecoveryLogic) -> (r: Self)
        ensures
            r.logic_view() == logic,
            r.rate_view() == (RateLimit { count: 5, period_ms: 5000 }),
            r.specs_view().len() == 0,
            r.states_view().len() == 0,
            r.wf(),
    {
        Supervisor {
            logic,
            restart_rate: RateLimit { count: 5, period_ms: 5000 },
            specs: Vec::new(),
            states: Vec::new(),
        }
    }

    /// Replaces the restart rate limit.
    pub fn set_restart_rate(self, restart_rate: RateLimit) -> (r: Self)
        ensures
            r.logic_view() == self.logic_view(),
            r.rate_view() == restart_rate,
            r.specs_view() == self.specs_view(),
            r.states_view() == self.states_view(),
    {
        Supervisor { restart_rate, ..self }
    }

    /// Appends a child; it is started after every child added before it.
    pub fn add_task(&mut self, spec: Spec<F>)
        ensures
            final(self).logic_view() == old(self).logic_view(),
            final(self).rate_view() == old(self).rate_view(),
            final(self).specs_view() == old(self).specs_view().push(spec),
            final(self).states_view() == old(self).states_view(),
    {
        self.specs.push(spec);
    }

    /// Which other children are restarted with a restarted one.
    pub fn logic(&self) -> (r: RecoveryLogic)
        ensures
            r == self.logic_view(),
    {
        self.logic
    }

    /// The bound on restarts.
    pub fn restart_rate(&self) -> (r: RateLimit)
        ensures
            r == self.rate_view(),
    {
        self.restart_rate
    }

    /// The number of children.
    pub fn len(&self) -> (r: usize)
        ensures
            r == self.specs_view().len(),
    {
        self.specs.len()
    }

    /// The number of indices whose state is known.
    pub fn states_len(&self) -> (r: usize)
        ensures
            r == self.states_view().len(),
    {
        self.states.len()
    }

    /// The specification of the child at `index`.
    pub fn spec(&self, index: usize) -> (r: &Spec<F>)
        requires
            index < self.specs_view().len(),
        ensures
            *r == self.specs_view()[index as int],
    {
        &self.specs[index]
    }

    /// The identity of the live child at `index`, if any.
    pub fn state(&self, index: usize) -> (r: Option<usize>)
        requires
            index < self.states_view().len(),
        ensures
            r == self.states_view()[index as int],
    {
        self.states[index]
    }

    /// Whether some index tracks the child with identity `id`.
    pub fn tracks(&self, id: usize) -> (r: bool)
        ensures
            r == self.states_view().contains(Some(id)),
    {
        let mut i: usize = 0;
        while i < self.states.len()
            invariant
                i <= self.states@.len(),
                forall|k: int| 0 <= k < i ==> self.states@[k] != Some(id),
            decreases self.states@.len() - i,
        {
            if self.states[i] == Some(id) {
                return true;
            }
            i = i + 1;
        }
        false
    }

    /// Prepares a startup from index `from`: the states of `from` and later
    /// indices are forgotten, to be recorded again one by one.
    pub fn begin_start_up(&mut self, from: usize)
        requires
            old(self).wf(),
            from <= old(self).states_view().len(),
        ensures
            final(self).wf(),
            final(self).logic_view() == old(self).logic_view(),
            final(self).rate_view() == old(self).rate_view(),
            final(self).specs_view() == old(self).specs_view(),
            final(self).states_view() == old(self).states_view().take(from as int),
    {
        self.states.truncate(from);
    }

    /// Records the outcome of starting the next child, at index `index`,
    /// which was given the identity `id`. A failed start is reported as the
    /// supervisor's error and leaves the state as it was.
    pub fn record_start(
        &mut self,
        index: usize,
        id: usize,
        outcome: Result<Started, StartError>,
    ) -> (r: Result<(), SupervisionError>)
        requires
            old(self).wf(),
            index == old(self).states_view().len(),
            index < old(self).specs_view().len(),
            !old(self).states_view().contains(Some(id)),
        ensures
            final(self).wf(),
            final(self).logic_view() == old(self).logic_view(),
            final(self).rate_view() == old(self).rate_view(),
            final(self).specs_view() == old(self).specs_view(),
            match outcome {
                Ok(started) => {
                    &&& r is Ok
                    &&& final(self).states_view() == old(self).states_view().push(
                        state_after(started, id),
                    )
                },
                Err(e) => {
                    &&& r == Err::<(), SupervisionError>(SupervisionError::StartupFailed(index, e))
                    &&& final(self).states_view() == old(self).states_view()
                },
            },
    {
        match outcome {
            Ok(started) => {
                let state = match started {
                    Started::Running => Some(id),
                    Started::Completed => None,
                };
                self.states.push(state);
                Ok(())
            },
            Err(e) => Err(SupervisionError::StartupFailed(index, e)),
        }
    }
    /// Handles the termination of the child with identity `id`, which carried
    /// `fault` if it was abnormal. The index that tracked it is cleared, and
    /// the child's restart policy decides whether a restart is to be
    /// attempted. An identity that no index tracks leaves everything as it was.
    pub fn disconnected(&mut self, id: usize, fault: Option<Fault>) -> (r: Recovery)
        requires
            old(self).wf(),
        ensures
            final(self).wf(),
            final(self).logic_view() == old(self).logic_view(),
            final(self).rate_view() == old(self).rate_view(),
            final(self).specs_view() == old(self).specs_view(),
            r == old(self).recovery_of(id, fault is Some),
            final(self).states_view() == old(self).cleared(id),
            forall|i: int|
                0 <= i < old(self).states_view().len() && #[trigger] old(self).states_view()[i]
                    == Some(id) ==> {
                    &&& r == if old(self).specs_view()[i].restart.wants_restart(fault is Some) {
                        Recovery::Restart(i as usize)
                    } else {
                        Recovery::Idle(i as usize)
                    }
                    &&& final(self).states_view() == old(self).states_view().update(i, None)
                },
    {
        let mut i: usize = 0;
        while i < self.states.len()
            invariant
                self.wf(),
                self.states@ == old(self).states@,
                self.specs@ == old(self).specs@,
                self.logic == old(self).logic,
                self.restart_rate == old(self).restart_rate,
                i <= self.states@.len(),
                forall|k: int| 0 <= k < i ==> self.states@[k] != Some(id),
            decreases self.states@.len() - i,
        {
            if self.states[i] == Some(id) {
                proof {
                    assert(self.states@.index_of(Some(id)) == i as int) by {
                        let j = self.states@.index_of(Some(id));
                        assert(self.states@.contains(Some(id)));
                        assert(self.states@[j] == Some(id));
                    }
                }
                self.states.set(i, None);
                proof {
                    assert(ids_distinct(self.states@));
                }
                let restart = self.specs[i].restart;
                let wanted = match restart {
                    Restart::Never => false,
                    Restart::Failed => fault.is_some(),
                    Restart::Always => true,
                };
                if wanted {
                    return Recovery::Restart(i);
                } else {
                    return Recovery::Idle(i);
                }
            }
            i = i + 1;
        }
        Recovery::Stale
    }

    /// The answer to a restart attempt of the child at `index`, given whether
    /// the rate limiter `admitted` it: a refusal stops the supervisor, an
    /// admission calls for the plan of the recovery logic.
    pub fn plan_restart(&self, index: usize, admitted: bool) -> (r: Result<
        RestartPlan,
        SupervisionError,
    >)
        requires
            index < self.specs_view().len(),
        ensures
            admitted ==> r == Ok::<RestartPlan, SupervisionError>(plan_for(self.logic_view(), index)),
            !admitted ==> r is Err && r->Err_0 is Throttled,
    {
        if !admitted {
            return Err(SupervisionError::Throttled);
        }
        let count = self.specs.len();
        assert(index < count);
        match self.logic {
            RecoveryLogic::Isolated => Ok(RestartPlan::StartOne(index)),
            RecoveryLogic::CascadeNewer => Ok(
                RestartPlan::Cascade { stop_from: index + 1, start_from: index },
            ),
            RecoveryLogic::CascadeAll => Ok(RestartPlan::Cascade { stop_from: 0, start_from: 0 }),
        }
    }

    /// Takes one step of the watch loop on `event`, at time `now`. A shutdown
    /// request ends supervision. A termination is handled as `disconnected`
    /// does; when a restart is to be attempted, `limiter` is asked once, and
    /// a refusal ends supervision as throttled.
    pub fn watch_step(&mut self, event: Event, limiter: &mut RateLimiter, now: u64) -> (r: Step)
        requires
            old(self).watching(),
            old(limiter).wf(),
            old(limiter).latest_view() <= now,
        ensures
            final(self).watching(),
            final(limiter).wf(),
            final(self).logic_view() == old(self).logic_view(),
            final(self).rate_view() == old(self).rate_view(),
            final(self).specs_view() == old(self).specs_view(),
            match event {
                Event::Shutdown(id) => {
                    &&& r == Step::PowerOff(id)
                    &&& final(self).states_view() == old(self).states_view()
                    &&& *final(limiter) == *old(limiter)
                },
                Event::Terminated(id, fault) => {
                    let rec = old(self).recovery_of(id, fault is Some);
                    &&& final(self).states_view() == old(self).cleared(id)
                    &&& rec is Restart ==> {
                        &&& final(limiter).latest_view() == now
                        &&& final(limiter).history() == if old(limiter).admits(now) {
                            old(limiter).history().push(now)
                        } else {
                            old(limiter).history()
                        }
                        &&& if old(limiter).admits(now) {
                            r == Step::Recover(plan_for(old(self).logic_view(), rec->Restart_0))
                        } else {
                            r == Step::Throttled
                        }
                    }
                    &&& !(rec is Restart) ==> {
                        &&& r == Step::Continue
                        &&& *final(limiter) == *old(limiter)
                    }
                },
            },
    {
        match event {
            Event::Shutdown(id) => Step::PowerOff(id),
            Event::Terminated(id, fault) => {
                match self.disconnected(id, fault) {
                    Recovery::Restart(index) => {
                        match self.restart(index, limiter, now) {
                            Ok(plan) => Step::Recover(plan),
                            Err(_) => Step::Throttled,
                        }
                    },
                    _ => Step::Continue,
                }
            },
        }
    }

    /// Attempts a restart of the child at `index` at time `now`: asks
    /// `limiter` for one admission, exactly once, and answers as
    /// `plan_restart` does for its verdict.
    pub fn restart(&self, index: usize, limiter: &mut RateLimiter, now: u64) -> (r: Result<
        RestartPlan,
        SupervisionError,
    >)
        requires
            index < self.specs_view().len(),
            old(limiter).wf(),
            old(limiter).latest_view() <= now,
        ensures
            final(limiter).wf(),
            final(limiter).latest_view() == now,
            final(limiter).history() == if old(limiter).admits(now) {
                old(limiter).history().push(now)
            } else {
                old(limiter).history()
            },
            final(limiter).limit_view() == old(limiter).limit_view(),
            old(limiter).admits(now) ==> final(limiter).readings() == crate::rate::recent(
                old(limiter).readings(),
                now,
                old(limiter).limit_view().period_ms,
            ).push(now),
            !old(limiter).admits(now) ==> final(limiter).readings() == crate::rate::recent(
                old(limiter).readings(),
                now,
                old(limiter).limit_view().period_ms,
            ),
            old(limiter).admits(now) ==> r == Ok::<RestartPlan, SupervisionError>(
                plan_for(self.logic_view(), index),
            ),
            !old(limiter).admits(now) ==> r is Err && r->Err_0 is Throttled,
    {
        let admitted = limiter.check(now);
        self.plan_restart(index, admitted)
    }

    /// Records the outcome of starting the child at `index` again, alone,
    /// with the identity `id`. No other index changes. A failed start is
    /// reported as the supervisor's error and leaves the state as it was.
    pub fn record_restart(
        &mut self,
        index: usize,
        id: usize,
        outcome: Result<Started, StartError>,
    ) -> (r: Result<(), SupervisionError>)
        requires
            old(self).wf(),
            index < old(self).states_view().len(),
            old(self).states_view()[index as int] is None,
            !old(self).states_view().contains(Some(id)),
        ensures
            final(self).wf(),
            final(self).logic_view() == old(self).logic_view(),
            final(self).rate_view() == old(self).rate_view(),
            final(self).specs_view() == old(self).specs_view(),
            match outcome {
                Ok(started) => {
                    &&& r is Ok
                    &&& final(self).states_view() == old(self).states_view().update(
                        index as int,
                        state_after(started, id),
                    )
                },
                Err(e) => {
                    &&& r == Err::<(), SupervisionError>(SupervisionError::StartupFailed(index, e))
                    &&& final(self).states_view() == old(self).states_view()
                },
            },
    {
        match outcome {
            Ok(started) => {
                let state = match started {
                    Started::Running => Some(id),
                    Started::Completed => None,
                };
                self.states.set(index, state);
                proof {
                    assert forall|i: int, j: int|
                        0 <= i < self.states@.len() && 0 <= j < self.states@.len() && i != j
                            && self.states@[i] is Some implies self.states@[i]
                            != self.states@[j] by {
                        if i != index && j != index {
                            assert(old(self).states@[i] == self.states@[i]);
                        } else if i != index {
                            assert(old(self).states@[i] == self.states@[i]);
                            assert(old(self).states@.contains(self.states@[i]));
                        } else if self.states@[j] is Some {
                            assert(old(self).states@[j] == self.states@[j]);
                            assert(old(self).states@.contains(self.states@[j]));
                        }
                    }
                }
                Ok(())
            },
            Err(e) => Err(SupervisionError::StartupFailed(index, e)),
        }
    }
    /// Begins the teardown of the children at index `from` and later: their
    /// states are drained, and the live ones are returned as shutdown orders,
    /// newest first, with a collector that waits for those shut down
    /// gracefully, each until its grace from `now` has passed.
    pub fn start_shut_down(&mut self, from: usize, now: u64) -> (r: (
        Vec<ShutdownOrder>,
        ShutdownCollector,
    ))
        requires
            old(self).wf(),
            from <= old(self).states_view().len(),
        ensures
            final(self).wf(),
            final(self).logic_view() == old(self).logic_view(),
            final(self).rate_view() == old(self).rate_view(),
            final(self).specs_view() == old(self).specs_view(),
            final(self).states_view() == old(self).states_view().take(from as int),
            r.0@ == shutdown_orders(
                old(self).states_view(),
                old(self).specs_view(),
                from as int,
                old(self).states_view().len() as int,
            ),
            r.1.slots() == r.0@.map_values(|o: ShutdownOrder| waiting_slot(o)),
            r.1.deadlines() == r.0@.map_values(|o: ShutdownOrder| deadline_at(o.haste, now)),
            r.1.wf(),
    {
        let len = self.states.len();
        let mut orders: Vec<ShutdownOrder> = Vec::new();
        let mut waiting: Vec<Option<usize>> = Vec::new();
        let mut deadlines: Vec<Option<u64>> = Vec::new();
        let mut j: usize = len;
        while j > from
            invariant
                from <= j <= len,
                len == self.states@.len(),
                self.states@.len() <= self.specs@.len(),
                orders@ == shutdown_orders(self.states@, self.specs@, j as int, len as int),
                waiting@ == orders@.map_values(|o: ShutdownOrder| waiting_slot(o)),
                deadlines@ == orders@.map_values(|o: ShutdownOrder| deadline_at(o.haste, now)),
            decreases j,
        {
            j = j - 1;
            if let Some(id) = self.states[j] {
                let haste = self.specs[j].shutdown;
                let order = ShutdownOrder { index: j, id, haste };
                orders.push(order);
                let slot = match haste {
                    Haste::Quickly => None,
                    Haste::Gracefully(_) => Some(id),
                };
                waiting.push(slot);
                deadlines.push(deadline_after(haste, now));
            }
            assert(waiting@ =~= orders@.map_values(|o: ShutdownOrder| waiting_slot(o)));
            assert(deadlines@ =~= orders@.map_values(|o: ShutdownOrder| deadline_at(o.haste, now)));
        }
        self.states.truncate(from);
        (orders, ShutdownCollector::from_slots(waiting, deadlines))
    }
}

} // verus!
