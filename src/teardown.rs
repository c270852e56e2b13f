//! Ordered teardown: which children are asked to shut down, in which order,
//! and which of them the supervisor still waits for.
use vstd::prelude::*;
use crate::spec::{Grace, Haste, Spec};
use crate::supervisor::ids_distinct;

verus! {

/// A request to shut down one live child.
#[derive(Clone, Copy, Debug)]
pub struct ShutdownOrder {
    /// The child's index.
    pub index: usize,
    /// The child's identity.
    pub id: usize,
    /// How patiently the child is waited for.
    pub haste: Haste,
}

/// The slot a shutdown order takes in the waiting set: the child's identity
/// when it is waited for.
pub open spec fn waiting_slot(o: ShutdownOrder) -> Option<usize> {
    if o.haste.waits() {
        Some(o.id)
    } else {
        None
    }
}

/// A slot once the child with identity `id` has ended.
pub open spec fn clear_slot(slot: Option<usize>, id: usize) -> Option<usize> {
    if slot == Some(id) {
        None
    } else {
        slot
    }
}

/// The time by which a teardown begun at `now` stops waiting for a child
/// shut down with `haste`, if it ever does: `now` plus the grace, at most the
/// end of the clock.
pub open spec fn deadline_at(haste: Haste, now: u64) -> Option<u64> {
    match haste {
        Haste::Gracefully(Grace::Fixed(d)) => Some(
            if now + crate::outside::millis_of(d) > u64::MAX {
                u64::MAX
            } else {
                (now + crate::outside::millis_of(d)) as u64
            },
        ),
        _ => None,
    }
}

/// The deadline of a child shut down with `haste` in a teardown begun at
/// `now`.
pub(crate) fn deadline_after(haste: Haste, now: u64) -> (r: Option<u64>)
    ensures
        r == deadline_at(haste, now),
{
    match haste {
        Haste::Gracefully(Grace::Fixed(d)) => {
            let ms = d.as_millis();
            let room = (u64::MAX - now) as u128;
            if ms > room {
                Some(u64::MAX)
            } else {
                Some(now + ms as u64)
            }
        },
        _ => None,
    }
}

/// A slot whose deadline has passed at `now` is no longer waited for.
pub open spec fn expire_slot(slot: Option<usize>, deadline: Option<u64>, now: u64) -> Option<usize> {
    match deadline {
        Some(t) => if t <= now {
            None
        } else {
            slot
        },
        None => slot,
    }
}

/// The shutdown orders for the live children at indices `lo` to `hi`
/// (excluded), newest first.
pub open spec fn shutdown_orders<F>(
    states: Seq<Option<usize>>,
    specs: Seq<Spec<F>>,
    lo: int,
    hi: int,
) -> Seq<ShutdownOrder>
    decreases hi - lo,
{
    if lo >= hi {
        Seq::empty()
    } else {
        let rest = shutdown_orders(states, specs, lo + 1, hi);
        match states[lo] {
            Some(id) => rest.push(ShutdownOrder { index: lo as usize, id, haste: specs[lo].shutdown }),
            None => rest,
        }
    }
}

/// A teardown orders every live child of its range, once each, newest first:
/// the indices of the orders strictly decrease, each order carries the
/// child's identity and its shutdown haste, and every live index of the
/// range has an order.
#[verifier::rlimit(40)]
pub proof fn lemma_orders_newest_first<F>(
    states: Seq<Option<usize>>,
    specs: Seq<Spec<F>>,
    lo: int,
    hi: int,
)
    requires
        0 <= lo,
        hi <= states.len(),
        states.len() <= specs.len(),
        states.len() <= usize::MAX,
    ensures
        ({
            let orders = shutdown_orders(states, specs, lo, hi);
            &&& forall|k: int|
                0 <= k < orders.len() ==> {
                    let o = #[trigger] orders[k];
                    &&& lo <= o.index < hi
                    &&& states[o.index as int] == Some(o.id)
                    &&& o.haste == specs[o.index as int].shutdown
                }
            &&& forall|k1: int, k2: int|
                0 <= k1 < k2 < orders.len() ==> #[trigger] orders[k1].index > #[trigger] orders[k2].index
            &&& forall|i: int|
                lo <= i < hi && #[trigger] states[i] is Some ==> exists|k: int|
                    0 <= k < orders.len() && orders[k].index == i
        }),
    decreases hi - lo,
{
    if lo < hi {
        lemma_orders_newest_first(states, specs, lo + 1, hi);
        let rest = shutdown_orders(states, specs, lo + 1, hi);
        let orders = shutdown_orders(states, specs, lo, hi);
        if states[lo] is Some {
            assert(orders.len() == rest.len() + 1);
            assert forall|k: int| 0 <= k < rest.len() implies orders[k] == rest[k] by {}
            assert(orders[rest.len() as int].index == lo);
            assert forall|k1: int, k2: int|
                0 <= k1 < k2 < orders.len() implies #[trigger] orders[k1].index
                > #[trigger] orders[k2].index by {
                assert(orders[k1] == rest[k1]);
                if k2 < rest.len() {
                    assert(orders[k2] == rest[k2]);
                }
            }
            assert forall|i: int| lo <= i < hi && #[trigger] states[i] is Some implies exists|k: int|
                0 <= k < orders.len() && orders[k].index == i by {
                if i == lo {
                    assert(orders[rest.len() as int].index == i);
                } else {
                    let k = choose|k: int| 0 <= k < rest.len() && rest[k].index == i;
                    assert(orders[k] == rest[k]);
                }
            }
        } else {
            assert(orders == rest);
        }
    }
}

/// A teardown over a range where no child is live sends nothing and waits
/// for nothing.
pub proof fn lemma_idle_teardown<F>(
    states: Seq<Option<usize>>,
    specs: Seq<Spec<F>>,
    lo: int,
    hi: int,
)
    requires
        forall|i: int| lo <= i < hi ==> #[trigger] states[i] is None,
    ensures
        shutdown_orders(states, specs, lo, hi).len() == 0,
        shutdown_orders(states, specs, lo, hi).map_values(|o: ShutdownOrder| waiting_slot(o)).len()
            == 0,
    decreases hi - lo,
{
    if lo < hi {
        lemma_idle_teardown(states, specs, lo + 1, hi);
    }
}

/// A child that a teardown from `lo` orders to shut down is no longer tracked
/// once the states from `lo` on are drained, so a later notice of its end is
/// stale and restarts nothing.
pub proof fn lemma_torn_down_untracked<F>(
    states: Seq<Option<usize>>,
    specs: Seq<Spec<F>>,
    lo: int,
    k: int,
)
    requires
        0 <= lo <= states.len(),
        states.len() <= specs.len(),
        states.len() <= usize::MAX,
        ids_distinct(states),
        0 <= k < shutdown_orders(states, specs, lo, states.len() as int).len(),
    ensures
        !states.take(lo).contains(Some(shutdown_orders(states, specs, lo, states.len() as int)[k].id)),
{
    let orders = shutdown_orders(states, specs, lo, states.len() as int);
    lemma_orders_newest_first(states, specs, lo, states.len() as int);
    let o = orders[k];
    assert(states[o.index as int] == Some(o.id));
    if states.take(lo).contains(Some(o.id)) {
        let j = states.take(lo).index_of(Some(o.id));
        assert(states[j] == Some(o.id));
    }
}

/// The children that a teardown still waits for, and until when.
pub struct ShutdownCollector {
    waiting: Vec<Option<usize>>,
    deadlines: Vec<Option<u64>>,
}

impl ShutdownCollector {
    /// One slot per shutdown order: the identity of a child still waited for,
    /// or nothing.
    pub closed spec fn slots(&self) -> Seq<Option<usize>> {
        self.waiting@
    }

    /// The deadline of each slot, if it has one.
    pub closed spec fn deadlines(&self) -> Seq<Option<u64>> {
        self.deadlines@
    }

    /// Each slot has its deadline.
    pub open spec fn wf(&self) -> bool {
        self.slots().len() == self.deadlines().len()
    }

    /// No child is waited for any more.
    pub open spec fn done(&self) -> bool {
        forall|k: int| 0 <= k < self.slots().len() ==> self.slots()[k] is None
    }

    /// A collector with the given slots and deadlines.
    pub(crate) fn from_slots(waiting: Vec<Option<usize>>, deadlines: Vec<Option<u64>>) -> (r: Self)
        ensures
            r.slots() == waiting@,
            r.deadlines() == deadlines@,
    {
        ShutdownCollector { waiting, deadlines }
    }

    /// Whether the child with identity `id` is still waited for.
    pub fn is_waiting_for(&self, id: usize) -> (r: bool)
        ensures
            r == self.slots().contains(Some(id)),
    {
        let mut k: usize = 0;
        while k < self.waiting.len()
            invariant
                k <= self.waiting@.len(),
                forall|j: int| 0 <= j < k ==> self.waiting@[j] != Some(id),
            decreases self.waiting@.len() - k,
        {
            if self.waiting[k] == Some(id) {
                return true;
            }
            k = k + 1;
        }
        false
    }

    /// Stops waiting for the child with identity `id`, which ended. An
    /// identity not waited for changes nothing.
    pub fn remove(&mut self, id: usize)
        ensures
            final(self).slots() == old(self).slots().map_values(
                |s: Option<usize>| clear_slot(s, id),
            ),
            final(self).deadlines() == old(self).deadlines(),
    {
        let ghost before = self.waiting@;
        let mut k: usize = 0;
        while k < self.waiting.len()
            invariant
                k <= self.waiting@.len(),
                self.waiting@.len() == before.len(),
                self.deadlines@ == old(self).deadlines@,
                forall|j: int| 0 <= j < k ==> self.waiting@[j] == clear_slot(before[j], id),
                forall|j: int| k <= j < before.len() ==> self.waiting@[j] == before[j],
            decreases self.waiting@.len() - k,
        {
            if self.waiting[k] == Some(id) {
                self.waiting.set(k, None);
            }
            k = k + 1;
        }
        assert(self.waiting@ =~= before.map_values(|s: Option<usize>| clear_slot(s, id)));
    }

    /// Stops waiting for every child whose deadline has passed at `now`.
    /// Afterwards no child is waited for beyond its deadline.
    pub fn expire(&mut self, now: u64)
        requires
            old(self).wf(),
        ensures
            final(self).wf(),
            final(self).deadlines() == old(self).deadlines(),
            final(self).slots().len() == old(self).slots().len(),
            forall|k: int|
                0 <= k < old(self).slots().len() ==> #[trigger] final(self).slots()[k] == expire_slot(
                    old(self).slots()[k],
                    old(self).deadlines()[k],
                    now,
                ),
            forall|k: int|
                0 <= k < final(self).slots().len() && #[trigger] final(self).slots()[k] is Some
                    && final(self).deadlines()[k] is Some ==> final(self).deadlines()[k]->Some_0 > now,
    {
        let ghost before = self.waiting@;
        let mut k: usize = 0;
        while k < self.waiting.len()
            invariant
                k <= self.waiting@.len(),
                self.waiting@.len() == before.len(),
                self.deadlines@ == old(self).deadlines@,
                self.deadlines@.len() == before.len(),
                forall|j: int|
                    0 <= j < k ==> self.waiting@[j] == expire_slot(before[j], self.deadlines@[j], now),
                forall|j: int| k <= j < before.len() ==> self.waiting@[j] == before[j],
            decreases self.waiting@.len() - k,
        {
            if let Some(t) = self.deadlines[k] {
                if t <= now {
                    self.waiting.set(k, None);
                }
            }
            k = k + 1;
        }
    }

    /// The earliest deadline of a child still waited for, if any has one:
    /// the teardown waits no longer than that before it expires slots again.
    pub fn next_deadline(&self) -> (r: Option<u64>)
        requires
            self.wf(),
        ensures
            r is Some ==> exists|k: int|
                0 <= k < self.slots().len() && self.slots()[k] is Some && #[trigger] self.deadlines()[k]
                    == r,
            forall|k: int|
                0 <= k < self.slots().len() && self.slots()[k] is Some && #[trigger] self.deadlines()[k] is Some
                    ==> r is Some && r->Some_0 <= self.deadlines()[k]->Some_0,
    {
        let mut best: Option<u64> = None;
        let mut k: usize = 0;
        while k < self.waiting.len()
            invariant
                k <= self.waiting@.len(),
                self.waiting@.len() == self.deadlines@.len(),
                best is Some ==> exists|j: int|
                    0 <= j < k && self.waiting@[j] is Some && #[trigger] self.deadlines@[j] == best,
                forall|j: int|
                    0 <= j < k && self.waiting@[j] is Some && #[trigger] self.deadlines@[j] is Some
                        ==> best is Some && best->Some_0 <= self.deadlines@[j]->Some_0,
            decreases self.waiting@.len() - k,
        {
            if self.waiting[k].is_some() {
                if let Some(t) = self.deadlines[k] {
                    let better = match best {
                        Some(b) => t < b,
                        None => true,
                    };
                    if better {
                        best = Some(t);
                    }
                }
            }
            k = k + 1;
        }
        best
    }

    /// Whether the teardown is over: no child is waited for any more.
    pub fn is_done(&self) -> (r: bool)
        ensures
            r == self.done(),
    {
        let mut k: usize = 0;
        while k < self.waiting.len()
            invariant
                k <= self.waiting@.len(),
                forall|j: int| 0 <= j < k ==> self.waiting@[j] is None,
            decreases self.waiting@.len() - k,
        {
            if self.waiting[k].is_some() {
                return false;
            }
            k = k + 1;
        }
        true
    }
}

} // verus!
