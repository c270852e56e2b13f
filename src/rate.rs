//! The restart rate limit: at most `count` restarts within any `period`.
//!
//! Time is a count of milliseconds on a clock that never goes back, read by
//! the caller and handed in.
use vstd::prelude::*;

verus! {

/// How many restarts may happen within a period of milliseconds.
#[derive(Clone, Copy, Debug, PartialEq, Eq, Structural)]
pub struct RateLimit {
    pub count: usize,
    pub period_ms: u64,
}

impl RateLimit {
    /// The limit of `count` restarts per `period_ms`, if `count` is not zero.
    pub fn new(count: usize, period_ms: u64) -> (r: Option<RateLimit>)
        ensures
            r is Some <==> count > 0,
            r is Some ==> r->Some_0 == (RateLimit { count, period_ms }),
    {
        if count > 0 {
            Some(RateLimit { count, period_ms })
        } else {
            None
        }
    }
}

/// A reading at time `t` still counts at time `now`: it lies within the
/// period that ends at `now`.
pub open spec fn in_window(t: u64, now: u64, period_ms: u64) -> bool {
    t <= now && now - t <= period_ms
}

/// The readings of `s` that still count at `now`, in their order.
pub open spec fn recent(s: Seq<u64>, now: u64, period_ms: u64) -> Seq<u64>
    decreases s.len(),
{
    if s.len() == 0 {
        Seq::empty()
    } else {
        let rest = recent(s.drop_last(), now, period_ms);
        if in_window(s.last(), now, period_ms) {
            rest.push(s.last())
        } else {
            rest
        }
    }
}

/// The times are in order, oldest first.
pub open spec fn ascending(s: Seq<u64>) -> bool {
    forall|i: int, j: int| 0 <= i <= j < s.len() ==> s[i] <= s[j]
}

/// Any `count + 1` successive times of `h` span more than `period_ms`: no
/// period holds more than `count` of them.
pub open spec fn spaced(h: Seq<u64>, count: usize, period_ms: u64) -> bool {
    forall|i: int|
        0 <= i && i + count < h.len() ==> #[trigger] h[i + count] - h[i] > period_ms
}

/// Enforces a `RateLimit` by remembering when the recent admissions happened.
pub struct RateLimiter {
    limit: RateLimit,
    readings: Vec<u64>,
    latest: u64,
    history: Ghost<Seq<u64>>,
    forgotten: Ghost<nat>,
}

impl RateLimiter {
    /// The limit enforced.
    pub closed spec fn limit_view(&self) -> RateLimit {
        self.limit
    }

    /// The times of the admissions remembered, oldest first.
    pub closed spec fn readings(&self) -> Seq<u64> {
        self.readings@
    }

    /// The latest time an attempt was made at, or zero.
    pub closed spec fn latest_view(&self) -> u64 {
        self.latest
    }

    /// The times of every admission ever made, oldest first.
    pub closed spec fn history(&self) -> Seq<u64> {
        self.history@
    }

    /// The limiter's bookkeeping holds: the readings are the admissions not
    /// yet expired, and the admissions so far respect the limit.
    pub closed spec fn wf(&self) -> bool {
        let h = self.history@;
        let f = self.forgotten@;
        &&& self.readings@.len() <= self.limit.count
        &&& ascending(h)
        &&& forall|i: int| 0 <= i < h.len() ==> h[i] <= self.latest
        &&& f <= h.len()
        &&& self.readings@ == h.subrange(f as int, h.len() as int)
        &&& forall|i: int| 0 <= i < f ==> h[i] + self.limit.period_ms < self.latest
        &&& spaced(h, self.limit.count, self.limit.period_ms)
    }

    /// Whether an attempt at `now` is admitted: fewer than `count`
    /// admissions happened within the period that ends at `now`.
    pub open spec fn admits(&self, now: u64) -> bool {
        recent(self.readings(), now, self.limit_view().period_ms).len() < self.limit_view().count
    }

    /// A limiter for `limit` that has admitted nothing yet.
    pub fn new(limit: RateLimit) -> (r: Self)
        ensures
            r.limit_view() == limit,
            r.readings() == Seq::<u64>::empty(),
            r.history() == Seq::<u64>::empty(),
            r.latest_view() == 0,
            r.wf(),
    {
        let r = RateLimiter {
            limit,
            readings: Vec::new(),
            latest: 0,
            history: Ghost(Seq::empty()),
            forgotten: Ghost(0),
        };
        assert(r.readings@ =~= r.history@.subrange(0, 0));
        r
    }

    /// The limit enforced.
    pub fn limit(&self) -> (r: RateLimit)
        ensures
            r == self.limit_view(),
    {
        self.limit
    }

    /// The latest time an attempt was made at, or zero.
    pub fn latest(&self) -> (r: u64)
        ensures
            r == self.latest_view(),
    {
        self.latest
    }

    /// Asks for one admission at time `now`, which is not earlier than any
    /// attempt before. Readings that no longer count are forgotten; an
    /// admission is remembered.
    pub fn check(&mut self, now: u64) -> (r: bool)
        requires
            old(self).wf(),
            old(self).latest_view() <= now,
        ensures
            final(self).wf(),
            final(self).latest_view() == now,
            final(self).limit_view() == old(self).limit_view(),
            r == old(self).admits(now),
            final(self).readings() == if r {
                recent(old(self).readings(), now, old(self).limit_view().period_ms).push(now)
            } else {
                recent(old(self).readings(), now, old(self).limit_view().period_ms)
            },
            final(self).history() == if r {
                old(self).history().push(now)
            } else {
                old(self).history()
            },
    {
        let period = self.limit.period_ms;
        let ghost h = self.history@;
        let ghost f = self.forgotten@;
        proof {
            assert(ascending(self.readings@)) by {
                assert forall|i: int, j: int| 0 <= i <= j < self.readings@.len() implies
                    self.readings@[i] <= self.readings@[j] by {
                    assert(self.readings@[i] == h[f + i]);
                    assert(self.readings@[j] == h[f + j]);
                }
            }
            lemma_recent_suffix(self.readings@, now, period);
        }
        let ghost m = choose|m: int|
            0 <= m <= self.readings@.len() && recent(self.readings@, now, period)
                == self.readings@.subrange(m, self.readings@.len() as int) && (forall|i: int|
                0 <= i < m ==> #[trigger] self.readings@[i] + period < now);
        let mut kept: Vec<u64> = Vec::new();
        let mut i: usize = 0;
        while i < self.readings.len()
            invariant
                i <= self.readings@.len(),
                kept@ == recent(self.readings@.take(i as int), now, period),
                kept@.len() <= i,
                forall|k: int| 0 <= k < self.readings@.len() ==> self.readings@[k] <= now,
                self.readings@ == old(self).readings@,
            decreases self.readings@.len() - i,
        {
            let t = self.readings[i];
            assert(self.readings@.take(i + 1).drop_last() =~= self.readings@.take(i as int));
            if t <= now && now - t <= period {
                kept.push(t);
            }
            i = i + 1;
        }
        assert(self.readings@.take(self.readings@.len() as int) =~= self.readings@);
        let admitted = kept.len() < self.limit.count;
        proof {
            let n = h.len() as int;
            assert(kept@ =~= h.subrange(f + m, n));
            assert forall|k: int| 0 <= k < f + m implies #[trigger] h[k] + period < now by {
                if k >= f {
                    assert(self.readings@[k - f] == h[k]);
                }
            }
            if admitted {
                let h2 = h.push(now);
                assert forall|k: int| 0 <= k && k + self.limit.count < h2.len() implies
                    #[trigger] h2[k + self.limit.count] - h2[k] > period by {
                    if k + self.limit.count == n {
                        assert(h2[k] == h[k]);
                        if k >= f + m {
                            assert(kept@.len() == n - (f + m));
                        }
                    } else {
                        assert(h2[k] == h[k]);
                        assert(h2[k + self.limit.count] == h[k + self.limit.count]);
                    }
                }
            }
        }
        if admitted {
            kept.push(now);
            proof {
                self.history = Ghost(h.push(now));
                assert(kept@ =~= h.push(now).subrange(f + m, h.len() as int + 1));
            }
        }
        self.readings = kept;
        self.latest = now;
        proof {
            self.forgotten = Ghost((f + m) as nat);
        }
        admitted
    }
}

/// However the limiter was used, any `count + 1` successive admissions lie
/// more than a period apart: no period of the run, wherever it starts, holds
/// more than `count` admissions.
pub proof fn lemma_throttle(l: RateLimiter)
    requires
        l.wf(),
    ensures
        ascending(l.history()),
        spaced(l.history(), l.limit_view().count, l.limit_view().period_ms),
{
}

/// Once `count` remembered admissions lie within the period that ends at
/// `now`, the next attempt at `now` is refused.
pub proof fn lemma_full_window_refuses(l: RateLimiter, now: u64)
    requires
        l.readings().len() >= l.limit_view().count,
        forall|k: int|
            0 <= k < l.readings().len() ==> in_window(#[trigger] l.readings()[k], now, l.limit_view().period_ms),
    ensures
        !l.admits(now),
{
    lemma_recent_all(l.readings(), now, l.limit_view().period_ms);
}

/// In times in order, none later than `now`, the ones that still count at
/// `now` are those after the first `m`, which have all expired.
proof fn lemma_recent_suffix(s: Seq<u64>, now: u64, period_ms: u64)
    requires
        ascending(s),
        forall|k: int| 0 <= k < s.len() ==> s[k] <= now,
    ensures
        exists|m: int|
            0 <= m <= s.len() && recent(s, now, period_ms) == s.subrange(m, s.len() as int) && (
            forall|i: int| 0 <= i < m ==> #[trigger] s[i] + period_ms < now),
    decreases s.len(),
{
    if s.len() == 0 {
        assert(recent(s, now, period_ms) =~= s.subrange(0, 0));
    } else {
        let init = s.drop_last();
        assert forall|i: int, j: int| 0 <= i <= j < init.len() implies init[i] <= init[j] by {
            assert(init[i] == s[i] && init[j] == s[j]);
        }
        assert forall|k: int| 0 <= k < init.len() implies init[k] <= now by {
            assert(init[k] == s[k]);
        }
        lemma_recent_suffix(init, now, period_ms);
        let m = choose|m: int|
            0 <= m <= init.len() && recent(init, now, period_ms) == init.subrange(m, init.len() as int)
                && (forall|i: int| 0 <= i < m ==> #[trigger] init[i] + period_ms < now);
        if in_window(s.last(), now, period_ms) {
            assert(init.subrange(m, init.len() as int).push(s.last()) =~= s.subrange(m, s.len() as int));
            assert forall|i: int| 0 <= i < m implies #[trigger] s[i] + period_ms < now by {
                assert(s[i] == init[i]);
            }
        } else {
            let n = s.len() as int;
            assert forall|i: int| 0 <= i < n implies #[trigger] s[i] + period_ms < now by {
                assert(s[i] <= s[n - 1]);
            }
            if m < init.len() {
                assert(init[m] == s[m]);
            }
            assert(recent(init, now, period_ms) =~= s.subrange(n, n)) by {
                if m < init.len() {
                    let x = init[m];
                    assert(recent(init, now, period_ms)[0] == x);
                    assert(x + period_ms < now);
                    lemma_recent_in_window(init, now, period_ms);
                }
            }
            assert(recent(s, now, period_ms) =~= s.subrange(n, n));
        }
    }
}

/// Every time that still counts lies within the period.
proof fn lemma_recent_in_window(s: Seq<u64>, now: u64, period_ms: u64)
    ensures
        forall|k: int|
            0 <= k < recent(s, now, period_ms).len() ==> in_window(
                #[trigger] recent(s, now, period_ms)[k],
                now,
                period_ms,
            ),
    decreases s.len(),
{
    if s.len() > 0 {
        let rest = recent(s.drop_last(), now, period_ms);
        lemma_recent_in_window(s.drop_last(), now, period_ms);
        assert forall|k: int| 0 <= k < rest.len() implies #[trigger] rest.push(s.last())[k] == rest[k] by {}
    }
}

proof fn lemma_recent_all(s: Seq<u64>, now: u64, period_ms: u64)
    requires
        forall|k: int| 0 <= k < s.len() ==> in_window(#[trigger] s[k], now, period_ms),
    ensures
        recent(s, now, period_ms) == s,
    decreases s.len(),
{
    if s.len() > 0 {
        let init = s.drop_last();
        assert forall|k: int| 0 <= k < init.len() implies in_window(#[trigger] init[k], now, period_ms) by {
            assert(init[k] == s[k]);
        }
        lemma_recent_all(init, now, period_ms);
        assert(init.push(s.last()) =~= s);
    }
}

} // verus!
