//! The cell-rate throughput guard.
//!
//! One limiter is shared by every provider call of a run.  It is configured
//! with a capacity of cost units per rolling window and replenishes
//! continuously: the classic generic-cell-rate scheme, carried as a single
//! theoretical-arrival-time counter.  Callers pass the current monotonic
//! time in nanoseconds; a caller that is refused sleeps and retries, so
//! rate pressure is never an error.
//!
//! All arithmetic is exact.  Times are kept on a virtual scale multiplied
//! by the capacity, so the per-cost increment is `cost * window` with no
//! division or rounding anywhere.
//!
//! The limiter carries a ghost history of every admitted consume, and the
//! laws at the bottom bound the cost any interval can see and pin down
//! exactly when a denied cost is admitted again.

use vstd::prelude::*;
use vstd::arithmetic::mul::lemma_mul_inequality;
use vstd::arithmetic::mul::lemma_mul_upper_bound;

verus! {

/// The nonnegative part of an integer.
pub open spec fn max0(x: int) -> int {
    if x > 0 {
        x
    } else {
        0
    }
}

/// The total cost of the history's entries that arrived strictly after `s`.
pub open spec fn consumed_since(hist: Seq<(int, int)>, s: int) -> int
    decreases hist.len(),
{
    if hist.len() == 0 {
        0
    } else {
        consumed_since(hist.drop_last(), s) + if hist.last().0 > s {
            hist.last().1
        } else {
            0
        }
    }
}

proof fn lemma_consumed_since_push(hist: Seq<(int, int)>, s: int, e: (int, int))
    ensures
        consumed_since(hist.push(e), s) == consumed_since(hist, s) + if e.0 > s {
            e.1
        } else {
            0
        },
{
    assert(hist.push(e).drop_last() =~= hist);
    assert(hist.push(e).last() == e);
}

proof fn lemma_consumed_since_none_after(hist: Seq<(int, int)>, s: int)
    requires
        forall|i: int| 0 <= i < hist.len() ==> (#[trigger] hist[i]).0 <= s,
    ensures
        consumed_since(hist, s) == 0,
    decreases hist.len(),
{
    if hist.len() > 0 {
        assert(hist.last() == hist[hist.len() - 1]);
        lemma_consumed_since_none_after(hist.drop_last(), s);
    }
}

/// A generic-cell-rate limiter: at most `capacity` cost units per rolling
/// `window_ns` nanoseconds, replenished continuously.
pub struct RateLimiter {
    capacity: u32,
    window_ns: u64,
    /// Theoretical arrival time, in virtual units of nanoseconds times
    /// `capacity`.
    tat_v: u128,
    /// The latest arrival time this limiter has seen, in nanoseconds.
    last_ns: u64,
    /// Every admitted consume, as (arrival nanosecond, cost).
    hist: Ghost<Seq<(int, int)>>,
}

impl RateLimiter {
    /// The configured capacity, in cost units per window.
    pub closed spec fn spec_capacity(&self) -> int {
        self.capacity as int
    }

    /// The configured window, in nanoseconds.
    pub closed spec fn spec_window(&self) -> int {
        self.window_ns as int
    }

    /// The latest arrival time seen, in nanoseconds.
    pub closed spec fn spec_last_ns(&self) -> int {
        self.last_ns as int
    }

    /// Every admitted consume so far, as (arrival nanosecond, cost), in
    /// arrival order.
    pub closed spec fn history(&self) -> Seq<(int, int)> {
        self.hist@
    }

    /// The cost still outstanding at time `now`, on the virtual scale: what
    /// has been admitted but not yet replenished, times the window length.
    /// It falls by `capacity` for every nanosecond that passes and rises by
    /// `cost * window` for every admitted consume.
    pub closed spec fn level_v(&self, now: int) -> int {
        let t = if now > self.last_ns as int {
            now
        } else {
            self.last_ns as int
        };
        max0(self.tat_v as int - t * self.spec_capacity())
    }

    /// Whether a consume of `cost` at time `now` would be admitted: the
    /// outstanding level together with the new cost must fit the capacity.
    pub open spec fn spec_admits(&self, now: int, cost: int) -> bool {
        self.level_v(now) + cost * self.spec_window() <= self.spec_capacity() * self.spec_window()
    }

    /// The limiter's invariant.
    pub closed spec fn inv(&self) -> bool {
        &&& self.capacity >= 1
        &&& self.window_ns >= 1
        &&& forall|i: int|
            0 <= i < self.hist@.len() ==> 0 <= (#[trigger] self.hist@[i]).0
                <= self.last_ns as int && 0 <= self.hist@[i].1
        &&& self.tat_v as int <= self.last_ns as int * self.spec_capacity() + self.spec_capacity()
            * self.spec_window()
        &&& forall|s: int|
            0 <= s <= self.last_ns as int ==> self.spec_window() * #[trigger] consumed_since(
                self.hist@,
                s,
            ) <= max0(self.tat_v as int - s * self.spec_capacity())
    }

    /// A fresh limiter admitting `capacity` cost units per `window_ns`
    /// nanoseconds, with its whole budget available.
    pub fn new(capacity: u32, window_ns: u64) -> (r: RateLimiter)
        requires
            capacity >= 1,
            window_ns >= 1,
        ensures
            r.inv(),
            r.spec_capacity() == capacity as int,
            r.spec_window() == window_ns as int,
            r.spec_last_ns() == 0,
            r.history() == Seq::<(int, int)>::empty(),
            r.level_v(0) == 0,
    {
        let r = RateLimiter {
            capacity,
            window_ns,
            tat_v: 0,
            last_ns: 0,
            hist: Ghost(Seq::empty()),
        };
        proof {
            assert forall|s: int| 0 <= s <= 0 implies r.spec_window() * #[trigger] consumed_since(
                r.hist@,
                s,
            ) <= max0(r.tat_v as int - s * r.spec_capacity()) by {
                assert(consumed_since(r.hist@, s) == 0);
            }
        }
        r
    }

    /// Try to spend `cost` units at time `now_ns` (monotonic nanoseconds; a
    /// clock that stepped backwards is read as the latest time seen).  The
    /// consume is admitted, and the state advanced, exactly when the
    /// outstanding level plus the new cost fits the capacity; otherwise
    /// nothing changes and the caller is expected to sleep and retry.  A
    /// cost above the capacity is never admitted.
    pub fn try_consume(&mut self, now_ns: u64, cost: u32) -> (admitted: bool)
        requires
            old(self).inv(),
        ensures
            final(self).inv(),
            final(self).spec_capacity() == old(self).spec_capacity(),
            final(self).spec_window() == old(self).spec_window(),
            admitted == old(self).spec_admits(now_ns as int, cost as int),
            admitted ==> {
                let t = if now_ns as int > old(self).spec_last_ns() {
                    now_ns as int
                } else {
                    old(self).spec_last_ns()
                };
                &&& final(self).spec_last_ns() == t
                &&& final(self).history() == old(self).history().push((t, cost as int))
                &&& final(self).level_v(t) == old(self).level_v(now_ns as int) + cost as int
                    * old(self).spec_window()
            },
            !admitted ==> *final(self) == *old(self),
    {
        let c = self.capacity as u128;
        let w = self.window_ns as u128;
        let eff_now = if now_ns > self.last_ns {
            now_ns
        } else {
            self.last_ns
        };
        proof {
            lemma_mul_upper_bound(
                eff_now as int,
                u64::MAX as int,
                c as int,
                u32::MAX as int,
            );
            lemma_mul_upper_bound(cost as int, u32::MAX as int, w as int, u64::MAX as int);
            lemma_mul_upper_bound(c as int, u32::MAX as int, w as int, u64::MAX as int);
        }
        let now_v = eff_now as u128 * c;
        let inc = cost as u128 * w;
        let tat0 = if self.tat_v > now_v {
            self.tat_v
        } else {
            now_v
        };
        proof {
            lemma_mul_upper_bound(
                self.last_ns as int,
                u64::MAX as int,
                c as int,
                u32::MAX as int,
            );
        }
        if tat0 + inc <= now_v + c * w {
            let ghost t = eff_now as int;
            self.tat_v = tat0 + inc;
            self.last_ns = eff_now;
            proof {
                self.hist@ = self.hist@.push((t, cost as int));
            }
            proof {
                self.lemma_consume_preserves_inv(*old(self), t, cost as int);
            }
            true
        } else {
            proof {
                lemma_mul_inequality(
                    self.last_ns as int,
                    eff_now as int,
                    self.spec_capacity(),
                );
            }
            false
        }
    }

    /// The invariant survives an admitted consume.
    proof fn lemma_consume_preserves_inv(&self, prev: RateLimiter, t: int, cost: int)
        requires
            prev.inv(),
            cost >= 0,
            t >= prev.last_ns as int,
            t <= u64::MAX as int,
            self.capacity == prev.capacity,
            self.window_ns == prev.window_ns,
            self.last_ns as int == t,
            self.hist@ == prev.hist@.push((t, cost)),
            self.tat_v as int == (if prev.tat_v as int > t * prev.spec_capacity() {
                prev.tat_v as int
            } else {
                t * prev.spec_capacity()
            }) + cost * prev.spec_window(),
            self.tat_v as int <= t * prev.spec_capacity() + prev.spec_capacity()
                * prev.spec_window(),
        ensures
            self.inv(),
    {
        let ccap = self.spec_capacity();
        let w = self.spec_window();
        let tat = prev.tat_v as int;
        let tat0 = if tat > t * ccap {
            tat
        } else {
            t * ccap
        };
        assert forall|s: int| 0 <= s <= t implies w * #[trigger] consumed_since(self.hist@, s)
            <= max0(self.tat_v as int - s * ccap) by {
            lemma_consumed_since_push(prev.hist@, s, (t, cost));
            lemma_mul_inequality(s, t, ccap);
            let cs = consumed_since(prev.hist@, s);
            assert(w * (cs + cost) == w * cs + w * cost) by (nonlinear_arith);
            assert(w * cost == cost * w) by (nonlinear_arith);
            if s <= prev.last_ns as int {
                assert(w * cs <= max0(tat - s * ccap));
            } else {
                lemma_consumed_since_none_after(prev.hist@, s);
            }
        }
    }

    /// Spend `cost` units or learn the refusal, as a result: the shape the
    /// sleep-and-retry loop consumes.
    pub fn check_and_consume(&mut self, now_ns: u64, cost: u32) -> (r: Result<(), ()>)
        requires
            old(self).inv(),
        ensures
            final(self).inv(),
            final(self).spec_capacity() == old(self).spec_capacity(),
            final(self).spec_window() == old(self).spec_window(),
            r is Ok <==> old(self).spec_admits(now_ns as int, cost as int),
            r is Err ==> *final(self) == *old(self),
    {
        if self.try_consume(now_ns, cost) {
            Ok(())
        } else {
            Err(())
        }
    }

    /// Law: no interval is ever overdrawn.  For any instant `s` not past
    /// the latest arrival, the cost admitted after `s`, scaled by the
    /// window, is at most one full budget plus what replenishment returns
    /// between `s` and the latest arrival.  In particular a single instant
    /// admits at most `capacity`, and an interval one window long admits at
    /// most twice the capacity.
    pub proof fn lemma_window_budget(&self, s: int)
        requires
            self.inv(),
            0 <= s <= self.spec_last_ns(),
        ensures
            self.spec_window() * consumed_since(self.history(), s) <= self.spec_capacity()
                * self.spec_window() + (self.spec_last_ns() - s) * self.spec_capacity(),
    {
        lemma_mul_inequality(s, self.spec_last_ns(), self.spec_capacity());
        assert(self.spec_window() * consumed_since(self.hist@, s) <= max0(
            self.tat_v as int - s * self.spec_capacity(),
        ));
        assert((self.spec_last_ns() - s) * self.spec_capacity() == self.spec_last_ns()
            * self.spec_capacity() - s * self.spec_capacity()) by (nonlinear_arith);
    }

    /// Law: an interval of one window length admits at most twice the
    /// capacity: a full budget of burst, plus the budget the window
    /// replenishes while the interval passes.
    pub proof fn lemma_one_window_cost(&self, s: int)
        requires
            self.inv(),
            0 <= s <= self.spec_last_ns(),
            self.spec_last_ns() - s <= self.spec_window(),
        ensures
            consumed_since(self.history(), s) <= 2 * self.spec_capacity(),
    {
        self.lemma_window_budget(s);
        lemma_mul_inequality(self.spec_last_ns() - s, self.spec_window(), self.spec_capacity());
        assert(consumed_since(self.history(), s) <= 2 * self.spec_capacity()) by (nonlinear_arith)
            requires
                self.spec_window() * consumed_since(self.history(), s) <= self.spec_capacity()
                    * self.spec_window() + self.spec_window() * self.spec_capacity(),
                self.spec_window() >= 1,
        ;
    }

    /// Law: replenishment is exactly linear in elapsed time.  Once the
    /// clock has passed the latest arrival, the outstanding level falls by
    /// `capacity` per nanosecond and by nothing else, so a denied cost `c`
    /// is admitted exactly from the instant at which the level has fallen
    /// to `(capacity - c) * window`.
    pub proof fn lemma_level_replenishes(&self, t1: int, t2: int)
        requires
            self.inv(),
            self.spec_last_ns() <= t1 <= t2,
        ensures
            self.level_v(t2) == max0(self.level_v(t1) - (t2 - t1) * self.spec_capacity()),
            forall|cost: int| #[trigger]
                self.spec_admits(t1, cost) ==> self.spec_admits(t2, cost),
    {
        let ccap = self.spec_capacity();
        assert(t2 * ccap - t1 * ccap == (t2 - t1) * ccap) by (nonlinear_arith);
        lemma_mul_inequality(t1, t2, ccap);
    }
}

} // verus!
