//! The speed of the platter, estimated from the time between transitions.
//!
//! Every zero crossing of either channel is a transition: a quarter of a cycle
//! of the carrier. The samples that pass between one transition and the next
//! are an interval; it counts as positive when the platter moves forwards and
//! as negative when it moves backwards. The estimate is an average over the
//! last few intervals, which evens out the jitter of single crossings.

use vstd::prelude::*;

verus! {

/// Number of intervals that the estimate averages over.
pub const WINDOW: usize = 16;

/// The longest interval that is told apart: longer ones count as this long.
pub const MAX_SPAN: u32 = 0xffff_ffff;

/// +1 for an interval forwards, -1 for one backwards.
pub open spec fn direction_of(interval: int) -> int {
    if interval > 0 {
        1
    } else if interval < 0 {
        -1
    } else {
        0
    }
}

/// The samples that an interval lasted.
pub open spec fn magnitude_of(interval: int) -> int {
    if interval < 0 {
        -interval
    } else {
        interval
    }
}

/// Transitions forwards less transitions backwards.
pub open spec fn net_of(intervals: Seq<int>) -> int
    decreases intervals.len(),
{
    if intervals.len() == 0 {
        0
    } else {
        net_of(intervals.drop_last()) + direction_of(intervals.last())
    }
}

/// The samples that all intervals lasted together.
pub open spec fn span_of(intervals: Seq<int>) -> int
    decreases intervals.len(),
{
    if intervals.len() == 0 {
        0
    } else {
        span_of(intervals.drop_last()) + magnitude_of(intervals.last())
    }
}

/// The window after a new interval has come in: once it is full, the oldest
/// interval leaves.
pub open spec fn slide(intervals: Seq<int>, interval: int) -> Seq<int> {
    if intervals.len() < WINDOW {
        intervals.push(interval)
    } else {
        intervals.subrange(1, intervals.len() as int).push(interval)
    }
}

/// An interval lasts at least one sample and at most `MAX_SPAN`.
pub open spec fn admissible(interval: int) -> bool {
    1 <= magnitude_of(interval) <= MAX_SPAN
}

/// A window holds at most `WINDOW` intervals, each of them admissible.
pub open spec fn admissible_window(intervals: Seq<int>) -> bool {
    &&& intervals.len() <= WINDOW
    &&& forall|k: int| 0 <= k < intervals.len() ==> admissible(#[trigger] intervals[k])
}

/// In an admissible window there are no more transitions than samples.
pub proof fn lemma_totals_bounded(intervals: Seq<int>)
    requires
        admissible_window(intervals),
    ensures
        -(intervals.len() as int) <= net_of(intervals) <= intervals.len(),
        intervals.len() <= span_of(intervals) <= intervals.len() * MAX_SPAN,
    decreases intervals.len(),
{
    if intervals.len() > 0 {
        assert(admissible(intervals.last()));
        lemma_totals_bounded(intervals.drop_last());
        assert(intervals.len() * MAX_SPAN == intervals.drop_last().len() * MAX_SPAN + MAX_SPAN)
            by (nonlinear_arith)
            requires
                intervals.len() == intervals.drop_last().len() + 1,
        ;
    }
}

/// A window stays admissible when an admissible interval comes in.
pub proof fn lemma_slide_admissible(intervals: Seq<int>, interval: int)
    requires
        admissible_window(intervals),
        admissible(interval),
    ensures
        admissible_window(slide(intervals, interval)),
{
    let next = slide(intervals, interval);
    assert forall|k: int| 0 <= k < next.len() implies admissible(#[trigger] next[k]) by {
        if intervals.len() < WINDOW {
            if k < intervals.len() {
                assert(next[k] == intervals[k]);
            }
        } else {
            if k < next.len() - 1 {
                assert(next[k] == intervals[k + 1]);
            }
        }
    }
}

/// At a steady speed the totals are exact: where every interval of the window
/// is the same, the net count is the number of intervals, with the sign of the
/// direction, and the span is that number of times the interval.
pub proof fn lemma_steady_totals(intervals: Seq<int>, interval: int)
    requires
        forall|k: int| 0 <= k < intervals.len() ==> #[trigger] intervals[k] == interval,
    ensures
        net_of(intervals) == intervals.len() * direction_of(interval),
        span_of(intervals) == intervals.len() * magnitude_of(interval),
    decreases intervals.len(),
{
    if intervals.len() > 0 {
        let rest = intervals.drop_last();
        lemma_steady_totals(rest, interval);
        assert(intervals.last() == interval);
        assert(intervals.len() * direction_of(interval) == rest.len() * direction_of(interval)
            + direction_of(interval)) by (nonlinear_arith)
            requires
                intervals.len() == rest.len() + 1,
        ;
        assert(intervals.len() * magnitude_of(interval) == rest.len() * magnitude_of(interval)
            + magnitude_of(interval)) by (nonlinear_arith)
            requires
                intervals.len() == rest.len() + 1,
        ;
    }
}

/// The last intervals, oldest first.
pub struct Intervals {
    ring: Vec<i64>,
    start: usize,
    filled: usize,
}

impl View for Intervals {
    type V = Seq<int>;

    closed spec fn view(&self) -> Seq<int> {
        Seq::new(self.filled as nat, |k: int| self.ring@[(self.start + k) % (WINDOW as int)] as int)
    }
}

impl Intervals {
    /// The ring that holds the intervals is intact.
    pub closed spec fn ring_intact(&self) -> bool {
        &&& self.ring@.len() == WINDOW
        &&& self.start < WINDOW
        &&& self.filled <= WINDOW
        &&& self.filled < WINDOW ==> self.start == 0
    }

    /// The window is valid.
    pub open spec fn wf(&self) -> bool {
        self.ring_intact() && admissible_window(self@)
    }

    /// A window without intervals.
    pub fn new() -> (window: Intervals)
        ensures
            window.wf(),
            window@ == Seq::<int>::empty(),
    {
        let mut ring: Vec<i64> = Vec::new();
        while ring.len() < WINDOW
            invariant
                ring@.len() <= WINDOW,
            decreases WINDOW - ring@.len(),
        {
            ring.push(0);
        }
        let window = Intervals { ring, start: 0, filled: 0 };
        assert(window@ =~= Seq::<int>::empty());
        window
    }

    /// Takes a new interval into the window.
    pub fn record(&mut self, interval: i64)
        requires
            old(self).wf(),
            admissible(interval as int),
        ensures
            final(self).wf(),
            final(self)@ == slide(old(self)@, interval as int),
    {
        if self.filled < WINDOW {
            let at = self.filled;
            self.ring[at] = interval;
            self.filled = at + 1;
        } else {
            let at = self.start;
            self.ring[at] = interval;
            self.start = if at + 1 == WINDOW {
                0
            } else {
                at + 1
            };
        }
        proof {
            let was = old(self)@;
            let now = self@;
            let want = slide(was, interval as int);
            assert(now.len() == want.len());
            assert forall|k: int| 0 <= k < now.len() implies now[k] == want[k] by {
                if old(self).filled < WINDOW {
                    if k < was.len() {
                        assert(was[k] == old(self).ring@[k]);
                    }
                } else {
                    if k < WINDOW - 1 {
                        assert(want[k] == was[k + 1]);
                        assert((self.start + k) % (WINDOW as int) == (old(self).start + (k + 1)) % (
                        WINDOW as int));
                    }
                }
            }
            assert(now =~= want);
            assert forall|k: int| 0 <= k < want.len() implies admissible(#[trigger] want[k]) by {
                if old(self).filled < WINDOW {
                    if k < was.len() {
                        assert(want[k] == was[k]);
                    }
                } else {
                    if k < WINDOW - 1 {
                        assert(want[k] == was[k + 1]);
                    }
                }
            }
        }
    }

    /// Transitions forwards less transitions backwards, and the samples that
    /// the intervals of the window lasted together.
    pub fn totals(&self) -> (sums: (i32, u64))
        requires
            self.wf(),
        ensures
            sums.0 == net_of(self@),
            sums.1 == span_of(self@),
    {
        let mut net: i32 = 0;
        let mut span: u64 = 0;
        let mut k: usize = 0;
        let mut at: usize = self.start;
        while k < self.filled
            invariant
                self.wf(),
                k <= self.filled,
                at < WINDOW,
                at == (self.start + k) % (WINDOW as int),
                net == net_of(self@.take(k as int)),
                span == span_of(self@.take(k as int)),
                -(k as int) <= net <= k,
                span <= k * MAX_SPAN,
            decreases self.filled - k,
        {
            let interval = self.ring[at];
            proof {
                let seen = self@.take(k as int + 1);
                assert(seen.drop_last() =~= self@.take(k as int));
                assert(seen.last() == interval as int);
                assert(admissible(self@[k as int]));
                assert((k + 1) * MAX_SPAN == k * MAX_SPAN + MAX_SPAN) by (nonlinear_arith);
                assert(k * MAX_SPAN <= 15 * MAX_SPAN) by (nonlinear_arith)
                    requires
                        k <= 15,
                ;
            }
            if interval > 0 {
                net += 1;
                span += interval as u64;
            } else {
                net -= 1;
                span += (-interval) as u64;
            }
            k += 1;
            at = if at + 1 == WINDOW {
                0
            } else {
                at + 1
            };
        }
        proof {
            assert(self@.take(self.filled as int) =~= self@);
        }
        (net, span)
    }
}

/// A speed as a fraction of the nominal speed: `num / den`, negative for a
/// platter that moves backwards.
#[derive(Debug, Clone, Copy, PartialEq, Eq, Structural)]
pub struct Pitch {
    /// Numerator of the fraction.
    pub num: i64,
    /// Denominator of the fraction, never zero.
    pub den: u128,
}

} // verus!
