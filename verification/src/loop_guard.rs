//! Detects self-inflicted watch loops.
//!
//! A step that rewrites watched files is re-detected by the watcher, which
//! restarts the pipeline, which rewrites the files again. The guard counts
//! restart events within a sliding window and trips once they reach a
//! threshold. Times are nanoseconds on a monotonic clock; the window is a
//! span in the same unit.
use std::collections::VecDeque;
use vstd::prelude::*;

verus! {

broadcast use vstd::std_specs::vecdeque::group_vec_dequeue_axioms;

/// Sliding-window counter over recent pipeline restarts.
pub struct LoopGuard {
    starts: VecDeque<u64>,
    window: u64,
    threshold: usize,
}

/// Time elapsed from `earlier` to `now`; zero when `earlier` is later
/// (`Instant::duration_since` saturates).
pub open spec fn elapsed(now: u64, earlier: u64) -> nat {
    if now >= earlier {
        (now - earlier) as nat
    } else {
        0
    }
}

/// Drops, from the front, the restarts older than `window` at `now`,
/// stopping at the first one that is not.
pub open spec fn evict(starts: Seq<u64>, now: u64, window: u64) -> Seq<u64>
    decreases starts.len(),
{
    if starts.len() > 0 && elapsed(now, starts[0]) > window {
        evict(starts.drop_first(), now, window)
    } else {
        starts
    }
}

/// One `record(now)` step on the remembered restart times.
pub open spec fn record_step(starts: Seq<u64>, now: u64, window: u64) -> Seq<u64> {
    evict(starts.push(now), now, window)
}

/// The remembered restart times after recording `times`, in order, on a
/// fresh (or reset) guard.
pub open spec fn guard_after(times: Seq<u64>, window: u64) -> Seq<u64>
    decreases times.len(),
{
    if times.len() == 0 {
        seq![]
    } else {
        record_step(guard_after(times.drop_last(), window), times.last(), window)
    }
}

/// How many of `times` lie within `window` of `now`.
pub open spec fn within_count(times: Seq<u64>, now: u64, window: u64) -> nat
    decreases times.len(),
{
    if times.len() == 0 {
        0
    } else {
        within_count(times.drop_last(), now, window) + if elapsed(now, times.last()) <= window {
            1nat
        } else {
            0nat
        }
    }
}

pub open spec fn nondecreasing(times: Seq<u64>) -> bool {
    forall|i: int, j: int| 0 <= i <= j < times.len() ==> times[i] <= times[j]
}

impl LoopGuard {
    pub closed spec fn starts(&self) -> Seq<u64> {
        self.starts@
    }

    pub closed spec fn window(&self) -> u64 {
        self.window
    }

    pub closed spec fn threshold(&self) -> usize {
        self.threshold
    }

    /// A guard with no history.
    pub fn new(window: u64, threshold: usize) -> (g: Self)
        ensures
            g.starts() == Seq::<u64>::empty(),
            g.window() == window,
            g.threshold() == threshold,
    {
        LoopGuard { starts: VecDeque::new(), window, threshold }
    }

    /// Records a file-change-triggered restart at `now`, forgets restarts
    /// older than the window, and returns whether the restarts left in the
    /// window have reached the threshold (a loop is suspected).
    pub fn record(&mut self, now: u64) -> (tripped: bool)
        ensures
            final(self).starts() == record_step(old(self).starts(), now, old(self).window()),
            final(self).window() == old(self).window(),
            final(self).threshold() == old(self).threshold(),
            tripped == (final(self).starts().len() >= final(self).threshold()),
    {
        self.starts.push_back(now);
        while self.starts.len() > 0 && self.evictable(now)
            invariant
                self.window == old(self).window,
                self.threshold == old(self).threshold,
                record_step(old(self).starts@, now, self.window) == evict(
                    self.starts@,
                    now,
                    self.window,
                ),
            decreases self.starts@.len(),
        {
            let _ = self.starts.pop_front();
        }
        self.starts.len() >= self.threshold
    }

    /// Whether the oldest remembered restart is older than the window.
    fn evictable(&self, now: u64) -> (b: bool)
        requires
            self.starts@.len() > 0,
        ensures
            b == (elapsed(now, self.starts@[0]) > self.window),
    {
        let front = self.starts[0];
        let age: u64 = if now >= front {
            now - front
        } else {
            0
        };
        age > self.window
    }

    /// Clears history after a warning so the next trip needs a fresh burst.
    pub fn reset(&mut self)
        ensures
            final(self).starts() == Seq::<u64>::empty(),
            final(self).window() == old(self).window(),
            final(self).threshold() == old(self).threshold(),
    {
        self.starts.clear();
    }
}

// ── Laws ────────────────────────────────────────────────────────────────────

proof fn lemma_evict_suffix(s: Seq<u64>, now: u64, window: u64)
    ensures
        exists|j: int|
            0 <= j <= s.len() && #[trigger] s.skip(j) == evict(s, now, window) && (forall|i: int|
                0 <= i < j ==> elapsed(now, s[i]) > window) && (j < s.len() ==> elapsed(
                now,
                s[j],
            ) <= window),
    decreases s.len(),
{
    if s.len() > 0 && elapsed(now, s[0]) > window {
        lemma_evict_suffix(s.drop_first(), now, window);
        let j = choose|j: int|
            0 <= j <= s.drop_first().len() && #[trigger] s.drop_first().skip(j) == evict(
                s.drop_first(),
                now,
                window,
            ) && (forall|i: int| 0 <= i < j ==> elapsed(now, s.drop_first()[i]) > window) && (j
                < s.drop_first().len() ==> elapsed(now, s.drop_first()[j]) <= window);
        assert(s.skip(j + 1) =~= s.drop_first().skip(j));
        assert forall|i: int| 0 <= i < j + 1 implies elapsed(now, s[i]) > window by {
            if i > 0 {
                assert(s[i] == s.drop_first()[i - 1]);
            }
        }
        if j + 1 < s.len() {
            assert(s[j + 1] == s.drop_first()[j]);
        }
    } else {
        assert(s.skip(0) =~= s);
    }
}

proof fn lemma_within_count_split(times: Seq<u64>, j: int, now: u64, window: u64)
    requires
        0 <= j <= times.len(),
        forall|i: int| 0 <= i < j ==> elapsed(now, times[i]) > window,
        forall|i: int| j <= i < times.len() ==> elapsed(now, times[i]) <= window,
    ensures
        within_count(times, now, window) == times.len() - j,
    decreases times.len(),
{
    if times.len() > 0 {
        if j == times.len() {
            lemma_within_count_split(times.drop_last(), j - 1, now, window);
        } else {
            lemma_within_count_split(times.drop_last(), j, now, window);
        }
    }
}

/// For restart times that never go backwards, the guard remembers exactly
/// the restarts recorded since it was new (or reset) that lie within the
/// window of the latest one: a suffix of the history holding
/// `within_count` of them. So `record` agrees with the naive sliding-window
/// model: it trips exactly when that many restarts reach the threshold.
pub proof fn law_record_matches_sliding_window(times: Seq<u64>, window: u64)
    requires
        times.len() > 0,
        nondecreasing(times),
    ensures
        guard_after(times, window).len() == within_count(times, times.last(), window),
        exists|j: int|
            0 <= j <= times.len() && #[trigger] times.skip(j) == guard_after(times, window),
{
    lemma_guard_after_window(times, window);
    let j = choose|j: int|
        0 <= j <= times.len() && #[trigger] times.skip(j) == guard_after(times, window) && (forall|
            i: int,
        |
            0 <= i < j ==> elapsed(times.last(), times[i]) > window) && (forall|i: int|
            j <= i < times.len() ==> elapsed(times.last(), times[i]) <= window);
    lemma_within_count_split(times, j, times.last(), window);
}

proof fn lemma_guard_after_window(times: Seq<u64>, window: u64)
    requires
        times.len() > 0,
        nondecreasing(times),
    ensures
        exists|j: int|
            0 <= j <= times.len() && #[trigger] times.skip(j) == guard_after(times, window) && (
            forall|i: int| 0 <= i < j ==> elapsed(times.last(), times[i]) > window) && (forall|
                i: int,
            |
                j <= i < times.len() ==> elapsed(times.last(), times[i]) <= window),
    decreases times.len(),
{
    let now = times.last();
    let prev = times.drop_last();
    let n = times.len() as int;
    // The times before the last are remembered as a suffix `prev.skip(j0)`.
    let j0: int = if prev.len() == 0 {
        0
    } else {
        lemma_guard_after_window(prev, window);
        choose|j: int|
            0 <= j <= prev.len() && #[trigger] prev.skip(j) == guard_after(prev, window) && (
            forall|i: int| 0 <= i < j ==> elapsed(prev.last(), prev[i]) > window) && (forall|
                i: int,
            |
                j <= i < prev.len() ==> elapsed(prev.last(), prev[i]) <= window)
    };
    if prev.len() == 0 {
        assert(guard_after(prev, window) =~= prev.skip(0));
    }
    let pushed = guard_after(prev, window).push(now);
    assert(pushed =~= times.skip(j0));
    lemma_evict_suffix(pushed, now, window);
    let k = choose|k: int|
        0 <= k <= pushed.len() && #[trigger] pushed.skip(k) == evict(pushed, now, window) && (
        forall|i: int| 0 <= i < k ==> elapsed(now, pushed[i]) > window) && (k < pushed.len()
            ==> elapsed(now, pushed[k]) <= window);
    let j = j0 + k;
    assert(times.skip(j) =~= pushed.skip(k));
    assert forall|i: int| 0 <= i < j implies elapsed(now, times[i]) > window by {
        if i < j0 {
            assert(elapsed(prev.last(), prev[i]) > window);
            assert(times[i] <= prev.last() <= now) by {
                assert(prev.last() == times[n - 2]);
                assert(prev[i] == times[i]);
            }
        } else {
            assert(pushed[i - j0] == times[i]);
        }
    }
    assert forall|i: int| j <= i < times.len() implies elapsed(now, times[i]) <= window by {
        assert(pushed[k] == times[j]);
        assert(times[j] <= times[i]);
    }
}

/// Fewer restarts than the threshold can never trip the guard, whatever
/// their spacing: the guard never remembers more restarts than were
/// recorded.
pub proof fn law_never_trips_below_threshold(times: Seq<u64>, window: u64)
    ensures
        guard_after(times, window).len() <= times.len(),
    decreases times.len(),
{
    if times.len() > 0 {
        law_never_trips_below_threshold(times.drop_last(), window);
        lemma_evict_suffix(guard_after(times.drop_last(), window).push(times.last()), times.last(), window);
    }
}

/// Right after a reset, one restart is remembered alone: the next record
/// trips exactly when a single restart reaches the threshold.
pub proof fn law_reset_forgets_history(now: u64, window: u64)
    ensures
        record_step(Seq::<u64>::empty(), now, window) == seq![now],
{
    assert(Seq::<u64>::empty().push(now) =~= seq![now]);
    assert(elapsed(now, now) == 0);
}

} // verus!
