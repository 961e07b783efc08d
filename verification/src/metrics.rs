//! Counters of the query path: cache hits and misses, the queries seen
//! within a sliding window (for the rate of queries), and the bounded list
//! of recent query times. Times are milliseconds.

use std::collections::VecDeque;
use vstd::prelude::*;

verus! {

/// Cache hits and misses; the counters wrap at 64 bits.
#[derive(Clone, Copy, Debug)]
pub struct CacheStats {
    pub hits: u64,
    pub misses: u64,
}

impl CacheStats {
    /// No hits and no misses.
    pub fn new() -> (s: CacheStats)
        ensures
            s.hits == 0 && s.misses == 0,
    {
        CacheStats { hits: 0, misses: 0 }
    }

    /// Counts a hit.
    pub fn record_hit(&mut self)
        ensures
            final(self).hits == old(self).hits.wrapping_add(1),
            final(self).misses == old(self).misses,
    {
        self.hits = self.hits.wrapping_add(1);
    }

    /// Counts a miss.
    pub fn record_miss(&mut self)
        ensures
            final(self).misses == old(self).misses.wrapping_add(1),
            final(self).hits == old(self).hits,
    {
        self.misses = self.misses.wrapping_add(1);
    }

    /// The lookups counted, hits and misses together (wrapping at 64 bits).
    pub fn total(&self) -> (t: u64)
        ensures
            t == self.hits.wrapping_add(self.misses),
    {
        self.hits.wrapping_add(self.misses)
    }
}

/// The queries seen within a sliding window.
#[derive(Debug)]
pub struct QpsCalculator {
    query_times: VecDeque<u64>,
    window_ms: u64,
}

/// `times` less its leading entries earlier than `cutoff`.
pub open spec fn drop_before(times: Seq<u64>, cutoff: u64) -> Seq<u64>
    decreases times.len(),
{
    if times.len() > 0 && times[0] < cutoff {
        drop_before(times.drop_first(), cutoff)
    } else {
        times
    }
}

/// The start of the window that ends at `now`.
pub open spec fn window_start(now: u64, window: u64) -> u64 {
    if now >= window {
        (now - window) as u64
    } else {
        0
    }
}

/// Whether `times` never goes back.
pub open spec fn nondecreasing(times: Seq<u64>) -> bool {
    forall|i: int, j: int| 0 <= i <= j < times.len() ==> times[i] <= times[j]
}

impl QpsCalculator {
    /// The times of the queries in the window, oldest first.
    pub closed spec fn times(&self) -> Seq<u64> {
        self.query_times@
    }

    /// The length of the window.
    pub closed spec fn window(&self) -> u64 {
        self.window_ms
    }

    /// An empty window of `window_ms`.
    pub fn new(window_ms: u64) -> (q: QpsCalculator)
        ensures
            q.times().len() == 0,
            q.window() == window_ms,
    {
        QpsCalculator { query_times: VecDeque::new(), window_ms }
    }

    /// Records a query at `now`, then drops the queries older than the
    /// window that ends at `now`.
    pub fn record_query(&mut self, now: u64)
        ensures
            final(self).times() == drop_before(old(self).times().push(now), window_start(now, old(self).window())),
            final(self).window() == old(self).window(),
    {
        self.query_times.push_back(now);
        let cutoff = if now >= self.window_ms { now - self.window_ms } else { 0 };
        let ghost all = self.query_times@;
        loop
            invariant
                all == old(self).query_times@.push(now),
                cutoff == window_start(now, old(self).window_ms),
                drop_before(all, cutoff) == drop_before(self.query_times@, cutoff),
                self.window_ms == old(self).window_ms,
            ensures
                drop_before(all, cutoff) == self.query_times@,
                self.window_ms == old(self).window_ms,
            decreases self.query_times@.len(),
        {
            if self.query_times.len() == 0 {
                break;
            }
            let front = self.query_times[0];
            if front < cutoff {
                let ghost before = self.query_times@;
                self.query_times.pop_front();
                proof {
                    assert(self.query_times@ =~= before.drop_first());
                }
            } else {
                break;
            }
        }
    }

    /// The number of queries in the window.
    pub fn count(&self) -> (n: usize)
        ensures
            n == self.times().len(),
    {
        self.query_times.len()
    }
}

/// The window keeps only what it should: when queries are recorded in time
/// order, after a query at `now` every time kept lies within the window that
/// ends at `now`.
pub proof fn lemma_window_holds_recent_queries(times: Seq<u64>, now: u64, window: u64)
    requires
        nondecreasing(times.push(now)),
    ensures
        forall|i: int|
            0 <= i < drop_before(times.push(now), window_start(now, window)).len() ==> #[trigger] drop_before(
                times.push(now),
                window_start(now, window),
            )[i] >= window_start(now, window),
{
    lemma_drop_before_sorted(times.push(now), window_start(now, window));
}

proof fn lemma_drop_before_sorted(times: Seq<u64>, cutoff: u64)
    requires
        nondecreasing(times),
    ensures
        forall|i: int| 0 <= i < drop_before(times, cutoff).len() ==> #[trigger] drop_before(times, cutoff)[i] >= cutoff,
    decreases times.len(),
{
    if times.len() > 0 && times[0] < cutoff {
        assert forall|i: int, j: int| 0 <= i <= j < times.drop_first().len() implies times.drop_first()[i]
            <= times.drop_first()[j] by {
            assert(times[i + 1] <= times[j + 1]);
        }
        assert(nondecreasing(times.drop_first()));
        lemma_drop_before_sorted(times.drop_first(), cutoff);
        assert(drop_before(times, cutoff) == drop_before(times.drop_first(), cutoff));
    } else if times.len() > 0 {
        assert(drop_before(times, cutoff) == times);
        assert forall|i: int| 0 <= i < times.len() implies #[trigger] times[i] >= cutoff by {
            assert(times[0] <= times[i]);
        }
    }
}

/// The last `max_samples` query times at most, oldest first; the times
/// themselves are of the caller's type.
#[derive(Debug)]
pub struct QueryTimeStats<T> {
    times: VecDeque<T>,
    max_samples: usize,
}

/// `s` less its first entry, when it has one.
pub open spec fn without_oldest<T>(s: Seq<T>) -> Seq<T> {
    if s.len() > 0 {
        s.subrange(1, s.len() as int)
    } else {
        s
    }
}

impl<T> QueryTimeStats<T> {
    /// The samples, oldest first.
    pub closed spec fn samples(&self) -> Seq<T> {
        self.times@
    }

    /// How many samples are kept at most.
    pub closed spec fn capacity(&self) -> nat {
        self.max_samples as nat
    }

    /// No samples, keeping at most `max_samples`.
    pub fn new(max_samples: usize) -> (s: Self)
        ensures
            s.samples().len() == 0,
            s.capacity() == max_samples,
    {
        QueryTimeStats { times: VecDeque::new(), max_samples }
    }

    /// Adds `time` as the newest sample, first dropping the oldest when the
    /// samples are at capacity.
    pub fn add_time(&mut self, time: T)
        ensures
            final(self).capacity() == old(self).capacity(),
            final(self).samples() == if old(self).samples().len() >= old(self).capacity() {
                without_oldest(old(self).samples()).push(time)
            } else {
                old(self).samples().push(time)
            },
    {
        if self.times.len() >= self.max_samples {
            let ghost s0 = self.times@;
            let _ = self.times.pop_front();
            proof {
                if s0.len() > 0 {
                    assert(self.times@ =~= s0.subrange(1, s0.len() as int));
                } else {
                    assert(self.times@ =~= s0);
                }
            }
        }
        self.times.push_back(time);
    }

    /// The samples, oldest first.
    pub fn times(&self) -> (r: &VecDeque<T>)
        ensures
            r@ == self.samples(),
    {
        &self.times
    }

    /// The number of samples.
    pub fn len(&self) -> (n: usize)
        ensures
            n == self.samples().len(),
    {
        self.times.len()
    }

    /// Drops every sample.
    pub fn clear(&mut self)
        ensures
            final(self).samples().len() == 0,
            final(self).capacity() == old(self).capacity(),
    {
        self.times.clear();
    }
}

} // verus!
