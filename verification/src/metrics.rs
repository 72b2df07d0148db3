//! Counters and waiting times of a running service.
use vstd::prelude::*;

use crate::sort::{lemma_sorted_members, sort_numbers};

verus! {

/// How many of the last times are kept.
pub const LATENCY_SAMPLE_LIMIT: usize = 1024;

#[derive(Clone, Debug)]
pub struct RuntimeMetricsSnapshot {
    pub uptime_seconds: u64,
    pub cache: CacheMetricsSnapshot,
    pub queue: LatencySnapshot,
    pub conversions: ConversionMetricsSnapshot,
    pub workers: WorkerMetricsSnapshot,
}

#[derive(Clone, Copy, Debug, PartialEq, Eq, Structural)]
pub struct CacheMetricsSnapshot {
    pub hits: u64,
    pub misses: u64,
    /// The hits and the misses together: what the rate of hits is taken of.
    pub lookups: u64,
    pub files: u64,
    pub bytes: u64,
    pub max_bytes: u64,
    pub evictions: u64,
    pub evicted_bytes: u64,
}

#[derive(Clone, Copy, Debug, PartialEq, Eq, Structural)]
pub struct LatencySnapshot {
    pub samples: u64,
    pub average_ms: u64,
    pub p50_ms: u64,
    pub p95_ms: u64,
    pub max_ms: u64,
}

#[derive(Clone, Copy, Debug, PartialEq, Eq, Structural)]
pub struct ConversionMetricsSnapshot {
    pub started: u64,
    pub succeeded: u64,
    pub failed: u64,
    pub duration: LatencySnapshot,
}

#[derive(Clone, Copy, Debug, PartialEq, Eq, Structural)]
pub struct WorkerMetricsSnapshot {
    pub requests: u64,
    pub restarts: u64,
}

// ---------------------------------------------------------------------------
// Times
// ---------------------------------------------------------------------------
/// The last times, in milliseconds.
#[derive(Debug)]
pub struct LatencySamples {
    values: Vec<u64>,
}

impl View for LatencySamples {
    type V = Seq<u64>;

    closed spec fn view(&self) -> Seq<u64> {
        self.values@
    }
}

/// The times once one more is kept: the oldest goes where there are too many.
pub open spec fn recorded(v: Seq<u64>, millis: int) -> Seq<u64> {
    let m = if millis > u64::MAX {
        u64::MAX
    } else {
        millis as u64
    };
    if v.len() == LATENCY_SAMPLE_LIMIT {
        v.skip(1).push(m)
    } else {
        v.push(m)
    }
}

pub open spec fn sum_upto(v: Seq<u64>, n: int) -> int
    decreases n,
{
    if n <= 0 {
        0
    } else {
        sum_upto(v, n - 1) + v[n - 1]
    }
}

/// The place of a percentile in a sorted list of `n` numbers.
pub open spec fn percentile_place(n: int, percent: int) -> int {
    let product = if n * percent > usize::MAX {
        usize::MAX as int
    } else {
        n * percent
    };
    let up = (product + 99) / 100;
    let place = if up < 1 {
        0
    } else {
        up - 1
    };
    if place > n - 1 {
        n - 1
    } else {
        place
    }
}

/// A percentile of a sorted list; of an empty one it is zero.
pub open spec fn percentile_of(v: Seq<u64>, percent: int) -> u64 {
    if v.len() == 0 {
        0
    } else {
        v[percentile_place(v.len() as int, percent)]
    }
}

pub open spec fn in_order(v: Seq<u64>) -> bool {
    forall|i: int, j: int| 0 <= i < j < v.len() ==> v[i] <= v[j]
}

/// What is told of the times.
pub open spec fn tells(v: Seq<u64>, r: LatencySnapshot) -> bool {
    if v.len() == 0 {
        r == LatencySnapshot { samples: 0, average_ms: 0, p50_ms: 0, p95_ms: 0, max_ms: 0 }
    } else {
        exists|s: Seq<u64>| #[trigger]
            s.to_multiset() == v.to_multiset() && in_order(s) && r == (LatencySnapshot {
                samples: v.len() as u64,
                average_ms: (sum_upto(v, v.len() as int) / v.len() as int) as u64,
                p50_ms: percentile_of(s, 50),
                p95_ms: percentile_of(s, 95),
                max_ms: s.last(),
            })
    }
}

pub fn percentile(sorted: &[u64], percent: usize) -> (r: u64)
    ensures
        r == percentile_of(sorted@, percent as int),
{
    let n = sorted.len();
    if n == 0 {
        return 0;
    }
    assert(0 <= n * percent <= u128::MAX) by (nonlinear_arith)
        requires
            0 <= n <= u64::MAX,
            0 <= percent <= u64::MAX,
    ;
    let exact: u128 = n as u128 * percent as u128;
    let product: usize = if exact > usize::MAX as u128 { usize::MAX } else { exact as usize };
    let up: usize = if product % 100 == 0 { product / 100 } else { product / 100 + 1 };
    let place: usize = if up < 1 { 0 } else { up - 1 };
    let at: usize = if place > n - 1 { n - 1 } else { place };
    sorted[at]
}

proof fn lemma_sum_bound(v: Seq<u64>, n: int)
    requires
        0 <= n <= v.len(),
    ensures
        0 <= sum_upto(v, n) <= n * u64::MAX,
    decreases n,
{
    if n > 0 {
        lemma_sum_bound(v, n - 1);
    }
}

impl LatencySamples {
    pub fn new() -> (r: LatencySamples)
        ensures
            r@ == Seq::<u64>::empty(),
    {
        LatencySamples { values: Vec::new() }
    }

    pub fn record(&mut self, millis: u128)
        requires
            old(self)@.len() <= LATENCY_SAMPLE_LIMIT,
        ensures
            final(self)@ == recorded(old(self)@, millis as int),
            final(self)@.len() <= LATENCY_SAMPLE_LIMIT,
    {
        let m: u64 = if millis > u64::MAX as u128 { u64::MAX } else { millis as u64 };
        let ghost before = self.values@;
        if self.values.len() == LATENCY_SAMPLE_LIMIT {
            let _oldest = self.values.remove(0);
            assert(self.values@ =~= before.skip(1));
        }
        self.values.push(m);
    }

    pub fn snapshot(&self) -> (r: LatencySnapshot)
        requires
            self@.len() <= LATENCY_SAMPLE_LIMIT,
        ensures
            tells(self@, r),
    {
        let n = self.values.len();
        if n == 0 {
            return LatencySnapshot { samples: 0, average_ms: 0, p50_ms: 0, p95_ms: 0, max_ms: 0 };
        }
        let mut wide: Vec<u128> = Vec::new();
        let mut sum: u128 = 0;
        let mut i: usize = 0;
        while i < n
            invariant
                i <= n == self.values@.len(),
                n <= LATENCY_SAMPLE_LIMIT,
                wide@.len() == i,
                forall|j: int| 0 <= j < i ==> (#[trigger] wide@[j]) == self.values@[j],
                sum == sum_upto(self.values@, i as int),
            decreases n - i,
        {
            proof {
                lemma_sum_bound(self.values@, i as int);
            }
            wide.push(self.values[i] as u128);
            sum = sum + self.values[i] as u128;
            i = i + 1;
        }
        let ghost made = wide@;
        sort_numbers(&mut wide);
        proof {
            lemma_sorted_members(wide@, made);
            lemma_sum_bound(self.values@, n as int);
        }
        let mut sorted: Vec<u64> = Vec::new();
        let mut k: usize = 0;
        while k < n
            invariant
                k <= n == wide@.len() == made.len(),
                forall|x: u128| #[trigger] wide@.contains(x) <==> made.contains(x),
                forall|j: int| 0 <= j < made.len() ==> (#[trigger] made[j]) <= u64::MAX,
                sorted@.len() == k,
                forall|j: int| 0 <= j < k ==> (#[trigger] sorted@[j]) as u128 == wide@[j],
            decreases n - k,
        {
            assert(wide@.contains(wide@[k as int]));
            assert(made.contains(wide@[k as int]));
            let x: u128 = wide[k];
            sorted.push(x as u64);
            k = k + 1;
        }
        proof {
            lemma_narrow_multiset(self.values@, made, sorted@, wide@);
            assert forall|a: int, b: int| 0 <= a < b < sorted@.len() implies sorted@[a]
                <= sorted@[b] by {
                assert(wide@[a] <= wide@[b]);
            }
        }
        let average: u128 = sum / n as u128;
        assert(average <= u64::MAX) by (nonlinear_arith)
            requires
                average == sum / n as u128,
                sum <= n * u64::MAX,
                n > 0,
        ;
        let r = LatencySnapshot {
            samples: n as u64,
            average_ms: average as u64,
            p50_ms: percentile(sorted.as_slice(), 50),
            p95_ms: percentile(sorted.as_slice(), 95),
            max_ms: sorted[n - 1],
        };
        assert(sorted@.to_multiset() == self@.to_multiset());
        r
    }
}

/// Numbers that are the same in a narrow and in a wide type are the same
/// multiset in both.
proof fn lemma_narrow_multiset(a: Seq<u64>, wide_a: Seq<u128>, b: Seq<u64>, wide_b: Seq<u128>)
    requires
        a.len() == wide_a.len(),
        b.len() == wide_b.len(),
        forall|i: int| 0 <= i < a.len() ==> (#[trigger] wide_a[i]) == a[i],
        forall|i: int| 0 <= i < b.len() ==> (#[trigger] b[i]) as u128 == wide_b[i],
        wide_a.to_multiset() == wide_b.to_multiset(),
    ensures
        b.to_multiset() == a.to_multiset(),
{
    assert forall|x: u64| b.to_multiset().count(x) == a.to_multiset().count(x) by {
        lemma_same_count(a, wide_a, x);
        assert forall|i: int| 0 <= i < b.len() implies (#[trigger] wide_b[i]) == b[i] by {
            assert(b[i] as u128 == wide_b[i]);
        }
        lemma_same_count(b, wide_b, x);
    }
    assert(b.to_multiset() =~= a.to_multiset());
}

proof fn lemma_same_count(a: Seq<u64>, w: Seq<u128>, x: u64)
    requires
        a.len() == w.len(),
        forall|i: int| 0 <= i < a.len() ==> (#[trigger] w[i]) == a[i],
    ensures
        a.to_multiset().count(x) == w.to_multiset().count(x as u128),
    decreases a.len(),
{
    broadcast use vstd::multiset::group_multiset_axioms;

    if a.len() == 0 {
        a.to_multiset_ensures();
        w.to_multiset_ensures();
        assert(!a.contains(x));
        assert(!w.contains(x as u128));
    } else {
        let (b, v) = (a.drop_last(), w.drop_last());
        assert forall|i: int| 0 <= i < b.len() implies (#[trigger] v[i]) == b[i] by {
            assert(w[i] == a[i]);
        }
        lemma_same_count(b, v, x);
        b.to_multiset_ensures();
        v.to_multiset_ensures();
        assert(b.push(a.last()) =~= a);
        assert(v.push(w.last()) =~= w);
        assert(w[a.len() - 1] == a[a.len() - 1]);
    }
}

// ---------------------------------------------------------------------------
// Counters
// ---------------------------------------------------------------------------
/// The counters of a running service.
#[derive(Debug)]
pub struct RuntimeMetrics {
    cache_hits: u64,
    cache_misses: u64,
    cache_evictions: u64,
    cache_evicted_bytes: u64,
    cache_files: u64,
    cache_bytes: u64,
    worker_requests: u64,
    worker_restarts: u64,
    conversions_started: u64,
    conversions_succeeded: u64,
    conversions_failed: u64,
    queue_latency: LatencySamples,
    conversion_duration: LatencySamples,
}

#[verifier::ext_equal]
pub struct MetricsView {
    pub cache_hits: u64,
    pub cache_misses: u64,
    pub cache_evictions: u64,
    pub cache_evicted_bytes: u64,
    pub cache_files: u64,
    pub cache_bytes: u64,
    pub worker_requests: u64,
    pub worker_restarts: u64,
    pub conversions_started: u64,
    pub conversions_succeeded: u64,
    pub conversions_failed: u64,
    pub queue_latency: Seq<u64>,
    pub conversion_duration: Seq<u64>,
}

impl View for RuntimeMetrics {
    type V = MetricsView;

    closed spec fn view(&self) -> MetricsView {
        MetricsView {
            cache_hits: self.cache_hits,
            cache_misses: self.cache_misses,
            cache_evictions: self.cache_evictions,
            cache_evicted_bytes: self.cache_evicted_bytes,
            cache_files: self.cache_files,
            cache_bytes: self.cache_bytes,
            worker_requests: self.worker_requests,
            worker_restarts: self.worker_restarts,
            conversions_started: self.conversions_started,
            conversions_succeeded: self.conversions_succeeded,
            conversions_failed: self.conversions_failed,
            queue_latency: self.queue_latency@,
            conversion_duration: self.conversion_duration@,
        }
    }
}

/// The number of times that are kept has a limit.
pub open spec fn metrics_ok(v: MetricsView) -> bool {
    v.queue_latency.len() <= LATENCY_SAMPLE_LIMIT && v.conversion_duration.len()
        <= LATENCY_SAMPLE_LIMIT
}

/// A counter that starts again from zero.
pub open spec fn counted(n: u64, more: u64) -> u64 {
    ((n + more) % 0x1_0000_0000_0000_0000) as u64
}

fn count(n: u64, more: u64) -> (r: u64)
    ensures
        r == counted(n, more),
{
    if n > u64::MAX - more {
        let over: u128 = n as u128 + more as u128 - 0x1_0000_0000_0000_0000u128;
        over as u64
    } else {
        n + more
    }
}

impl RuntimeMetrics {
    pub fn new() -> (r: RuntimeMetrics)
        ensures
            metrics_ok(r@),
            r@ == (MetricsView {
                cache_hits: 0,
                cache_misses: 0,
                cache_evictions: 0,
                cache_evicted_bytes: 0,
                cache_files: 0,
                cache_bytes: 0,
                worker_requests: 0,
                worker_restarts: 0,
                conversions_started: 0,
                conversions_succeeded: 0,
                conversions_failed: 0,
                queue_latency: seq![],
                conversion_duration: seq![],
            }),
    {
        RuntimeMetrics {
            cache_hits: 0,
            cache_misses: 0,
            cache_evictions: 0,
            cache_evicted_bytes: 0,
            cache_files: 0,
            cache_bytes: 0,
            worker_requests: 0,
            worker_restarts: 0,
            conversions_started: 0,
            conversions_succeeded: 0,
            conversions_failed: 0,
            queue_latency: LatencySamples::new(),
            conversion_duration: LatencySamples::new(),
        }
    }

    pub fn record_cache_lookup(&mut self, hit: bool)
        ensures
            final(self)@ == if hit {
                MetricsView { cache_hits: counted(old(self)@.cache_hits, 1), ..old(self)@ }
            } else {
                MetricsView { cache_misses: counted(old(self)@.cache_misses, 1), ..old(self)@ }
            },
    {
        if hit {
            self.cache_hits = count(self.cache_hits, 1);
        } else {
            self.cache_misses = count(self.cache_misses, 1);
        }
    }

    pub fn set_cache_usage(&mut self, files: u64, bytes: u64)
        ensures
            final(self)@ == (MetricsView { cache_files: files, cache_bytes: bytes, ..old(self)@ }),
    {
        self.cache_files = files;
        self.cache_bytes = bytes;
    }

    pub fn record_cache_insert(&mut self, bytes: u64)
        ensures
            final(self)@ == (MetricsView {
                cache_files: counted(old(self)@.cache_files, 1),
                cache_bytes: counted(old(self)@.cache_bytes, bytes),
                ..old(self)@
            }),
    {
        self.cache_files = count(self.cache_files, 1);
        self.cache_bytes = count(self.cache_bytes, bytes);
    }

    pub fn record_cache_eviction(&mut self, bytes: u64)
        ensures
            final(self)@ == (MetricsView {
                cache_evictions: counted(old(self)@.cache_evictions, 1),
                cache_evicted_bytes: counted(old(self)@.cache_evicted_bytes, bytes),
                ..old(self)@
            }),
    {
        self.cache_evictions = count(self.cache_evictions, 1);
        self.cache_evicted_bytes = count(self.cache_evicted_bytes, bytes);
    }

    pub fn record_worker_request(&mut self)
        ensures
            final(self)@ == (MetricsView {
                worker_requests: counted(old(self)@.worker_requests, 1),
                ..old(self)@
            }),
    {
        self.worker_requests = count(self.worker_requests, 1);
    }

    pub fn record_worker_restart(&mut self)
        ensures
            final(self)@ == (MetricsView {
                worker_restarts: counted(old(self)@.worker_restarts, 1),
                ..old(self)@
            }),
    {
        self.worker_restarts = count(self.worker_restarts, 1);
    }

    /// Counts a conversion that starts after a wait of so many milliseconds.
    pub fn record_conversion_started(&mut self, queue_latency: u128)
        requires
            metrics_ok(old(self)@),
        ensures
            metrics_ok(final(self)@),
            final(self)@ == (MetricsView {
                conversions_started: counted(old(self)@.conversions_started, 1),
                queue_latency: recorded(old(self)@.queue_latency, queue_latency as int),
                ..old(self)@
            }),
    {
        self.conversions_started = count(self.conversions_started, 1);
        self.queue_latency.record(queue_latency);
    }

    /// Counts a conversion that ended after so many milliseconds.
    pub fn record_conversion_finished(&mut self, duration: u128, succeeded: bool)
        requires
            metrics_ok(old(self)@),
        ensures
            metrics_ok(final(self)@),
            final(self)@ == (MetricsView {
                conversions_succeeded: if succeeded {
                    counted(old(self)@.conversions_succeeded, 1)
                } else {
                    old(self)@.conversions_succeeded
                },
                conversions_failed: if succeeded {
                    old(self)@.conversions_failed
                } else {
                    counted(old(self)@.conversions_failed, 1)
                },
                conversion_duration: recorded(old(self)@.conversion_duration, duration as int),
                ..old(self)@
            }),
    {
        if succeeded {
            self.conversions_succeeded = count(self.conversions_succeeded, 1);
        } else {
            self.conversions_failed = count(self.conversions_failed, 1);
        }
        self.conversion_duration.record(duration);
    }

    pub fn snapshot(&self, cache_max_bytes: u64, uptime_seconds: u64) -> (r: RuntimeMetricsSnapshot)
        requires
            metrics_ok(self@),
        ensures
            r.uptime_seconds == uptime_seconds,
            r.cache.hits == self@.cache_hits,
            r.cache.misses == self@.cache_misses,
            r.cache.lookups == if self@.cache_hits + self@.cache_misses > u64::MAX {
                u64::MAX as int
            } else {
                self@.cache_hits + self@.cache_misses
            },
            r.cache.files == self@.cache_files,
            r.cache.bytes == self@.cache_bytes,
            r.cache.max_bytes == cache_max_bytes,
            r.cache.evictions == self@.cache_evictions,
            r.cache.evicted_bytes == self@.cache_evicted_bytes,
            tells(self@.queue_latency, r.queue),
            r.conversions.started == self@.conversions_started,
            r.conversions.succeeded == self@.conversions_succeeded,
            r.conversions.failed == self@.conversions_failed,
            tells(self@.conversion_duration, r.conversions.duration),
            r.workers.requests == self@.worker_requests,
            r.workers.restarts == self@.worker_restarts,
    {
        let lookups: u64 = if self.cache_hits > u64::MAX - self.cache_misses {
            u64::MAX
        } else {
            self.cache_hits + self.cache_misses
        };
        RuntimeMetricsSnapshot {
            uptime_seconds,
            cache: CacheMetricsSnapshot {
                hits: self.cache_hits,
                misses: self.cache_misses,
                lookups,
                files: self.cache_files,
                bytes: self.cache_bytes,
                max_bytes: cache_max_bytes,
                evictions: self.cache_evictions,
                evicted_bytes: self.cache_evicted_bytes,
            },
            queue: self.queue_latency.snapshot(),
            conversions: ConversionMetricsSnapshot {
                started: self.conversions_started,
                succeeded: self.conversions_succeeded,
                failed: self.conversions_failed,
                duration: self.conversion_duration.snapshot(),
            },
            workers: WorkerMetricsSnapshot {
                requests: self.worker_requests,
                restarts: self.worker_restarts,
            },
        }
    }
}

// ---------------------------------------------------------------------------
// Laws
// ---------------------------------------------------------------------------
/// The middle time is no longer than the one that only one in twenty exceeds,
/// and that one no longer than the longest.
pub proof fn law_percentiles_ordered(v: Seq<u64>, r: LatencySnapshot)
    requires
        tells(v, r),
        v.len() <= LATENCY_SAMPLE_LIMIT,
    ensures
        r.p50_ms <= r.p95_ms <= r.max_ms,
        r.samples == v.len(),
{
    if v.len() > 0 {
        let s = choose|s: Seq<u64>| #[trigger]
            s.to_multiset() == v.to_multiset() && in_order(s) && r == (LatencySnapshot {
                samples: v.len() as u64,
                average_ms: (sum_upto(v, v.len() as int) / v.len() as int) as u64,
                p50_ms: percentile_of(s, 50),
                p95_ms: percentile_of(s, 95),
                max_ms: s.last(),
            });
        s.to_multiset_ensures();
        v.to_multiset_ensures();
        assert(s.len() == v.len());
        let n = s.len() as int;
        let (a, b) = (percentile_place(n, 50), percentile_place(n, 95));
        assert(n * 50 <= n * 95);
        assert(0 <= a <= b <= n - 1);
        assert(a < b ==> s[a] <= s[b]);
        assert(b < n - 1 ==> s[b] <= s[n - 1]);
    }
}

/// The last times are kept: the newest always, and the others in their order.
pub proof fn law_recent_times_kept(v: Seq<u64>, millis: int)
    requires
        v.len() <= LATENCY_SAMPLE_LIMIT,
        0 <= millis <= u64::MAX,
    ensures
        recorded(v, millis).len() <= LATENCY_SAMPLE_LIMIT,
        recorded(v, millis).last() == millis,
        v.len() < LATENCY_SAMPLE_LIMIT ==> recorded(v, millis) == v.push(millis as u64),
{
}

/// Where 1024 times are kept, the oldest one goes for a new one.
pub proof fn law_oldest_time_dropped(v: Seq<u64>, millis: int)
    requires
        0 <= millis <= u64::MAX,
    ensures
        v.len() == 1024 ==> recorded(v, millis) == v.skip(1).push(millis as u64),
        v.len() < 1024 ==> recorded(v, millis) == v.push(millis as u64),
{
}

/// A percentile is the first number in order that so many per cent of the numbers
/// do not exceed.
pub proof fn law_percentile_covers(n: int, percent: int)
    requires
        0 < n,
        0 < percent <= 100,
        n * percent <= usize::MAX,
    ensures
        0 <= percentile_place(n, percent) < n,
        percentile_place(n, percent) * 100 < n * percent <= (percentile_place(n, percent) + 1) * 100,
{
    assert(n * percent <= n * 100) by (nonlinear_arith)
        requires
            0 < n,
            percent <= 100,
    ;
    assert(0 < n * percent) by (nonlinear_arith)
        requires
            0 < n,
            0 < percent,
    ;
}

/// The longest time is one of the times, and none is longer; the average is that of
/// all of them, rounded down.
pub proof fn law_times_summed_up(v: Seq<u64>, r: LatencySnapshot, i: int)
    requires
        tells(v, r),
        0 <= i < v.len() <= LATENCY_SAMPLE_LIMIT,
    ensures
        v[i] <= r.max_ms,
        v.contains(r.max_ms),
        r.average_ms * v.len() <= sum_upto(v, v.len() as int) < (r.average_ms + 1) * v.len(),
{
    let s = choose|s: Seq<u64>| #[trigger]
        s.to_multiset() == v.to_multiset() && in_order(s) && r == (LatencySnapshot {
            samples: v.len() as u64,
            average_ms: (sum_upto(v, v.len() as int) / v.len() as int) as u64,
            p50_ms: percentile_of(s, 50),
            p95_ms: percentile_of(s, 95),
            max_ms: s.last(),
        });
    s.to_multiset_ensures();
    v.to_multiset_ensures();
    assert(v.contains(v[i]));
    assert(s.to_multiset().count(v[i]) > 0);
    assert(s.contains(v[i]));
    let k = choose|k: int| 0 <= k < s.len() && s[k] == v[i];
    assert(s[k] <= s[s.len() - 1]);
    assert(s.contains(s[s.len() - 1]));
    assert(v.to_multiset().count(s.last()) > 0);
    let n = v.len() as int;
    let sum = sum_upto(v, n);
    lemma_sum_bound(v, n);
    assert(0 <= sum / n <= u64::MAX) by (nonlinear_arith)
        requires
            0 <= sum <= n * u64::MAX,
            0 < n,
    ;
    assert(sum / n * n <= sum < (sum / n + 1) * n) by (nonlinear_arith)
        requires
            0 < n,
            0 <= sum,
    ;
}

/// A counter counts on by as many as it is told, until it is full.
pub proof fn law_counters_count(n: u64, more: u64)
    requires
        n + more <= u64::MAX,
    ensures
        counted(n, more) == n + more,
{
}

/// The middle time and the one that nineteen of twenty do not exceed, of the times
/// in their order.
pub proof fn law_percentiles_told(v: Seq<u64>, r: LatencySnapshot)
    requires
        tells(v, r),
        0 < v.len() <= LATENCY_SAMPLE_LIMIT,
    ensures
        exists|s: Seq<u64>|
            {
                let n = v.len() as int;
                &&& #[trigger] s.to_multiset() == v.to_multiset()
                &&& forall|i: int, j: int| 0 <= i < j < s.len() ==> s[i] <= s[j]
                &&& s.len() == n
                &&& r.p50_ms == s[(n * 50 + 99) / 100 - 1]
                &&& r.p95_ms == s[(n * 95 + 99) / 100 - 1]
                &&& r.max_ms == s[n - 1]
            },
{
    let s = choose|s: Seq<u64>| #[trigger]
        s.to_multiset() == v.to_multiset() && in_order(s) && r == (LatencySnapshot {
            samples: v.len() as u64,
            average_ms: (sum_upto(v, v.len() as int) / v.len() as int) as u64,
            p50_ms: percentile_of(s, 50),
            p95_ms: percentile_of(s, 95),
            max_ms: s.last(),
        });
    s.to_multiset_ensures();
    v.to_multiset_ensures();
    assert(s.len() == v.len());
}

/// Each time counts once in the sum.
pub proof fn law_each_time_counts(v: Seq<u64>, n: int)
    requires
        0 < n <= v.len(),
    ensures
        sum_upto(v, n) - sum_upto(v, n - 1) == v[n - 1],
        sum_upto(v, 0) == 0,
{
}

/// Where no time was taken, nothing is told.
pub proof fn law_no_times(r: LatencySnapshot)
    requires
        tells(seq![], r),
    ensures
        r.samples == 0 && r.average_ms == 0 && r.p50_ms == 0 && r.p95_ms == 0 && r.max_ms == 0,
{
}

} // verus!
