//! Metrics collection: counters, gauges and latency histograms, kept in a
//! registry under keys made of a metric's name and labels.
//!
//! Latencies are held in whole microseconds, so a histogram's bounds, its
//! sum and its percentiles are all integers.

use vstd::prelude::*;
use vstd::string::StringExecFns;

verus! {

/// A metric label key-value pair.
pub type Label = (String, String);

/// The view of a label: its key and value as character sequences.
pub open spec fn label_view(l: Label) -> (Seq<char>, Seq<char>) {
    (l.0@, l.1@)
}

/// The views of a list of labels.
pub open spec fn labels_view(ls: Seq<Label>) -> Seq<(Seq<char>, Seq<char>)> {
    ls.map_values(|l: Label| label_view(l))
}

/// `a + b` modulo 2^64, as an atomic `fetch_add` computes it.
pub open spec fn wrapping_sum(a: u64, b: u64) -> u64 {
    if a + b > u64::MAX { (a + b - 0x1_0000_0000_0000_0000) as u64 } else { (a + b) as u64 }
}

/// `a - b` modulo 2^64, as an atomic `fetch_sub` computes it.
pub open spec fn wrapping_diff(a: u64, b: u64) -> u64 {
    if a < b { (a - b + 0x1_0000_0000_0000_0000) as u64 } else { (a - b) as u64 }
}

/// Types of metrics that can be collected.
#[derive(Debug, Clone, Copy, PartialEq, Eq, Hash)]
pub enum MetricType {
    Counter,
    Gauge,
    Histogram,
}

/// A counter metric that only goes up (wrapping at 2^64).
#[derive(Debug)]
pub struct Counter {
    value: u64,
    labels: Vec<Label>,
}

impl Counter {
    /// The current count.
    pub closed spec fn count(&self) -> u64 {
        self.value
    }

    /// The labels the counter was made with.
    pub closed spec fn label_seq(&self) -> Seq<Label> {
        self.labels@
    }

    pub fn new(labels: Vec<Label>) -> (res: Self)
        ensures
            res.count() == 0,
            res.label_seq() == labels@,
    {
        Counter { value: 0, labels }
    }

    pub fn inc(&mut self)
        ensures
            final(self).count() == wrapping_sum(old(self).count(), 1),
            final(self).label_seq() == old(self).label_seq(),
    {
        self.value = self.value.wrapping_add(1);
    }

    pub fn inc_by(&mut self, n: u64)
        ensures
            final(self).count() == wrapping_sum(old(self).count(), n),
            final(self).label_seq() == old(self).label_seq(),
    {
        self.value = self.value.wrapping_add(n);
    }

    pub fn get(&self) -> (res: u64)
        ensures
            res == self.count(),
    {
        self.value
    }

    pub fn labels(&self) -> (res: &[Label])
        ensures
            res@ == self.label_seq(),
    {
        self.labels.as_slice()
    }
}

/// A gauge metric that can go up or down (wrapping at both ends).
#[derive(Debug)]
pub struct Gauge {
    value: u64,
    labels: Vec<Label>,
}

impl Gauge {
    /// The current level.
    pub closed spec fn level(&self) -> u64 {
        self.value
    }

    /// The labels the gauge was made with.
    pub closed spec fn label_seq(&self) -> Seq<Label> {
        self.labels@
    }

    pub fn new(labels: Vec<Label>) -> (res: Self)
        ensures
            res.level() == 0,
            res.label_seq() == labels@,
    {
        Gauge { value: 0, labels }
    }

    pub fn set(&mut self, value: u64)
        ensures
            final(self).level() == value,
            final(self).label_seq() == old(self).label_seq(),
    {
        self.value = value;
    }

    pub fn inc(&mut self)
        ensures
            final(self).level() == wrapping_sum(old(self).level(), 1),
            final(self).label_seq() == old(self).label_seq(),
    {
        self.value = self.value.wrapping_add(1);
    }

    pub fn dec(&mut self)
        ensures
            final(self).level() == wrapping_diff(old(self).level(), 1),
            final(self).label_seq() == old(self).label_seq(),
    {
        self.value = self.value.wrapping_sub(1);
    }

    pub fn get(&self) -> (res: u64)
        ensures
            res == self.level(),
    {
        self.value
    }

    pub fn labels(&self) -> (res: &[Label])
        ensures
            res@ == self.label_seq(),
    {
        self.labels.as_slice()
    }
}

/// Incrementing a gauge and then decrementing it gives back its level.
pub proof fn lemma_gauge_inc_dec(level: u64)
    ensures
        wrapping_diff(wrapping_sum(level, 1), 1) == level,
{
}

/// A counter that has not wrapped grows by exactly what was added.
pub proof fn lemma_counter_monotonic(count: u64, n: u64)
    requires
        count + n <= u64::MAX,
    ensures
        wrapping_sum(count, n) == count + n,
        wrapping_sum(count, n) >= count,
{
}


/// The default latency bucket bounds, in microseconds
/// (1ms, 5ms, 10ms, 25ms, 50ms, 100ms, 250ms, 500ms, 1s, 2.5s, 5s, 10s).
pub open spec fn default_bounds() -> Seq<u64> {
    seq![1_000u64, 5_000, 10_000, 25_000, 50_000, 100_000, 250_000, 500_000, 1_000_000, 2_500_000,
        5_000_000, 10_000_000]
}

/// Buckets after observing `value`: every bucket whose bound is at least
/// `value` counts one more observation.
pub open spec fn observed_buckets(b: Seq<(u64, u64)>, value: u64) -> Seq<(u64, u64)> {
    Seq::new(
        b.len(),
        |i: int|
            if value <= b[i].0 {
                (b[i].0, wrapping_sum(b[i].1, 1))
            } else {
                b[i]
            },
    )
}

/// A point between `lo` and `hi`, `num / den` of the way from `lo`, rounded toward `lo`.
pub open spec fn interpolate(lo: int, hi: int, num: int, den: int) -> int {
    if hi >= lo {
        lo + num * (hi - lo) / den
    } else {
        lo - num * (lo - hi) / den
    }
}

/// Scans the buckets from index `i` for the first whose cumulative count
/// reaches `target`, interpolating inside it from the previous bucket.
pub open spec fn percentile_scan(
    b: Seq<(u64, u64)>,
    i: int,
    target: int,
    prev_bound: int,
    prev_count: int,
) -> Option<int>
    decreases b.len() - i,
{
    if i < 0 || i >= b.len() {
        None
    } else if b[i].1 >= target {
        if b[i].1 == prev_count {
            Some(b[i].0 as int)
        } else {
            Some(interpolate(prev_bound, b[i].0 as int, target - prev_count, b[i].1 - prev_count))
        }
    } else {
        percentile_scan(b, i + 1, target, b[i].0 as int, b[i].1 as int)
    }
}

/// The approximate `p`-th percentile of a histogram with buckets `b` and
/// `total` observations: `None` when it is empty.
pub open spec fn percentile_of(b: Seq<(u64, u64)>, total: u64, p: u64) -> Option<int> {
    if total == 0 {
        None
    } else {
        match percentile_scan(b, 0, total * p / 100, 0, 0) {
            Some(x) => Some(x),
            None => if b.len() > 0 { Some(b[b.len() - 1].0 as int) } else { None },
        }
    }
}

/// Whether bucket bounds never decrease from one bucket to the next.
pub open spec fn bounds_sorted(b: Seq<(u64, u64)>) -> bool {
    forall|i: int, j: int| 0 <= i <= j < b.len() ==> b[i].0 <= b[j].0
}

/// An interpolated point lies between its ends, and moves away from the
/// low end as the fraction grows.
proof fn lemma_interpolate(lo: int, hi: int, n1: int, n2: int, den: int)
    requires
        lo <= hi,
        0 <= n1 <= n2 <= den,
        den > 0,
    ensures
        lo <= interpolate(lo, hi, n1, den) <= interpolate(lo, hi, n2, den) <= hi,
{
    let span = hi - lo;
    assert(0 <= n1 * span / den <= n2 * span / den <= span) by (nonlinear_arith)
        requires
            0 <= n1 <= n2 <= den,
            den > 0,
            span >= 0,
    {
        assert(n1 * span <= n2 * span);
        assert(n2 * span <= den * span);
        vstd::arithmetic::div_mod::lemma_div_is_ordered(n1 * span, n2 * span, den);
        vstd::arithmetic::div_mod::lemma_div_is_ordered(n2 * span, den * span, den);
        vstd::arithmetic::div_mod::lemma_div_by_multiple(span, den);
        vstd::arithmetic::div_mod::lemma_div_pos_is_pos(n1 * span, den);
    }
}

/// What a scan finds lies between the previous bound and the last bound;
/// a scan that finds nothing met no bucket reaching the target.
proof fn lemma_scan_bounds(b: Seq<(u64, u64)>, i: int, t: int, pb: int, pc: int)
    requires
        bounds_sorted(b),
        0 <= i,
        i < b.len() ==> pb <= b[i].0,
        pc <= t,
    ensures
        percentile_scan(b, i, t, pb, pc) matches Some(x) ==> pb <= x && x <= b[b.len() - 1].0,
        percentile_scan(b, i, t, pb, pc) is None ==> forall|k: int| i <= k < b.len() ==> #[trigger] b[k].1 < t,
    decreases b.len() - i,
{
    if i < b.len() {
        if b[i].1 >= t {
            if b[i].1 != pc {
                lemma_interpolate(pb, b[i].0 as int, t - pc, t - pc, b[i].1 - pc);
            }
        } else {
            lemma_scan_bounds(b, i + 1, t, b[i].0 as int, b[i].1 as int);
        }
    }
}

/// A scan for a higher target finds a point no lower, and finds one
/// whenever the scan for the lower target does not run out of buckets.
proof fn lemma_scan_monotone(b: Seq<(u64, u64)>, i: int, t1: int, t2: int, pb: int, pc: int)
    requires
        bounds_sorted(b),
        0 <= i,
        i < b.len() ==> pb <= b[i].0,
        pc <= t1 <= t2,
    ensures
        percentile_scan(b, i, t1, pb, pc) matches Some(x1) ==> match percentile_scan(b, i, t2, pb, pc) {
            Some(x2) => x1 <= x2,
            None => x1 <= b[b.len() - 1].0,
        },
        percentile_scan(b, i, t1, pb, pc) is None ==> percentile_scan(b, i, t2, pb, pc) is None,
    decreases b.len() - i,
{
    lemma_scan_bounds(b, i, t1, pb, pc);
    lemma_scan_bounds(b, i, t2, pb, pc);
    if i < b.len() {
        if b[i].1 >= t2 {
            if b[i].1 != pc {
                lemma_interpolate(pb, b[i].0 as int, t1 - pc, t2 - pc, b[i].1 - pc);
            }
        } else if b[i].1 >= t1 {
            if b[i].1 != pc {
                lemma_interpolate(pb, b[i].0 as int, t1 - pc, t1 - pc, b[i].1 - pc);
            }
            lemma_scan_bounds(b, i + 1, t2, b[i].0 as int, b[i].1 as int);
        } else {
            lemma_scan_monotone(b, i + 1, t1, t2, b[i].0 as int, b[i].1 as int);
        }
    }
}

/// Percentiles are ordered: with bucket bounds that never decrease, a
/// higher percentile is never below a lower one, and one is there exactly
/// when the other is.
pub proof fn lemma_percentile_monotone(b: Seq<(u64, u64)>, total: u64, p1: u64, p2: u64)
    requires
        bounds_sorted(b),
        p1 <= p2,
    ensures
        percentile_of(b, total, p1) is Some <==> percentile_of(b, total, p2) is Some,
        percentile_of(b, total, p1) matches Some(x1) ==> percentile_of(b, total, p2) matches Some(x2) && x1 <= x2,
{
    if total > 0 {
        let t1 = total * p1 / 100;
        let t2 = total * p2 / 100;
        assert(0 <= t1 <= t2) by (nonlinear_arith)
            requires
                p1 <= p2,
                total > 0,
                t1 == total * p1 / 100,
                t2 == total * p2 / 100,
        {
            assert(total * p1 <= total * p2);
            vstd::arithmetic::div_mod::lemma_div_is_ordered(total * p1, total * p2, 100);
        }
        lemma_scan_monotone(b, 0, t1, t2, 0, 0);
        lemma_scan_bounds(b, 0, t1, 0, 0);
    }
}

/// Percentiles lie within the buckets: with bucket bounds that never
/// decrease, a percentile is there exactly when something was observed,
/// and then lies between zero and the last bucket bound.
pub proof fn lemma_percentile_bounds(b: Seq<(u64, u64)>, total: u64, p: u64)
    requires
        bounds_sorted(b),
        b.len() > 0,
    ensures
        percentile_of(b, total, p) is Some <==> total > 0,
        percentile_of(b, total, p) matches Some(x) ==> 0 <= x <= b[b.len() - 1].0,
{
    if total > 0 {
        let t = total * p / 100;
        assert(t >= 0) by (nonlinear_arith)
            requires
                t == total * p / 100,
        {
        }
        lemma_scan_bounds(b, 0, t, 0, 0);
    }
}

/// The 50th, 90th, 95th and 99th percentiles of a histogram with
/// non-decreasing bounds are in order.
pub proof fn lemma_percentiles_ordered(b: Seq<(u64, u64)>, total: u64)
    requires
        bounds_sorted(b),
    ensures
        percentile_of(b, total, 50) matches Some(x) ==> percentile_of(b, total, 90) matches Some(y) && x <= y,
        percentile_of(b, total, 90) matches Some(x) ==> percentile_of(b, total, 95) matches Some(y) && x <= y,
        percentile_of(b, total, 95) matches Some(x) ==> percentile_of(b, total, 99) matches Some(y) && x <= y,
{
    lemma_percentile_monotone(b, total, 50, 90);
    lemma_percentile_monotone(b, total, 90, 95);
    lemma_percentile_monotone(b, total, 95, 99);
}

/// The default buckets have increasing bounds, and observations keep the
/// bounds of a histogram.
pub proof fn lemma_default_bounds_sorted(b: Seq<(u64, u64)>, value: u64)
    ensures
        bounds_sorted(default_bounds().map_values(|x: u64| (x, 0u64))),
        bounds_sorted(b) ==> bounds_sorted(observed_buckets(b, value)),
{
    let d = default_bounds().map_values(|x: u64| (x, 0u64));
    assert forall|i: int, j: int| 0 <= i <= j < d.len() implies d[i].0 <= d[j].0 by {
        assert(d[i].0 == default_bounds()[i]);
        assert(d[j].0 == default_bounds()[j]);
    }
    if bounds_sorted(b) {
        let o = observed_buckets(b, value);
        assert forall|i: int, j: int| 0 <= i <= j < o.len() implies o[i].0 <= o[j].0 by {
            assert(o[i].0 == b[i].0);
            assert(o[j].0 == b[j].0);
        }
    }
}

/// Percentile statistics, in microseconds.
#[derive(Debug, Clone, Copy)]
pub struct PercentileStats {
    pub p50: Option<u64>,
    pub p90: Option<u64>,
    pub p95: Option<u64>,
    pub p99: Option<u64>,
}

/// The view of an optional percentile as an optional integer.
pub open spec fn opt_int(o: Option<u64>) -> Option<int> {
    match o {
        Some(x) => Some(x as int),
        None => None,
    }
}

/// A histogram of observations (latencies in microseconds, sizes, ...).
#[derive(Debug)]
pub struct Histogram {
    buckets: Vec<(u64, u64)>,
    sum: u64,
    count: u64,
    labels: Vec<Label>,
}

impl Histogram {
    /// The buckets: each bound with the number of observations at or below it.
    pub closed spec fn bucket_seq(&self) -> Seq<(u64, u64)> {
        self.buckets@
    }

    /// The sum of all observations (wrapping at 2^64).
    pub closed spec fn total_sum(&self) -> u64 {
        self.sum
    }

    /// The number of observations (wrapping at 2^64).
    pub closed spec fn total_count(&self) -> u64 {
        self.count
    }

    /// The labels the histogram was made with.
    pub closed spec fn label_seq(&self) -> Seq<Label> {
        self.labels@
    }

    /// Creates a histogram with the default latency buckets.
    pub fn new(labels: Vec<Label>) -> (res: Self)
        ensures
            res.bucket_seq() == default_bounds().map_values(|b: u64| (b, 0u64)),
            res.total_sum() == 0,
            res.total_count() == 0,
            res.label_seq() == labels@,
    {
        let bounds: Vec<u64> = vec![1_000u64, 5_000, 10_000, 25_000, 50_000, 100_000, 250_000,
            500_000, 1_000_000, 2_500_000, 5_000_000, 10_000_000];
        let res = Self::with_buckets(labels, bounds);
        assert(res.bucket_seq() =~= default_bounds().map_values(|b: u64| (b, 0u64)));
        res
    }

    /// Creates a histogram with the given bucket bounds, in their order.
    pub fn with_buckets(labels: Vec<Label>, bucket_bounds: Vec<u64>) -> (res: Self)
        ensures
            res.bucket_seq() == bucket_bounds@.map_values(|b: u64| (b, 0u64)),
            res.total_sum() == 0,
            res.total_count() == 0,
            res.label_seq() == labels@,
    {
        let mut buckets: Vec<(u64, u64)> = Vec::new();
        let mut i: usize = 0;
        while i < bucket_bounds.len()
            invariant
                i <= bucket_bounds.len(),
                buckets@ =~= bucket_bounds@.take(i as int).map_values(|b: u64| (b, 0u64)),
            decreases bucket_bounds.len() - i,
        {
            buckets.push((bucket_bounds[i], 0));
            i = i + 1;
            assert(buckets@ =~= bucket_bounds@.take(i as int).map_values(|b: u64| (b, 0u64)));
        }
        assert(bucket_bounds@.take(i as int) =~= bucket_bounds@);
        Histogram { buckets, sum: 0, count: 0, labels }
    }

    /// Records one observation.
    pub fn observe(&mut self, value: u64)
        ensures
            final(self).bucket_seq() == observed_buckets(old(self).bucket_seq(), value),
            final(self).total_sum() == wrapping_sum(old(self).total_sum(), value),
            final(self).total_count() == wrapping_sum(old(self).total_count(), 1),
            final(self).label_seq() == old(self).label_seq(),
    {
        let ghost before = self.buckets@;
        let mut i: usize = 0;
        while i < self.buckets.len()
            invariant
                i <= self.buckets.len(),
                self.buckets@.len() == before.len(),
                self.sum == old(self).sum,
                self.count == old(self).count,
                self.labels == old(self).labels,
                forall|j: int|
                    0 <= j < i ==> #[trigger] self.buckets@[j] == observed_buckets(before, value)[j],
                forall|j: int| i <= j < before.len() ==> #[trigger] self.buckets@[j] == before[j],
            decreases self.buckets.len() - i,
        {
            let (bound, n) = self.buckets[i];
            if value <= bound {
                self.buckets.set(i, (bound, n.wrapping_add(1)));
            }
            i = i + 1;
        }
        assert(self.buckets@ =~= observed_buckets(before, value));
        self.sum = self.sum.wrapping_add(value);
        self.count = self.count.wrapping_add(1);
    }

    /// Records a duration, given in microseconds.
    pub fn observe_duration(&mut self, duration_micros: u64)
        ensures
            final(self).bucket_seq() == observed_buckets(old(self).bucket_seq(), duration_micros),
            final(self).total_sum() == wrapping_sum(old(self).total_sum(), duration_micros),
            final(self).total_count() == wrapping_sum(old(self).total_count(), 1),
            final(self).label_seq() == old(self).label_seq(),
    {
        self.observe(duration_micros);
    }

    /// The number of observations.
    pub fn count(&self) -> (res: u64)
        ensures
            res == self.total_count(),
    {
        self.count
    }

    /// The sum of all observations.
    pub fn sum(&self) -> (res: u64)
        ensures
            res == self.total_sum(),
    {
        self.sum
    }

    /// The approximate `p`-th percentile (`p` in percent), interpolated
    /// linearly inside the first bucket whose count reaches `p`% of the
    /// observations; the last bound when none does; `None` when empty.
    pub fn percentile(&self, p: u64) -> (res: Option<u64>)
        ensures
            opt_int(res) == percentile_of(self.bucket_seq(), self.total_count(), p),
    {
        let total = self.count;
        if total == 0 {
            return None;
        }
        proof {
            assert((total as int) * (p as int) <= u64::MAX * u64::MAX) by (nonlinear_arith)
                requires total <= u64::MAX, p <= u64::MAX;
        }
        let target: u128 = (total as u128) * (p as u128) / 100;
        let mut prev_bound: u64 = 0;
        let mut prev_count: u64 = 0;
        let mut i: usize = 0;
        let ghost b = self.buckets@;
        while i < self.buckets.len()
            invariant
                b == self.buckets@,
                total == self.count,
                total > 0,
                i <= b.len(),
                target == total * p / 100,
                prev_count < target || (i == 0 && prev_count == 0),
                i == 0 ==> prev_bound == 0 && prev_count == 0,
                percentile_scan(b, 0, target as int, 0, 0) == percentile_scan(
                    b,
                    i as int,
                    target as int,
                    prev_bound as int,
                    prev_count as int,
                ),
            decreases b.len() - i,
        {
            let (bound, n) = self.buckets[i];
            if (n as u128) >= target {
                if n == prev_count {
                    return Some(bound);
                }
                assert(n > prev_count);
                let num: u128 = target - (prev_count as u128);
                let den: u128 = (n - prev_count) as u128;
                assert(num <= den);
                if bound >= prev_bound {
                    let span: u128 = (bound - prev_bound) as u128;
                    proof { lemma_scaled_fits(num as int, den as int, span as int); }
                    let off: u128 = num * span / den;
                    assert(prev_bound + off == interpolate(
                        prev_bound as int,
                        bound as int,
                        target - prev_count,
                        n - prev_count,
                    ));
                    return Some(prev_bound + (off as u64));
                } else {
                    let span: u128 = (prev_bound - bound) as u128;
                    proof { lemma_scaled_fits(num as int, den as int, span as int); }
                    let off: u128 = num * span / den;
                    assert(prev_bound - off == interpolate(
                        prev_bound as int,
                        bound as int,
                        target - prev_count,
                        n - prev_count,
                    ));
                    return Some(prev_bound - (off as u64));
                }
            }
            prev_bound = bound;
            prev_count = n;
            i = i + 1;
        }
        if self.buckets.len() > 0 {
            Some(self.buckets[self.buckets.len() - 1].0)
        } else {
            None
        }
    }

    /// The 50th, 90th, 95th and 99th percentiles.
    pub fn percentiles(&self) -> (res: PercentileStats)
        ensures
            opt_int(res.p50) == percentile_of(self.bucket_seq(), self.total_count(), 50),
            opt_int(res.p90) == percentile_of(self.bucket_seq(), self.total_count(), 90),
            opt_int(res.p95) == percentile_of(self.bucket_seq(), self.total_count(), 95),
            opt_int(res.p99) == percentile_of(self.bucket_seq(), self.total_count(), 99),
    {
        PercentileStats {
            p50: self.percentile(50),
            p90: self.percentile(90),
            p95: self.percentile(95),
            p99: self.percentile(99),
        }
    }

    pub fn labels(&self) -> (res: &[Label])
        ensures
            res@ == self.label_seq(),
    {
        self.labels.as_slice()
    }
}

/// The registry key of a metric: its name followed by `|key=value` for
/// each label, in order.
pub open spec fn metric_key(name: Seq<char>, labels: Seq<Label>) -> Seq<char>
    decreases labels.len(),
{
    if labels.len() == 0 {
        name
    } else {
        let last = labels[labels.len() - 1];
        metric_key(name, labels.drop_last()) + seq!['|'] + last.0@ + seq!['='] + last.1@
    }
}

/// Whether no key occurs twice in `keys`.
pub open spec fn keys_unique(keys: Seq<Seq<char>>) -> bool {
    forall|i: int, j: int| 0 <= i < keys.len() && 0 <= j < keys.len() && i != j ==> keys[i] != keys[j]
}

/// The keys of a list of named entries.
pub open spec fn entry_keys<M>(entries: Seq<(String, M)>) -> Seq<Seq<char>> {
    entries.map_values(|e: (String, M)| e.0@)
}

/// The metrics of a list of named entries.
pub open spec fn entry_values<M>(entries: Seq<(String, M)>) -> Seq<M> {
    entries.map_values(|e: (String, M)| e.1)
}

/// Builds the registry key of a metric.
pub fn make_key(name: &str, labels: &[Label]) -> (res: String)
    ensures
        res@ == metric_key(name@, labels@),
{
    let mut key = name.to_owned();
    let mut i: usize = 0;
    while i < labels.len()
        invariant
            i <= labels@.len(),
            key@ == metric_key(name@, labels@.take(i as int)),
        decreases labels@.len() - i,
    {
        proof {
            reveal_strlit("|");
            reveal_strlit("=");
        }
        key.append("|");
        key.append(labels[i].0.as_str());
        key.append("=");
        key.append(labels[i].1.as_str());
        proof {
            let t = labels@.take(i + 1);
            assert(t.drop_last() =~= labels@.take(i as int));
            assert(t[t.len() - 1] == labels@[i as int]);
        }
        i = i + 1;
    }
    assert(labels@.take(i as int) =~= labels@);
    key
}

/// Finds the entry with the given key.
fn find_entry<M>(entries: &Vec<(String, M)>, key: &String) -> (res: Option<usize>)
    ensures
        match res {
            Some(i) => i < entries@.len() && entry_keys(entries@)[i as int] == key@,
            None => !entry_keys(entries@).contains(key@),
        },
{
    let mut i: usize = 0;
    while i < entries.len()
        invariant
            i <= entries@.len(),
            forall|j: int| 0 <= j < i ==> entry_keys(entries@)[j] != key@,
        decreases entries@.len() - i,
    {
        if entries[i].0 == *key {
            return Some(i);
        }
        i = i + 1;
    }
    None
}

/// The central registry of metrics, each kept under the key built from its
/// name and labels. A metric is named by its handle: its position in the
/// registry, which never changes.
pub struct MetricsRegistry {
    counters: Vec<(String, Counter)>,
    gauges: Vec<(String, Gauge)>,
    histograms: Vec<(String, Histogram)>,
}

impl MetricsRegistry {
    /// The keys of the counters, by handle.
    pub closed spec fn counter_keys(&self) -> Seq<Seq<char>> {
        entry_keys(self.counters@)
    }

    /// The counters, by handle.
    pub closed spec fn counter_seq(&self) -> Seq<Counter> {
        entry_values(self.counters@)
    }

    /// The keys of the gauges, by handle.
    pub closed spec fn gauge_keys(&self) -> Seq<Seq<char>> {
        entry_keys(self.gauges@)
    }

    /// The gauges, by handle.
    pub closed spec fn gauge_seq(&self) -> Seq<Gauge> {
        entry_values(self.gauges@)
    }

    /// The keys of the histograms, by handle.
    pub closed spec fn histogram_keys(&self) -> Seq<Seq<char>> {
        entry_keys(self.histograms@)
    }

    /// The histograms, by handle.
    pub closed spec fn histogram_seq(&self) -> Seq<Histogram> {
        entry_values(self.histograms@)
    }

    /// Whether no key occurs twice among the counters, the gauges or the histograms.
    pub open spec fn unique_keys(&self) -> bool {
        &&& keys_unique(self.counter_keys())
        &&& keys_unique(self.gauge_keys())
        &&& keys_unique(self.histogram_keys())
    }

    pub fn new() -> (res: Self)
        ensures
            res.counter_seq().len() == 0,
            res.gauge_seq().len() == 0,
            res.histogram_seq().len() == 0,
            res.unique_keys(),
    {
        MetricsRegistry { counters: Vec::new(), gauges: Vec::new(), histograms: Vec::new() }
    }

    /// Gets the handle of the counter with this name and these labels,
    /// creating the counter (at zero, with these labels) if there is none.
    pub fn counter(&mut self, name: &str, labels: Vec<Label>) -> (h: usize)
        requires
            old(self).unique_keys(),
        ensures
            final(self).unique_keys(),
            h < final(self).counter_seq().len(),
            final(self).counter_keys()[h as int] == metric_key(name@, labels@),
            forall|j: int| 0 <= j < final(self).counter_keys().len()
                && #[trigger] final(self).counter_keys()[j] == metric_key(name@, labels@) ==> j == h,
            final(self).gauge_keys() == old(self).gauge_keys(),
            final(self).gauge_seq() == old(self).gauge_seq(),
            final(self).histogram_keys() == old(self).histogram_keys(),
            final(self).histogram_seq() == old(self).histogram_seq(),
            old(self).counter_keys().contains(metric_key(name@, labels@)) ==> {
                &&& final(self).counter_keys() == old(self).counter_keys()
                &&& final(self).counter_seq() == old(self).counter_seq()
            },
            !old(self).counter_keys().contains(metric_key(name@, labels@)) ==> {
                &&& h == old(self).counter_seq().len()
                &&& final(self).counter_keys() == old(self).counter_keys().push(metric_key(name@, labels@))
                &&& final(self).counter_seq().len() == old(self).counter_seq().len() + 1
                &&& final(self).counter_seq().take(h as int) == old(self).counter_seq()
                &&& final(self).counter_seq()[h as int].count() == 0
                &&& final(self).counter_seq()[h as int].label_seq() == labels@
            },
    {
        let key = make_key(name, labels.as_slice());
        match find_entry(&self.counters, &key) {
            Some(i) => i,
            None => {
                let h = self.counters.len();
                self.counters.push((key, Counter::new(labels)));
                proof {
                    assert(entry_keys(self.counters@) =~= entry_keys(old(self).counters@).push(key@));
                    assert(entry_values(self.counters@).take(h as int) =~= entry_values(old(self).counters@));
                }
                h
            },
        }
    }

    /// Gets the handle of the gauge with this name and these labels,
    /// creating the gauge (at zero, with these labels) if there is none.
    pub fn gauge(&mut self, name: &str, labels: Vec<Label>) -> (h: usize)
        requires
            old(self).unique_keys(),
        ensures
            final(self).unique_keys(),
            h < final(self).gauge_seq().len(),
            final(self).gauge_keys()[h as int] == metric_key(name@, labels@),
            forall|j: int| 0 <= j < final(self).gauge_keys().len()
                && #[trigger] final(self).gauge_keys()[j] == metric_key(name@, labels@) ==> j == h,
            final(self).counter_keys() == old(self).counter_keys(),
            final(self).counter_seq() == old(self).counter_seq(),
            final(self).histogram_keys() == old(self).histogram_keys(),
            final(self).histogram_seq() == old(self).histogram_seq(),
            old(self).gauge_keys().contains(metric_key(name@, labels@)) ==> {
                &&& final(self).gauge_keys() == old(self).gauge_keys()
                &&& final(self).gauge_seq() == old(self).gauge_seq()
            },
            !old(self).gauge_keys().contains(metric_key(name@, labels@)) ==> {
                &&& h == old(self).gauge_seq().len()
                &&& final(self).gauge_keys() == old(self).gauge_keys().push(metric_key(name@, labels@))
                &&& final(self).gauge_seq().len() == old(self).gauge_seq().len() + 1
                &&& final(self).gauge_seq().take(h as int) == old(self).gauge_seq()
                &&& final(self).gauge_seq()[h as int].level() == 0
                &&& final(self).gauge_seq()[h as int].label_seq() == labels@
            },
    {
        let key = make_key(name, labels.as_slice());
        match find_entry(&self.gauges, &key) {
            Some(i) => i,
            None => {
                let h = self.gauges.len();
                self.gauges.push((key, Gauge::new(labels)));
                proof {
                    assert(entry_keys(self.gauges@) =~= entry_keys(old(self).gauges@).push(key@));
                    assert(entry_values(self.gauges@).take(h as int) =~= entry_values(old(self).gauges@));
                }
                h
            },
        }
    }

    /// Gets the handle of the histogram with this name and these labels,
    /// creating it (empty, with the default buckets and these labels) if there is none.
    pub fn histogram(&mut self, name: &str, labels: Vec<Label>) -> (h: usize)
        requires
            old(self).unique_keys(),
        ensures
            final(self).unique_keys(),
            h < final(self).histogram_seq().len(),
            final(self).histogram_keys()[h as int] == metric_key(name@, labels@),
            forall|j: int| 0 <= j < final(self).histogram_keys().len()
                && #[trigger] final(self).histogram_keys()[j] == metric_key(name@, labels@) ==> j == h,
            final(self).counter_keys() == old(self).counter_keys(),
            final(self).counter_seq() == old(self).counter_seq(),
            final(self).gauge_keys() == old(self).gauge_keys(),
            final(self).gauge_seq() == old(self).gauge_seq(),
            old(self).histogram_keys().contains(metric_key(name@, labels@)) ==> {
                &&& final(self).histogram_keys() == old(self).histogram_keys()
                &&& final(self).histogram_seq() == old(self).histogram_seq()
            },
            !old(self).histogram_keys().contains(metric_key(name@, labels@)) ==> {
                &&& h == old(self).histogram_seq().len()
                &&& final(self).histogram_keys() == old(self).histogram_keys().push(metric_key(name@, labels@))
                &&& final(self).histogram_seq().len() == old(self).histogram_seq().len() + 1
                &&& final(self).histogram_seq().take(h as int) == old(self).histogram_seq()
                &&& final(self).histogram_seq()[h as int].bucket_seq() == default_bounds().map_values(|b: u64| (b, 0u64))
                &&& final(self).histogram_seq()[h as int].total_count() == 0
                &&& final(self).histogram_seq()[h as int].total_sum() == 0
                &&& final(self).histogram_seq()[h as int].label_seq() == labels@
            },
    {
        let key = make_key(name, labels.as_slice());
        match find_entry(&self.histograms, &key) {
            Some(i) => i,
            None => {
                let h = self.histograms.len();
                self.histograms.push((key, Histogram::new(labels)));
                proof {
                    assert(entry_keys(self.histograms@) =~= entry_keys(old(self).histograms@).push(key@));
                    assert(entry_values(self.histograms@).take(h as int) =~= entry_values(old(self).histograms@));
                }
                h
            },
        }
    }

    /// The counter with handle `h`.
    pub fn counter_at(&self, h: usize) -> (res: &Counter)
        requires
            h < self.counter_seq().len(),
        ensures
            *res == self.counter_seq()[h as int],
    {
        &self.counters[h].1
    }

    /// The gauge with handle `h`.
    pub fn gauge_at(&self, h: usize) -> (res: &Gauge)
        requires
            h < self.gauge_seq().len(),
        ensures
            *res == self.gauge_seq()[h as int],
    {
        &self.gauges[h].1
    }

    /// The histogram with handle `h`.
    pub fn histogram_at(&self, h: usize) -> (res: &Histogram)
        requires
            h < self.histogram_seq().len(),
        ensures
            *res == self.histogram_seq()[h as int],
    {
        &self.histograms[h].1
    }

    /// Adds `n` to the counter with handle `h`.
    pub fn inc_counter_by(&mut self, h: usize, n: u64)
        requires
            old(self).unique_keys(),
            h < old(self).counter_seq().len(),
        ensures
            final(self).unique_keys(),
            final(self).counter_keys() == old(self).counter_keys(),
            final(self).counter_seq().len() == old(self).counter_seq().len(),
            forall|i: int| 0 <= i < old(self).counter_seq().len() && i != h ==>
                #[trigger] final(self).counter_seq()[i] == old(self).counter_seq()[i],
            final(self).counter_seq()[h as int].count() == wrapping_sum(old(self).counter_seq()[h as int].count(), n),
            final(self).counter_seq()[h as int].label_seq() == old(self).counter_seq()[h as int].label_seq(),
            final(self).gauge_keys() == old(self).gauge_keys(),
            final(self).gauge_seq() == old(self).gauge_seq(),
            final(self).histogram_keys() == old(self).histogram_keys(),
            final(self).histogram_seq() == old(self).histogram_seq(),
    {
        self.counters[h].1.inc_by(n);
        proof {
            assert(entry_keys(self.counters@) =~= entry_keys(old(self).counters@));
        }
    }

    /// Sets the gauge with handle `h`.
    pub fn set_gauge(&mut self, h: usize, value: u64)
        requires
            old(self).unique_keys(),
            h < old(self).gauge_seq().len(),
        ensures
            final(self).unique_keys(),
            final(self).gauge_keys() == old(self).gauge_keys(),
            final(self).gauge_seq().len() == old(self).gauge_seq().len(),
            forall|i: int| 0 <= i < old(self).gauge_seq().len() && i != h ==>
                #[trigger] final(self).gauge_seq()[i] == old(self).gauge_seq()[i],
            final(self).gauge_seq()[h as int].level() == value,
            final(self).gauge_seq()[h as int].label_seq() == old(self).gauge_seq()[h as int].label_seq(),
            final(self).counter_keys() == old(self).counter_keys(),
            final(self).counter_seq() == old(self).counter_seq(),
            final(self).histogram_keys() == old(self).histogram_keys(),
            final(self).histogram_seq() == old(self).histogram_seq(),
    {
        self.gauges[h].1.set(value);
        proof {
            assert(entry_keys(self.gauges@) =~= entry_keys(old(self).gauges@));
        }
    }

    /// Records an observation in the histogram with handle `h`.
    pub fn observe(&mut self, h: usize, value: u64)
        requires
            old(self).unique_keys(),
            h < old(self).histogram_seq().len(),
        ensures
            final(self).unique_keys(),
            final(self).histogram_keys() == old(self).histogram_keys(),
            final(self).histogram_seq().len() == old(self).histogram_seq().len(),
            forall|i: int| 0 <= i < old(self).histogram_seq().len() && i != h ==>
                #[trigger] final(self).histogram_seq()[i] == old(self).histogram_seq()[i],
            final(self).histogram_seq()[h as int].bucket_seq() == observed_buckets(old(self).histogram_seq()[h as int].bucket_seq(), value),
            final(self).histogram_seq()[h as int].total_sum() == wrapping_sum(old(self).histogram_seq()[h as int].total_sum(), value),
            final(self).histogram_seq()[h as int].total_count() == wrapping_sum(old(self).histogram_seq()[h as int].total_count(), 1),
            final(self).histogram_seq()[h as int].label_seq() == old(self).histogram_seq()[h as int].label_seq(),
            final(self).counter_keys() == old(self).counter_keys(),
            final(self).counter_seq() == old(self).counter_seq(),
            final(self).gauge_keys() == old(self).gauge_keys(),
            final(self).gauge_seq() == old(self).gauge_seq(),
    {
        self.histograms[h].1.observe(value);
        proof {
            assert(entry_keys(self.histograms@) =~= entry_keys(old(self).histograms@));
        }
    }
}

/// A histogram's state at one point in time.
#[derive(Debug, Clone, Copy)]
pub struct HistogramSnapshot {
    pub count: u64,
    /// Sum of the observations, in microseconds.
    pub sum: u64,
    pub percentiles: PercentileStats,
}

/// A snapshot of all metrics at one point in time, each under its key, in
/// the order the metrics were registered.
#[derive(Debug, Clone)]
pub struct MetricsSnapshot {
    pub counters: Vec<(String, u64)>,
    pub gauges: Vec<(String, u64)>,
    pub histograms: Vec<(String, HistogramSnapshot)>,
}

/// Whether `s` describes histogram `h`.
pub open spec fn snapshot_of(s: HistogramSnapshot, h: Histogram) -> bool {
    &&& s.count == h.total_count()
    &&& s.sum == h.total_sum()
    &&& opt_int(s.percentiles.p50) == percentile_of(h.bucket_seq(), h.total_count(), 50)
    &&& opt_int(s.percentiles.p90) == percentile_of(h.bucket_seq(), h.total_count(), 90)
    &&& opt_int(s.percentiles.p95) == percentile_of(h.bucket_seq(), h.total_count(), 95)
    &&& opt_int(s.percentiles.p99) == percentile_of(h.bucket_seq(), h.total_count(), 99)
}

impl MetricsRegistry {
    /// Exports every metric's current value under its key.
    pub fn snapshot(&self) -> (res: MetricsSnapshot)
        ensures
            res.counters@.len() == self.counter_seq().len(),
            forall|i: int| 0 <= i < res.counters@.len() ==> {
                &&& (#[trigger] res.counters@[i]).0@ == self.counter_keys()[i]
                &&& res.counters@[i].1 == self.counter_seq()[i].count()
            },
            res.gauges@.len() == self.gauge_seq().len(),
            forall|i: int| 0 <= i < res.gauges@.len() ==> {
                &&& (#[trigger] res.gauges@[i]).0@ == self.gauge_keys()[i]
                &&& res.gauges@[i].1 == self.gauge_seq()[i].level()
            },
            res.histograms@.len() == self.histogram_seq().len(),
            forall|i: int| 0 <= i < res.histograms@.len() ==> {
                &&& (#[trigger] res.histograms@[i]).0@ == self.histogram_keys()[i]
                &&& snapshot_of(res.histograms@[i].1, self.histogram_seq()[i])
            },
    {
        let mut counters: Vec<(String, u64)> = Vec::new();
        let mut i: usize = 0;
        while i < self.counters.len()
            invariant
                i <= self.counters@.len(),
                counters@.len() == i,
                forall|j: int| 0 <= j < i ==> {
                    &&& (#[trigger] counters@[j]).0@ == self.counter_keys()[j]
                    &&& counters@[j].1 == self.counter_seq()[j].count()
                },
            decreases self.counters@.len() - i,
        {
            counters.push((self.counters[i].0.clone(), self.counters[i].1.get()));
            i = i + 1;
        }
        let mut gauges: Vec<(String, u64)> = Vec::new();
        let mut i: usize = 0;
        while i < self.gauges.len()
            invariant
                i <= self.gauges@.len(),
                gauges@.len() == i,
                forall|j: int| 0 <= j < i ==> {
                    &&& (#[trigger] gauges@[j]).0@ == self.gauge_keys()[j]
                    &&& gauges@[j].1 == self.gauge_seq()[j].level()
                },
            decreases self.gauges@.len() - i,
        {
            gauges.push((self.gauges[i].0.clone(), self.gauges[i].1.get()));
            i = i + 1;
        }
        let mut histograms: Vec<(String, HistogramSnapshot)> = Vec::new();
        let mut i: usize = 0;
        while i < self.histograms.len()
            invariant
                i <= self.histograms@.len(),
                histograms@.len() == i,
                forall|j: int| 0 <= j < i ==> {
                    &&& (#[trigger] histograms@[j]).0@ == self.histogram_keys()[j]
                    &&& snapshot_of(histograms@[j].1, self.histogram_seq()[j])
                },
            decreases self.histograms@.len() - i,
        {
            let h = &self.histograms[i].1;
            let snap = HistogramSnapshot { count: h.count(), sum: h.sum(), percentiles: h.percentiles() };
            histograms.push((self.histograms[i].0.clone(), snap));
            i = i + 1;
        }
        MetricsSnapshot { counters, gauges, histograms }
    }
}

/// The counters that every Glacis deployment keeps.
#[derive(Debug, Clone, Copy, PartialEq, Eq)]
pub enum GlacisCounter {
    RequestsTotal,
    RequestsErrors,
    CoverageComputations,
    GapAnalyses,
    ConflictResolutions,
    CacheHits,
    CacheMisses,
    ReceiptsMinted,
    ReceiptsVerified,
}

/// The registry name of each predefined counter.
pub open spec fn counter_name(c: GlacisCounter) -> Seq<char> {
    match c {
        GlacisCounter::RequestsTotal => "glacis_requests_total"@,
        GlacisCounter::RequestsErrors => "glacis_requests_errors_total"@,
        GlacisCounter::CoverageComputations => "glacis_coverage_computations_total"@,
        GlacisCounter::GapAnalyses => "glacis_gap_analyses_total"@,
        GlacisCounter::ConflictResolutions => "glacis_conflict_resolutions_total"@,
        GlacisCounter::CacheHits => "glacis_cache_hits_total"@,
        GlacisCounter::CacheMisses => "glacis_cache_misses_total"@,
        GlacisCounter::ReceiptsMinted => "glacis_receipts_minted_total"@,
        GlacisCounter::ReceiptsVerified => "glacis_receipts_verified_total"@,
    }
}

/// The handle of each predefined counter: the order in which they are registered.
pub open spec fn counter_slot(c: GlacisCounter) -> int {
    match c {
        GlacisCounter::RequestsTotal => 0,
        GlacisCounter::RequestsErrors => 1,
        GlacisCounter::CoverageComputations => 2,
        GlacisCounter::GapAnalyses => 3,
        GlacisCounter::ConflictResolutions => 4,
        GlacisCounter::CacheHits => 5,
        GlacisCounter::CacheMisses => 6,
        GlacisCounter::ReceiptsMinted => 7,
        GlacisCounter::ReceiptsVerified => 8,
    }
}

fn counter_slot_exec(c: GlacisCounter) -> (res: usize)
    ensures
        res == counter_slot(c),
{
    match c {
        GlacisCounter::RequestsTotal => 0,
        GlacisCounter::RequestsErrors => 1,
        GlacisCounter::CoverageComputations => 2,
        GlacisCounter::GapAnalyses => 3,
        GlacisCounter::ConflictResolutions => 4,
        GlacisCounter::CacheHits => 5,
        GlacisCounter::CacheMisses => 6,
        GlacisCounter::ReceiptsMinted => 7,
        GlacisCounter::ReceiptsVerified => 8,
    }
}

impl Default for MetricsRegistry {
    /// An empty registry.
    fn default() -> (res: Self)
        ensures
            res.counter_seq().len() == 0,
            res.gauge_seq().len() == 0,
            res.histogram_seq().len() == 0,
            res.unique_keys(),
    {
        MetricsRegistry::new()
    }
}

/// The predefined metrics of Glacis operations, registered in a registry of
/// their own: nine counters, the request latency histogram and the active
/// sessions gauge.
pub struct GlacisMetrics {
    registry: MetricsRegistry,
}

impl GlacisMetrics {
    /// Whether the registry holds exactly the predefined metrics, at their handles.
    pub closed spec fn wf(&self) -> bool {
        &&& self.registry.unique_keys()
        &&& self.registry.counter_seq().len() == 9
        &&& self.registry.histogram_seq().len() == 1
        &&& self.registry.gauge_seq().len() == 1
    }

    /// The registry that holds the metrics.
    pub closed spec fn registry_view(&self) -> MetricsRegistry {
        self.registry
    }

    /// The predefined counter `c`.
    pub open spec fn counter_of(&self, c: GlacisCounter) -> Counter {
        self.registry_view().counter_seq()[counter_slot(c)]
    }

    /// The request latency histogram.
    pub open spec fn latency_of(&self) -> Histogram {
        self.registry_view().histogram_seq()[0]
    }

    /// The active sessions gauge.
    pub open spec fn sessions_of(&self) -> Gauge {
        self.registry_view().gauge_seq()[0]
    }

    pub fn new() -> (res: Self)
        ensures
            res.wf(),
            forall|c: GlacisCounter| #[trigger] res.counter_of(c).count() == 0,
            forall|c: GlacisCounter| #[trigger] res.registry_view().counter_keys()[counter_slot(c)] == counter_name(c),
            res.registry_view().histogram_keys()[0] == "glacis_request_latency_seconds"@,
            res.latency_of().total_count() == 0,
            res.latency_of().total_sum() == 0,
            res.registry_view().gauge_keys()[0] == "glacis_active_sessions"@,
            res.sessions_of().level() == 0,
    {
        let mut registry = MetricsRegistry::new();
        proof {
            reveal_strlit("glacis_requests_total");
            reveal_strlit("glacis_requests_errors_total");
            reveal_strlit("glacis_coverage_computations_total");
            reveal_strlit("glacis_gap_analyses_total");
            reveal_strlit("glacis_conflict_resolutions_total");
            reveal_strlit("glacis_cache_hits_total");
            reveal_strlit("glacis_cache_misses_total");
            reveal_strlit("glacis_receipts_minted_total");
            reveal_strlit("glacis_receipts_verified_total");
        }
        let names: [&str; 9] = [
            "glacis_requests_total",
            "glacis_requests_errors_total",
            "glacis_coverage_computations_total",
            "glacis_gap_analyses_total",
            "glacis_conflict_resolutions_total",
            "glacis_cache_hits_total",
            "glacis_cache_misses_total",
            "glacis_receipts_minted_total",
            "glacis_receipts_verified_total",
        ];
        let ghost expected: Seq<Seq<char>> = seq![
            counter_name(GlacisCounter::RequestsTotal),
            counter_name(GlacisCounter::RequestsErrors),
            counter_name(GlacisCounter::CoverageComputations),
            counter_name(GlacisCounter::GapAnalyses),
            counter_name(GlacisCounter::ConflictResolutions),
            counter_name(GlacisCounter::CacheHits),
            counter_name(GlacisCounter::CacheMisses),
            counter_name(GlacisCounter::ReceiptsMinted),
            counter_name(GlacisCounter::ReceiptsVerified),
        ];
        assert(forall|i: int| 0 <= i < 9 ==> names@[i]@ == #[trigger] expected[i]);
        proof {
            lemma_counter_names_distinct();
            let slots: Seq<GlacisCounter> = seq![
                GlacisCounter::RequestsTotal,
                GlacisCounter::RequestsErrors,
                GlacisCounter::CoverageComputations,
                GlacisCounter::GapAnalyses,
                GlacisCounter::ConflictResolutions,
                GlacisCounter::CacheHits,
                GlacisCounter::CacheMisses,
                GlacisCounter::ReceiptsMinted,
                GlacisCounter::ReceiptsVerified,
            ];
            assert forall|i: int| 0 <= i < 9 implies #[trigger] expected[i] == counter_name(slots[i]) && counter_slot(slots[i]) == i by {}
            assert forall|i: int, j: int| 0 <= i < 9 && 0 <= j < 9 && i != j implies expected[i] != expected[j] by {
                assert(expected[i] == counter_name(slots[i]));
                assert(expected[j] == counter_name(slots[j]));
                assert(slots[i] != slots[j]);
            }
        }
        assert(keys_unique(expected));
        let mut i: usize = 0;
        while i < 9
            invariant
                i <= 9,
                names@.len() == 9,
                expected.len() == 9,
                forall|j: int| 0 <= j < 9 ==> names@[j]@ == #[trigger] expected[j],
                keys_unique(expected),
                registry.unique_keys(),
                registry.counter_keys() == expected.take(i as int),
                registry.counter_seq().len() == i,
                forall|j: int| 0 <= j < i ==> (#[trigger] registry.counter_seq()[j]).count() == 0,
                registry.gauge_seq().len() == 0,
                registry.histogram_seq().len() == 0,
            decreases 9 - i,
        {
            let ghost before = registry.counter_keys();
            let ghost before_seq = registry.counter_seq();
            proof {
                assert(metric_key(names@[i as int]@, Seq::<Label>::empty()) == expected[i as int]);
                assert forall|j: int| 0 <= j < before.len() implies before[j] != expected[i as int] by {
                    assert(before[j] == expected.take(i as int)[j]);
                    assert(before[j] == expected[j]);
                }
                assert(!before.contains(expected[i as int]));
            }
            let h = registry.counter(names[i], Vec::new());
            proof {
                assert(registry.counter_keys() =~= expected.take(i + 1));
                assert forall|j: int| 0 <= j < i + 1 implies (#[trigger] registry.counter_seq()[j]).count() == 0 by {
                    if j < i {
                        assert(registry.counter_seq().take(i as int)[j] == before_seq[j]);
                    }
                }
            }
            i = i + 1;
        }
        proof {
            reveal_strlit("glacis_request_latency_seconds");
            reveal_strlit("glacis_active_sessions");
        }
        let _latency = registry.histogram("glacis_request_latency_seconds", Vec::new());
        let _sessions = registry.gauge("glacis_active_sessions", Vec::new());
        let res = GlacisMetrics { registry };
        assert(forall|c: GlacisCounter| res.registry_view().counter_keys()[counter_slot(c)] == #[trigger] counter_name(c));
        res
    }

    /// The registry that holds the metrics.
    pub fn registry(&self) -> (res: &MetricsRegistry)
        ensures
            *res == self.registry_view(),
    {
        &self.registry
    }

    /// The predefined counter `c`.
    pub fn counter(&self, c: GlacisCounter) -> (res: &Counter)
        requires
            self.wf(),
        ensures
            *res == self.counter_of(c),
    {
        self.registry.counter_at(counter_slot_exec(c))
    }

    /// Adds `n` to the predefined counter `c`.
    pub fn inc_by(&mut self, c: GlacisCounter, n: u64)
        requires
            old(self).wf(),
        ensures
            final(self).wf(),
            final(self).counter_of(c).count() == wrapping_sum(old(self).counter_of(c).count(), n),
            forall|d: GlacisCounter| d != c ==> #[trigger] final(self).counter_of(d) == old(self).counter_of(d),
            final(self).latency_of() == old(self).latency_of(),
            final(self).sessions_of() == old(self).sessions_of(),
    {
        self.registry.inc_counter_by(counter_slot_exec(c), n);
        assert(forall|d: GlacisCounter| d != c ==> counter_slot(d) != #[trigger] counter_slot(c));
    }

    /// Adds one to the predefined counter `c`.
    pub fn inc(&mut self, c: GlacisCounter)
        requires
            old(self).wf(),
        ensures
            final(self).wf(),
            final(self).counter_of(c).count() == wrapping_sum(old(self).counter_of(c).count(), 1),
            forall|d: GlacisCounter| d != c ==> #[trigger] final(self).counter_of(d) == old(self).counter_of(d),
            final(self).latency_of() == old(self).latency_of(),
            final(self).sessions_of() == old(self).sessions_of(),
    {
        self.inc_by(c, 1);
    }

    /// The request latency histogram.
    pub fn request_latency(&self) -> (res: &Histogram)
        requires
            self.wf(),
        ensures
            *res == self.latency_of(),
    {
        self.registry.histogram_at(0)
    }

    /// The active sessions gauge.
    pub fn active_sessions(&self) -> (res: &Gauge)
        requires
            self.wf(),
        ensures
            *res == self.sessions_of(),
    {
        self.registry.gauge_at(0)
    }

    /// Sets the active sessions gauge.
    pub fn set_active_sessions(&mut self, value: u64)
        requires
            old(self).wf(),
        ensures
            final(self).wf(),
            final(self).sessions_of().level() == value,
            forall|d: GlacisCounter| #[trigger] final(self).counter_of(d) == old(self).counter_of(d),
            final(self).latency_of() == old(self).latency_of(),
    {
        self.registry.set_gauge(0, value);
    }

    /// Records a successful request that took `duration_micros`.
    pub fn record_request(&mut self, duration_micros: u64)
        requires
            old(self).wf(),
        ensures
            final(self).wf(),
            final(self).counter_of(GlacisCounter::RequestsTotal).count()
                == wrapping_sum(old(self).counter_of(GlacisCounter::RequestsTotal).count(), 1),
            forall|d: GlacisCounter| d != GlacisCounter::RequestsTotal ==>
                #[trigger] final(self).counter_of(d) == old(self).counter_of(d),
            final(self).latency_of().bucket_seq() == observed_buckets(old(self).latency_of().bucket_seq(), duration_micros),
            final(self).latency_of().total_sum() == wrapping_sum(old(self).latency_of().total_sum(), duration_micros),
            final(self).latency_of().total_count() == wrapping_sum(old(self).latency_of().total_count(), 1),
            final(self).sessions_of() == old(self).sessions_of(),
    {
        self.inc(GlacisCounter::RequestsTotal);
        let ghost mid = *self;
        self.registry.observe(0, duration_micros);
        assert forall|d: GlacisCounter| d != GlacisCounter::RequestsTotal implies
            #[trigger] self.counter_of(d) == old(self).counter_of(d) by {
            assert(mid.counter_of(d) == old(self).counter_of(d));
        }
    }

    /// Records a failed request.
    pub fn record_error(&mut self)
        requires
            old(self).wf(),
        ensures
            final(self).wf(),
            final(self).counter_of(GlacisCounter::RequestsErrors).count()
                == wrapping_sum(old(self).counter_of(GlacisCounter::RequestsErrors).count(), 1),
            forall|d: GlacisCounter| d != GlacisCounter::RequestsErrors ==>
                #[trigger] final(self).counter_of(d) == old(self).counter_of(d),
            final(self).latency_of() == old(self).latency_of(),
            final(self).sessions_of() == old(self).sessions_of(),
    {
        self.inc(GlacisCounter::RequestsErrors);
    }
}

/// The predefined counters have pairwise different names.
pub proof fn lemma_counter_names_distinct()
    ensures
        forall|c: GlacisCounter, d: GlacisCounter| c != d ==> counter_name(c) != counter_name(d),
{
    reveal_strlit("glacis_requests_total");
    reveal_strlit("glacis_requests_errors_total");
    reveal_strlit("glacis_coverage_computations_total");
    reveal_strlit("glacis_gap_analyses_total");
    reveal_strlit("glacis_conflict_resolutions_total");
    reveal_strlit("glacis_cache_hits_total");
    reveal_strlit("glacis_cache_misses_total");
    reveal_strlit("glacis_receipts_minted_total");
    reveal_strlit("glacis_receipts_verified_total");
    assert forall|c: GlacisCounter, d: GlacisCounter| c != d implies counter_name(c) != counter_name(d) by {
        if counter_name(c).len() == counter_name(d).len() {
            assert(counter_name(c)[7] != counter_name(d)[7] || counter_name(c)[9] != counter_name(d)[9]);
        }
    }
}

/// `num * span / den` stays within `span` when `num <= den`, and the
/// product fits in 128 bits when its factors fit in 64.
proof fn lemma_scaled_fits(num: int, den: int, span: int)
    requires
        0 <= num <= den,
        0 < den <= u64::MAX,
        0 <= span <= u64::MAX,
    ensures
        num * span <= u128::MAX,
        num * span / den <= span,
{
    assert(num * span <= den * span) by (nonlinear_arith)
        requires 0 <= num <= den, 0 <= span;
    assert(den * span <= u64::MAX * u64::MAX) by (nonlinear_arith)
        requires 0 < den <= u64::MAX, 0 <= span <= u64::MAX;
    assert(num * span / den <= span) by (nonlinear_arith)
        requires num * span <= den * span, den > 0, num >= 0, span >= 0;
}

impl Default for GlacisMetrics {
    /// The standard metrics, all at zero.
    fn default() -> (res: Self)
        ensures
            res.wf(),
            forall|c: GlacisCounter| #[trigger] res.counter_of(c).count() == 0,
            res.latency_of().total_count() == 0,
            res.sessions_of().level() == 0,
    {
        GlacisMetrics::new()
    }
}

} // verus!
