//! Fixed-memory streaming percentile estimation.
//!
//! [`Histogram`] is a frequency counter over `NUM_BUCKETS` equal-width
//! buckets covering `[0, max)`; it supports the two inverse order-statistic
//! queries value-at-percentile ([`Histogram::percentile`]) and
//! percentile-of-value ([`Histogram::get_percentile`], a ten-step bisection).
//! [`RunningHistogram`] keeps a sliding window of up to `MAX_SNAPSHOTS`
//! histogram snapshots so that answers track the recent population rather
//! than all history.
//!
//! All sample values are fixed-point integers (see [`crate::VALUE_SCALE`]);
//! percentile ranks are in ticks of a thousandth of a percentile point
//! (see [`crate::PCT_SCALE`]).

use vstd::prelude::*;
use crate::PCT_FULL;

verus! {

/// Number of buckets in every histogram snapshot.
pub const NUM_BUCKETS: usize = 10_000;

/// Mathematical model of a [`Histogram`]: the bucket counts, the exclusive
/// upper bound of the covered value range, and the number of recorded
/// samples.
pub ghost struct HistView {
    pub counts: Seq<u64>,
    pub max: u64,
    pub total: u64,
}

impl View for Histogram {
    type V = HistView;

    closed spec fn view(&self) -> HistView {
        HistView { counts: self.counts@, max: self.max, total: self.total }
    }
}

/// Sum of the first `k` bucket counts.
pub open spec fn cum(s: Seq<u64>, k: int) -> int
    decreases k,
{
    if k <= 0 {
        0
    } else {
        cum(s, k - 1) + s[k - 1]
    }
}

/// A histogram model is well formed when it has exactly `NUM_BUCKETS`
/// buckets and `total` is the sum of all bucket counts.
pub open spec fn hist_wf(h: HistView) -> bool {
    &&& h.counts.len() == NUM_BUCKETS
    &&& h.total == cum(h.counts, NUM_BUCKETS as int)
}

/// The bucket a value falls into: `floor(v * NUM_BUCKETS / max)`, clamped to
/// the last bucket for values at or beyond `max`. A degenerate histogram
/// with `max == 0` sends every positive value to the last bucket.
pub open spec fn bucket_of(v: u64, max: u64) -> int {
    if max == 0 {
        if v == 0 {
            0
        } else {
            NUM_BUCKETS as int - 1
        }
    } else if v >= max {
        NUM_BUCKETS as int - 1
    } else {
        v as int * NUM_BUCKETS as int / max as int
    }
}

/// The lower boundary value of bucket `b`: `floor(b * max / NUM_BUCKETS)`.
pub open spec fn bucket_boundary(max: u64, b: int) -> u64 {
    (b * max as int / NUM_BUCKETS as int) as u64
}

/// Model of a fresh histogram over `[0, max)`: all counts zero.
pub open spec fn hist_new(max: u64) -> HistView {
    HistView { counts: Seq::new(NUM_BUCKETS as nat, |i: int| 0u64), max, total: 0 }
}

/// Model of recording one sample: the count of the sample's bucket rises by
/// one. Once `u64::MAX` samples have been recorded further samples are
/// dropped rather than overflowing a counter.
pub open spec fn hist_insert(h: HistView, v: u64) -> HistView {
    if h.total == u64::MAX {
        h
    } else {
        let b = bucket_of(v, h.max);
        HistView {
            counts: h.counts.update(b, (h.counts[b] + 1) as u64),
            max: h.max,
            total: (h.total + 1) as u64,
        }
    }
}

/// The cumulative count a percentile query must reach:
/// `ceil(total * p / PCT_FULL)`.
pub open spec fn needed_rank(total: u64, p: u64) -> int {
    (total as int * p as int + (PCT_FULL as int - 1)) / PCT_FULL as int
}

/// The first bucket at or after `b` whose cumulative count reaches `need`,
/// or the last bucket if none does.
pub open spec fn first_bucket(s: Seq<u64>, need: int, b: int) -> int
    decreases NUM_BUCKETS as int - b,
{
    if b >= NUM_BUCKETS as int - 1 {
        NUM_BUCKETS as int - 1
    } else if cum(s, b + 1) >= need {
        b
    } else {
        first_bucket(s, need, b + 1)
    }
}

/// The value a percentile query returns: the boundary of the first bucket
/// whose cumulative count reaches the needed rank.
pub open spec fn hist_percentile(h: HistView, p: u64) -> u64 {
    bucket_boundary(h.max, first_bucket(h.counts, needed_rank(h.total, p), 0))
}

/// Ten-step bisection of the percentile range `[lower, upper]`, probing the
/// value at the midpoint each round; mirrors [`Histogram::get_percentile`].
pub open spec fn bisect(h: HistView, v: u64, lower: u64, upper: u64, mid: u64, k: nat) -> u64
    decreases k,
{
    if k == 0 {
        mid
    } else if hist_percentile(h, mid) > v {
        bisect(h, v, lower, mid, ((lower + mid) / 2) as u64, (k - 1) as nat)
    } else {
        bisect(h, v, mid, upper, ((mid + upper) / 2) as u64, (k - 1) as nat)
    }
}

/// The percentile rank assigned to a value: bisection over the full range,
/// to a resolution of `PCT_FULL / 1024` (about a tenth of a point).
pub open spec fn hist_rank(h: HistView, v: u64) -> u64 {
    bisect(h, v, 0, PCT_FULL, (PCT_FULL / 2) as u64, 10)
}

proof fn lemma_cum_nonneg(s: Seq<u64>, k: int)
    ensures
        cum(s, k) >= 0,
    decreases k,
{
    if k > 0 {
        lemma_cum_nonneg(s, k - 1);
    }
}

proof fn lemma_cum_mono(s: Seq<u64>, j: int, k: int)
    requires
        j <= k,
    ensures
        cum(s, j) <= cum(s, k),
    decreases k - j,
{
    if j < k {
        lemma_cum_mono(s, j, k - 1);
    }
}

/// Updating one entry shifts every cumulative sum past it by the difference.
proof fn lemma_cum_update(s: Seq<u64>, i: int, x: u64, k: int)
    requires
        0 <= i < s.len(),
        k <= s.len(),
    ensures
        cum(s.update(i, x), k) == cum(s, k) + (if i < k {
            x - s[i]
        } else {
            0
        }),
    decreases k,
{
    if k > 0 {
        lemma_cum_update(s, i, x, k - 1);
    }
}

proof fn lemma_cum_zeros(k: int)
    requires
        k <= NUM_BUCKETS as int,
    ensures
        cum(Seq::new(NUM_BUCKETS as nat, |i: int| 0u64), k) == 0,
    decreases k,
{
    if k > 0 {
        lemma_cum_zeros(k - 1);
    }
}

/// Each single bucket count is bounded by the total over all buckets.
proof fn lemma_count_le_cum(s: Seq<u64>, i: int, k: int)
    requires
        0 <= i < k <= s.len(),
    ensures
        s[i] <= cum(s, k),
    decreases k,
{
    lemma_cum_nonneg(s, i);
    lemma_cum_mono(s, i + 1, k);
}

/// A fresh histogram is well formed.
pub proof fn lemma_hist_new_wf(max: u64)
    ensures
        hist_wf(hist_new(max)),
{
    lemma_cum_zeros(NUM_BUCKETS as int);
}

/// Inserting preserves well-formedness and the value range.
pub proof fn lemma_hist_insert_wf(h: HistView, v: u64)
    requires
        hist_wf(h),
    ensures
        hist_wf(hist_insert(h, v)),
        hist_insert(h, v).max == h.max,
        hist_insert(h, v).total >= 1,
{
    if h.total != u64::MAX {
        let b = bucket_of(v, h.max);
        lemma_bucket_of_range(v, h.max);
        lemma_count_le_cum(h.counts, b, NUM_BUCKETS as int);
        lemma_cum_update(h.counts, b, (h.counts[b] + 1) as u64, NUM_BUCKETS as int);
    } else {
        lemma_count_le_cum(h.counts, 0, NUM_BUCKETS as int);
    }
}

/// The bucket index is always within range.
pub proof fn lemma_bucket_of_range(v: u64, max: u64)
    ensures
        0 <= bucket_of(v, max) < NUM_BUCKETS as int,
{
    if max != 0 && v < max {
        assert(v as int * NUM_BUCKETS as int / max as int >= 0) by (nonlinear_arith)
            requires
                max > 0,
                v >= 0;
        assert((v as int * NUM_BUCKETS as int / max as int) < NUM_BUCKETS as int) by (nonlinear_arith)
            requires
                0 <= (v as int) && (v as int) < (max as int);
    }
}

/// A histogram of per-metric combat samples over the fixed value range
/// `[0, max)`. Values are fixed-point integers; a value at or beyond `max`
/// is clamped into the last bucket, never rejected.
pub struct Histogram {
    counts: Vec<u64>,
    max: u64,
    total: u64,
}

impl Histogram {
    /// Create a histogram covering `[0, max)` with `NUM_BUCKETS` empty
    /// buckets, each `max / NUM_BUCKETS` wide.
    pub fn new(max: u64) -> (h: Histogram)
        ensures
            h@ == hist_new(max),
            hist_wf(h@),
    {
        proof {
            lemma_hist_new_wf(max);
        }
        let counts: Vec<u64> = vec![0u64; NUM_BUCKETS];
        let h = Histogram { counts, max, total: 0 };
        proof {
            assert(h@.counts =~= hist_new(max).counts);
        }
        h
    }

    /// The width of one bucket, `max / NUM_BUCKETS` (rounded down).
    pub fn bucket_size(&self) -> (w: u64)
        ensures
            w == self@.max / NUM_BUCKETS as u64,
    {
        self.max / (NUM_BUCKETS as u64)
    }

    /// The number of samples recorded so far.
    pub fn total(&self) -> (t: u64)
        ensures
            t == self@.total,
    {
        self.total
    }

    /// The count currently held by bucket `i`.
    pub fn bucket_count(&self, i: usize) -> (c: u64)
        requires
            i < NUM_BUCKETS,
            hist_wf(self@),
        ensures
            c == self@.counts[i as int],
    {
        self.counts[i]
    }

    /// The bucket `value` falls into.
    fn bucket_index(value: u64, max: u64) -> (b: usize)
        ensures
            b as int == bucket_of(value, max),
            b < NUM_BUCKETS,
    {
        proof {
            lemma_bucket_of_range(value, max);
        }
        if max == 0 {
            if value == 0 {
                0
            } else {
                NUM_BUCKETS - 1
            }
        } else if value >= max {
            NUM_BUCKETS - 1
        } else {
            let q: u128 = (value as u128) * (NUM_BUCKETS as u128) / (max as u128);
            proof {
                assert(q == value as int * NUM_BUCKETS as int / max as int) by (nonlinear_arith)
                    requires
                        q == (value as u128) as int * (NUM_BUCKETS as u128) as int / (max
                            as u128) as int,
                        max > 0;
            }
            q as usize
        }
    }

    /// Record one sample: the count of the sample's bucket rises by one.
    /// Never fails; out-of-range values land in the last bucket.
    pub fn increment(&mut self, value: u64)
        requires
            hist_wf(old(self)@),
        ensures
            final(self)@ == hist_insert(old(self)@, value),
            hist_wf(final(self)@),
    {
        proof {
            lemma_hist_insert_wf(self@, value);
        }
        if self.total == u64::MAX {
            return ;
        }
        let b = Self::bucket_index(value, self.max);
        proof {
            lemma_count_le_cum(self@.counts, b as int, NUM_BUCKETS as int);
        }
        let c = self.counts[b];
        self.counts[b] = c + 1;
        self.total = self.total + 1;
    }

    /// The value standing at cumulative-count rank `p` (in `PCT_SCALE`
    /// ticks): the lower boundary of the first bucket whose cumulative count
    /// reaches `ceil(total * p / PCT_FULL)`. Fails exactly when no sample
    /// has been recorded yet.
    pub fn percentile(&self, p: u64) -> (r: Result<u64, &'static str>)
        requires
            hist_wf(self@),
            p <= PCT_FULL,
        ensures
            r is Ok <==> self@.total > 0,
            self@.total > 0 ==> (r matches Ok(v) && v == hist_percentile(self@, p)),
    {
        if self.total == 0 {
            return Err("histogram holds no samples");
        }
        proof {
            assert((self.total as int * p as int) < u128::MAX as int) by (nonlinear_arith)
                requires
                    0 <= self.total <= u64::MAX,
                    0 <= p <= PCT_FULL;
        }
        let n128: u128 = (self.total as u128) * (p as u128);
        proof {
            assert((self.total as int * p as int + (PCT_FULL as int - 1)) / (PCT_FULL as int)
                <= self.total as int) by (nonlinear_arith)
                requires
                    self.total >= 0,
                    0 <= p <= PCT_FULL;
        }
        let need128: u128 = (n128 + (PCT_FULL as u128 - 1)) / (PCT_FULL as u128);
        let need: u64 = need128 as u64;
        proof {
            assert(need as int == needed_rank(self@.total, p));
        }
        let mut b: usize = 0;
        let mut acc: u64 = self.counts[0];
        proof {
            assert(cum(self@.counts, 0) == 0);
            assert(acc == cum(self@.counts, 1));
        }
        while acc < need && b < NUM_BUCKETS - 1
            invariant
                hist_wf(self@),
                b < NUM_BUCKETS,
                acc == cum(self@.counts, b as int + 1),
                first_bucket(self@.counts, need as int, 0) == first_bucket(
                    self@.counts,
                    need as int,
                    b as int,
                ),
                need <= self@.total,
            decreases NUM_BUCKETS - b,
        {
            proof {
                lemma_cum_mono(self@.counts, b as int + 2, NUM_BUCKETS as int);
                lemma_cum_nonneg(self@.counts, b as int + 1);
            }
            b = b + 1;
            let c = self.counts[b];
            acc = acc + c;
        }
        proof {
            assert(first_bucket(self@.counts, need as int, b as int) == b as int);
            assert((b as int * self.max as int) <= 9999 * u64::MAX) by (nonlinear_arith)
                requires
                    b <= 9999,
                    self.max <= u64::MAX;
            assert((b as int * self.max as int / (NUM_BUCKETS as int)) <= self.max as int)
                by (nonlinear_arith)
                requires
                    0 <= b <= 9999,
                    self.max >= 0,
                    NUM_BUCKETS == 10000;
        }
        let v128: u128 = (b as u128) * (self.max as u128) / (NUM_BUCKETS as u128);
        Ok(v128 as u64)
    }

    /// The percentile rank (in `PCT_SCALE` ticks) assigned to `value`:
    /// ten rounds of bisection over `[0, PCT_FULL]`, probing the
    /// value-at-percentile of each midpoint. Resolution is about a tenth of
    /// a percentile point. Fails exactly when no sample has been recorded.
    pub fn get_percentile(&self, value: u64) -> (r: Result<u64, &'static str>)
        requires
            hist_wf(self@),
        ensures
            r is Ok <==> self@.total > 0,
            self@.total > 0 ==> (r matches Ok(p) && p == hist_rank(self@, value) && p
                <= PCT_FULL),
    {
        if self.total == 0 {
            return Err("histogram holds no samples");
        }
        let mut lower: u64 = 0;
        let mut upper: u64 = PCT_FULL;
        let mut mid: u64 = PCT_FULL / 2;
        let mut i: usize = 0;
        while i < 10
            invariant
                hist_wf(self@),
                self@.total > 0,
                i <= 10,
                lower <= mid <= upper,
                upper <= PCT_FULL,
                bisect(self@, value, lower, upper, mid, (10 - i) as nat) == hist_rank(
                    self@,
                    value,
                ),
            decreases 10 - i,
        {
            let xr = self.percentile(mid);
            let x: u64;
            match xr {
                Ok(v) => {
                    x = v;
                },
                Err(_) => {
                    proof {
                        assert(false);
                    }
                    x = 0;
                },
            }
            if x > value {
                upper = mid;
                mid = (lower + upper) / 2;
            } else {
                lower = mid;
                mid = (lower + upper) / 2;
            }
            i = i + 1;
        }
        Ok(mid)
    }
}

/// Bisection never leaves the bracketing interval.
pub proof fn lemma_bisect_bounds(h: HistView, v: u64, lower: u64, upper: u64, mid: u64, k: nat)
    requires
        lower <= mid <= upper,
    ensures
        lower <= bisect(h, v, lower, upper, mid, k) <= upper,
    decreases k,
{
    if k > 0 {
        if hist_percentile(h, mid) > v {
            lemma_bisect_bounds(h, v, lower, mid, ((lower + mid) / 2) as u64, (k - 1) as nat);
        } else {
            lemma_bisect_bounds(h, v, mid, upper, ((mid + upper) / 2) as u64, (k - 1) as nat);
        }
    }
}

/// A percentile rank is always within the full `[0, PCT_FULL]` range.
pub proof fn lemma_hist_rank_range(h: HistView, v: u64)
    ensures
        hist_rank(h, v) <= PCT_FULL,
{
    lemma_bisect_bounds(h, v, 0, PCT_FULL, (PCT_FULL / 2) as u64, 10);
}

/// In a histogram holding exactly one sample, every positive percentile
/// query answers with the boundary of that sample's bucket.
proof fn lemma_single_percentile(max: u64, v: u64, p: u64)
    requires
        1 <= p <= PCT_FULL,
    ensures
        hist_percentile(hist_insert(hist_new(max), v), p) == bucket_boundary(
            max,
            bucket_of(v, max),
        ),
{
    let h = hist_insert(hist_new(max), v);
    let zeros = hist_new(max).counts;
    let b0 = bucket_of(v, max);
    lemma_bucket_of_range(v, max);
    assert(h.counts =~= zeros.update(b0, 1u64));
    assert forall|k: int| 0 <= k <= NUM_BUCKETS as int implies cum(h.counts, k) == (if k <= b0 {
        0int
    } else {
        1int
    }) by {
        lemma_cum_zeros(k);
        lemma_cum_update(zeros, b0, 1u64, k);
    }
    vstd::arithmetic::div_mod::lemma_fundamental_div_mod(p as int + (PCT_FULL as int - 1),
        PCT_FULL as int);
    vstd::arithmetic::div_mod::lemma_mod_division_less_than_divisor(p as int + (PCT_FULL as int
        - 1), PCT_FULL as int);
    assert(needed_rank(h.total, p) == 1);
    lemma_fb_single(h.counts, b0, 0);
}

/// Walking the buckets of a one-sample histogram from anywhere at or before
/// the occupied bucket first reaches rank one exactly there.
proof fn lemma_fb_single(c: Seq<u64>, b0: int, b: int)
    requires
        c.len() == NUM_BUCKETS,
        0 <= b <= b0 < NUM_BUCKETS as int,
        forall|k: int| 0 <= k <= NUM_BUCKETS as int ==> cum(c, k) == (if k <= b0 {
            0int
        } else {
            1int
        }),
    ensures
        first_bucket(c, 1, b) == b0,
    decreases b0 - b,
{
    if b < b0 {
        assert(cum(c, b + 1) == 0);
        lemma_fb_single(c, b0, b + 1);
    }
}

/// When every probe of the bisection answers at or below the queried value,
/// the bisection walks monotonically upward inside its interval.
proof fn lemma_bisect_low(h: HistView, v: u64, b: u64, lower: u64, upper: u64, mid: u64, k: nat)
    requires
        1 <= mid <= upper <= PCT_FULL,
        lower <= mid,
        b <= v,
        forall|p: u64| 1 <= p <= PCT_FULL ==> hist_percentile(h, p) == b,
    ensures
        mid <= bisect(h, v, lower, upper, mid, k) <= upper,
    decreases k,
{
    if k > 0 {
        assert(hist_percentile(h, mid) == b);
        lemma_bisect_low(h, v, b, mid, upper, ((mid + upper) / 2) as u64, (k - 1) as nat);
    }
}

/// Maximum number of live snapshots in a [`RunningHistogram`] window.
pub const MAX_SNAPSHOTS: usize = 10;

/// Floor of the refresh interval: a new snapshot is opened at least every
/// `max(database_size / 10, MIN_REFRESH_INTERVAL)` samples.
pub const MIN_REFRESH_INTERVAL: u64 = 1_000;

/// The refresh interval derived from a database-size estimate.
pub open spec fn refresh_target(n: u64) -> u64 {
    if n / 10 > MIN_REFRESH_INTERVAL {
        (n / 10) as u64
    } else {
        MIN_REFRESH_INTERVAL
    }
}

/// Mathematical model of a [`RunningHistogram`]: the window of snapshot
/// models (oldest first), the largest value seen, the refresh interval and
/// the samples taken since the last refresh.
pub ghost struct RunHistView {
    pub snaps: Seq<HistView>,
    pub max_seen: u64,
    pub target: u64,
    pub samples: u64,
}

impl View for RunningHistogram {
    type V = RunHistView;

    closed spec fn view(&self) -> RunHistView {
        RunHistView {
            snaps: self.histograms@.map_values(|h: Histogram| h@),
            max_seen: self.max_value,
            target: self.target_refresh_interval,
            samples: self.samples_since_refresh,
        }
    }
}

/// A running-histogram model is well formed when the window holds at most
/// `MAX_SNAPSHOTS` snapshots, each snapshot is well formed and has received
/// at least one sample, the refresh interval respects its floor, and the
/// sample counter has room to grow.
pub open spec fn rh_wf(r: RunHistView) -> bool {
    &&& r.snaps.len() <= MAX_SNAPSHOTS
    &&& forall|i: int|
        0 <= i < r.snaps.len() ==> hist_wf(#[trigger] r.snaps[i]) && r.snaps[i].total >= 1
    &&& r.target >= MIN_REFRESH_INTERVAL
    &&& r.samples < u64::MAX
}

/// Model of a fresh running histogram: no snapshots (the cold state).
pub open spec fn rh_new(max_value: u64) -> RunHistView {
    RunHistView {
        snaps: Seq::empty(),
        max_seen: max_value,
        target: MIN_REFRESH_INTERVAL,
        samples: 0,
    }
}

/// Model of recording one sample: the largest value seen grows if needed;
/// when the window is cold or the refresh interval has elapsed, a new
/// snapshot over `[0, max_seen)` is appended and the oldest beyond
/// `MAX_SNAPSHOTS` evicted; finally the sample lands in every live
/// snapshot, including a freshly appended one.
pub open spec fn rh_insert(r: RunHistView, v: u64) -> RunHistView {
    let max2 = if v > r.max_seen {
        v
    } else {
        r.max_seen
    };
    let refresh = r.snaps.len() == 0 || r.samples + 1 >= r.target;
    let window = if refresh {
        let pushed = r.snaps.push(hist_new(max2));
        if pushed.len() > MAX_SNAPSHOTS {
            pushed.remove(0)
        } else {
            pushed
        }
    } else {
        r.snaps
    };
    RunHistView {
        snaps: Seq::new(window.len(), |i: int| hist_insert(window[i], v)),
        max_seen: max2,
        target: r.target,
        samples: if refresh {
            0
        } else {
            (r.samples + 1) as u64
        },
    }
}

/// The rank a running histogram assigns to a value: the answer of the
/// oldest (most statistically mature) snapshot, or zero in the cold state.
pub open spec fn rh_percentile(r: RunHistView, v: u64) -> u64 {
    if r.snaps.len() == 0 {
        0
    } else {
        hist_rank(r.snaps[0], v)
    }
}

/// A bounded sliding window of up to `MAX_SNAPSHOTS` histogram snapshots
/// for one (ship, metric) key. Every sample lands in all live snapshots;
/// queries answer from the oldest one; a new snapshot is opened (and the
/// oldest evicted) every `target_refresh_interval` samples so that the
/// window tracks the recent population and the current value range.
pub struct RunningHistogram {
    histograms: Vec<Histogram>,
    /// Largest sample seen so far; fixes the value range of future
    /// snapshots (existing snapshots keep their creation-time range).
    pub max_value: u64,
    target_refresh_interval: u64,
    samples_since_refresh: u64,
}

impl RunningHistogram {
    /// A cold running histogram; `max_value` seeds the value range of the
    /// first snapshot and grows as larger samples arrive.
    pub fn new(max_value: u64) -> (r: RunningHistogram)
        ensures
            r@ == rh_new(max_value),
            rh_wf(r@),
    {
        let r = RunningHistogram {
            histograms: Vec::new(),
            max_value,
            target_refresh_interval: MIN_REFRESH_INTERVAL,
            samples_since_refresh: 0,
        };
        proof {
            assert(r@.snaps =~= rh_new(max_value).snaps);
        }
        r
    }

    /// Number of live snapshots; never exceeds `MAX_SNAPSHOTS`.
    pub fn snapshot_count(&self) -> (n: usize)
        ensures
            n == self@.snaps.len(),
    {
        self.histograms.len()
    }

    /// The current refresh interval.
    pub fn target_refresh_interval(&self) -> (t: u64)
        ensures
            t == self@.target,
    {
        self.target_refresh_interval
    }

    /// Record one sample into the window.
    pub fn increment(&mut self, value: u64)
        requires
            rh_wf(old(self)@),
        ensures
            final(self)@ == rh_insert(old(self)@, value),
            rh_wf(final(self)@),
            final(self)@.snaps.len() <= MAX_SNAPSHOTS,
    {
        self.samples_since_refresh = self.samples_since_refresh + 1;
        if value > self.max_value {
            self.max_value = value;
        }
        let need_refresh = self.histograms.len() == 0 || self.samples_since_refresh
            >= self.target_refresh_interval;
        if need_refresh {
            self.histograms.push(Histogram::new(self.max_value));
            if self.histograms.len() > MAX_SNAPSHOTS {
                self.histograms.remove(0);
            }
            self.samples_since_refresh = 0;
        }
        let ghost window = self.histograms@;
        let ghost oldsnaps = old(self)@.snaps;
        let ghost max2 = self.max_value;
        let ghost expected = rh_insert(old(self)@, value);
        let ghost newsnaps = if need_refresh {
            let pushed = oldsnaps.push(hist_new(max2));
            if pushed.len() > MAX_SNAPSHOTS {
                pushed.remove(0)
            } else {
                pushed
            }
        } else {
            oldsnaps
        };
        proof {
            assert(window.map_values(|h: Histogram| h@) =~= newsnaps);
            lemma_hist_new_wf(max2);
            assert forall|i: int| 0 <= i < newsnaps.len() implies hist_wf(
                #[trigger] newsnaps[i],
            ) && (newsnaps[i].total >= 1 || newsnaps[i] == hist_new(max2)) by {
                if need_refresh {
                    let pushed = oldsnaps.push(hist_new(max2));
                    if pushed.len() > MAX_SNAPSHOTS {
                        assert(newsnaps[i] == pushed[i + 1]);
                    }
                }
            }
        }
        let mut j: usize = 0;
        while j < self.histograms.len()
            invariant
                j <= self.histograms.len(),
                self.max_value == max2,
                self.target_refresh_interval == old(self).target_refresh_interval,
                self.samples_since_refresh == expected.samples,
                self.histograms@.len() == window.len(),
                window.len() == newsnaps.len(),
                window.map_values(|h: Histogram| h@) == newsnaps,
                forall|i: int| 0 <= i < newsnaps.len() ==> hist_wf(#[trigger] newsnaps[i]),
                forall|i: int| j <= i < window.len() ==> self.histograms@[i] == window[i],
                forall|i: int|
                    0 <= i < j ==> (#[trigger] self.histograms@[i])@ == hist_insert(
                        newsnaps[i],
                        value,
                    ),
            decreases self.histograms.len() - j,
        {
            proof {
                assert(window[j as int]@ == window.map_values(|h: Histogram| h@)[j as int]);
            }
            self.histograms[j].increment(value);
            j = j + 1;
        }
        proof {
            assert forall|i: int| 0 <= i < newsnaps.len() implies hist_wf(
                #[trigger] hist_insert(newsnaps[i], value),
            ) && hist_insert(newsnaps[i], value).total >= 1 by {
                lemma_hist_insert_wf(newsnaps[i], value);
            }
            assert(self@.snaps =~= expected.snaps);
        }
    }

    /// The percentile rank of `value` against the oldest live snapshot;
    /// a cold window answers zero rather than failing.
    pub fn percentile(&self, value: u64) -> (r: Result<u64, &'static str>)
        requires
            rh_wf(self@),
        ensures
            r matches Ok(p) && p == rh_percentile(self@, value) && p <= PCT_FULL,
    {
        if self.histograms.len() == 0 {
            return Ok(0u64);
        }
        proof {
            lemma_hist_rank_range(self@.snaps[0], value);
        }
        match self.histograms[0].get_percentile(value) {
            Ok(p) => Ok(p),
            Err(e) => {
                proof {
                    assert(false);
                }
                Err(e)
            },
        }
    }

    /// Adopt a new database-size estimate: the refresh interval becomes a
    /// tenth of it, floored at `MIN_REFRESH_INTERVAL`. Existing snapshots
    /// are not resized.
    pub fn update_db_size(&mut self, db_size: u64)
        requires
            rh_wf(old(self)@),
        ensures
            final(self)@ == (RunHistView { target: refresh_target(db_size), ..old(self)@ }),
            rh_wf(final(self)@),
    {
        let t = db_size / 10;
        if t > MIN_REFRESH_INTERVAL {
            self.target_refresh_interval = t;
        } else {
            self.target_refresh_interval = MIN_REFRESH_INTERVAL;
        }
    }
}

/// Law: when every positive-percentile probe answers at or below the
/// queried value — as for the largest, or the sole, sample ever recorded —
/// the ten upward bisection rounds land at the top rank, 99.951 points.
pub proof fn lemma_rank_of_top_value(h: HistView, v: u64)
    requires
        forall|p: u64| 1 <= p <= PCT_FULL ==> hist_percentile(h, p) <= v,
    ensures
        hist_rank(h, v) == 99_951,
{
    assert(hist_percentile(h, 50_000) <= v);
    assert(hist_percentile(h, 75_000) <= v);
    assert(hist_percentile(h, 87_500) <= v);
    assert(hist_percentile(h, 93_750) <= v);
    assert(hist_percentile(h, 96_875) <= v);
    assert(hist_percentile(h, 98_437) <= v);
    assert(hist_percentile(h, 99_218) <= v);
    assert(hist_percentile(h, 99_609) <= v);
    assert(hist_percentile(h, 99_804) <= v);
    assert(hist_percentile(h, 99_902) <= v);
    assert(hist_rank(h, v) == bisect(h, v, 50_000, PCT_FULL, 75_000, 9));
    assert(bisect(h, v, 50_000, PCT_FULL, 75_000, 9) == bisect(h, v, 75_000, PCT_FULL, 87_500, 8));
    assert(bisect(h, v, 75_000, PCT_FULL, 87_500, 8) == bisect(h, v, 87_500, PCT_FULL, 93_750, 7));
    assert(bisect(h, v, 87_500, PCT_FULL, 93_750, 7) == bisect(h, v, 93_750, PCT_FULL, 96_875, 6));
    assert(bisect(h, v, 93_750, PCT_FULL, 96_875, 6) == bisect(h, v, 96_875, PCT_FULL, 98_437, 5));
    assert(bisect(h, v, 96_875, PCT_FULL, 98_437, 5) == bisect(h, v, 98_437, PCT_FULL, 99_218, 4));
    assert(bisect(h, v, 98_437, PCT_FULL, 99_218, 4) == bisect(h, v, 99_218, PCT_FULL, 99_609, 3));
    assert(bisect(h, v, 99_218, PCT_FULL, 99_609, 3) == bisect(h, v, 99_609, PCT_FULL, 99_804, 2));
    assert(bisect(h, v, 99_609, PCT_FULL, 99_804, 2) == bisect(h, v, 99_804, PCT_FULL, 99_902, 1));
    assert(bisect(h, v, 99_804, PCT_FULL, 99_902, 1) == bisect(h, v, 99_902, PCT_FULL, 99_951, 0));
}

/// Law: the first sample recorded into a cold running histogram ranks as
/// the highest data point, whatever the seeded value ceiling.
pub proof fn lemma_first_sample_ranks_top(m0: u64, v: u64)
    ensures
        rh_percentile(rh_insert(rh_new(m0), v), v) == 99_951,
{
    let max2 = if v > m0 {
        v
    } else {
        m0
    };
    let rh1 = rh_insert(rh_new(m0), v);
    let h = hist_insert(hist_new(max2), v);
    assert(rh1.snaps.len() == 1 && rh1.snaps[0] == h);

    // The boundary of the sample's bucket never exceeds the sample, in
    // the clamped and degenerate cases included.
    let b = bucket_boundary(max2, bucket_of(v, max2));
    if max2 == 0 {
        assert(b == 0 && v == 0);
    } else if v < max2 {
        lemma_sample_boundary(max2, v);
    } else {
        let nb = NUM_BUCKETS as int;
        let q = (nb - 1) * max2 as int;
        vstd::arithmetic::mul::lemma_mul_inequality(nb - 1, nb, max2 as int);
        vstd::arithmetic::mul::lemma_mul_nonnegative(nb - 1, max2 as int);
        vstd::arithmetic::div_mod::lemma_fundamental_div_mod(q, nb);
        vstd::arithmetic::div_mod::lemma_mod_division_less_than_divisor(q, nb);
        assert(nb * (q / nb) <= q <= nb * max2 as int);
        assert(b <= v);
    }
    assert forall|p: u64| 1 <= p <= PCT_FULL implies hist_percentile(h, p) <= v by {
        lemma_single_percentile(max2, v, p);
    }
    lemma_rank_of_top_value(h, v);
}

/// Law: the sole sample ever recorded in a fresh histogram ranks as the
/// highest data point.
pub proof fn lemma_single_sample_rank(max: u64, v: u64)
    requires
        0 < max,
        v < max,
    ensures
        hist_rank(hist_insert(hist_new(max), v), v) == 99_951,
{
    let h = hist_insert(hist_new(max), v);
    let b = bucket_boundary(max, bucket_of(v, max));
    lemma_sample_boundary(max, v);
    assert forall|p: u64| 1 <= p <= PCT_FULL implies hist_percentile(h, p) <= v by {
        lemma_single_percentile(max, v, p);
    }
    lemma_rank_of_top_value(h, v);
}

/// The boundary of a sample's own bucket sits at or below the sample, and
/// at most one (rounded-up) bucket width below it.
proof fn lemma_sample_boundary(max: u64, v: u64)
    requires
        0 < max,
        v < max,
    ensures
        ({
            let b = bucket_boundary(max, bucket_of(v, max));
            &&& b <= v
            &&& v - b <= (max as int + NUM_BUCKETS as int - 1) / (NUM_BUCKETS as int)
        }),
{
    let b0 = bucket_of(v, max);
    lemma_bucket_of_range(v, max);
    let nb = NUM_BUCKETS as int;
    let t = v as int * nb;
    vstd::arithmetic::mul::lemma_mul_nonnegative(v as int, nb);
    vstd::arithmetic::div_mod::lemma_fundamental_div_mod(t, max as int);
    vstd::arithmetic::div_mod::lemma_mod_division_less_than_divisor(t, max as int);
    assert(b0 == t / max as int);
    // t == max * b0 + (t % max), so  t - max < b0 * max <= t.
    vstd::arithmetic::mul::lemma_mul_is_commutative(max as int, b0);
    let p = b0 * max as int;
    assert((t - max as int) < p && p <= t);
    vstd::arithmetic::mul::lemma_mul_nonnegative(b0, max as int);
    vstd::arithmetic::div_mod::lemma_fundamental_div_mod(p, nb);
    vstd::arithmetic::div_mod::lemma_mod_division_less_than_divisor(p, nb);
    let q = p / nb;
    // p == nb * q + (p % nb), so  nb * q <= p <= nb * q + nb - 1.
    assert(nb * q <= p <= nb * q + nb - 1);
    assert(nb * q <= nb * (v as int));
    assert(q <= v);
    assert(0 <= q <= v);
    let b = bucket_boundary(max, b0);
    assert(b as int == q);
    let wtop = max as int + nb - 1;
    let w = wtop / nb;
    vstd::arithmetic::div_mod::lemma_fundamental_div_mod(wtop, nb);
    vstd::arithmetic::div_mod::lemma_mod_division_less_than_divisor(wtop, nb);
    // nb * w >= wtop - (nb - 1) == max, while nb * (v - q) <= max + nb - 2.
    assert(nb * w >= max);
    assert(nb * (v as int - q) == nb * (v as int) - nb * q) by {
        vstd::arithmetic::mul::lemma_mul_is_distributive_sub(nb, v as int, q);
    }
    assert(nb * (v as int - q) <= max as int + nb - 2);
    assert(v - b <= w) by {
        if v as int - q > w {
            vstd::arithmetic::mul::lemma_mul_inequality(w + 1, v as int - q, nb);
            vstd::arithmetic::mul::lemma_mul_is_commutative(w + 1, nb);
            vstd::arithmetic::mul::lemma_mul_is_distributive_add(nb, w, 1);
            assert(false);
        }
    }
}

/// Law: a sample inserted into a fresh histogram is recovered by asking for
/// the value at its own percentile rank, to within one (rounded-up) bucket
/// width, and never above the sample itself.
pub proof fn lemma_single_sample_round_trip(max: u64, v: u64)
    requires
        0 < max,
        v < max,
    ensures
        ({
            let h = hist_insert(hist_new(max), v);
            let r = hist_percentile(h, hist_rank(h, v));
            &&& r <= v
            &&& v - r <= (max as int + NUM_BUCKETS as int - 1) / (NUM_BUCKETS as int)
        }),
{
    let h = hist_insert(hist_new(max), v);
    let b = bucket_boundary(max, bucket_of(v, max));
    lemma_sample_boundary(max, v);

    // Every positive percentile probe of `h` answers the boundary, so the
    // bisection stays in the upper half and lands on a positive rank.
    assert forall|p: u64| 1 <= p <= PCT_FULL implies hist_percentile(h, p) == b by {
        lemma_single_percentile(max, v, p);
    }
    lemma_bisect_low(h, v, b, 0, PCT_FULL, (PCT_FULL / 2) as u64, 10);
    let r = hist_rank(h, v);
    assert(1 <= r <= PCT_FULL);
    assert(hist_percentile(h, r) == b);
}

} // verus!
