//! Folding histogram samples into Prometheus-style cumulative buckets.
//!
//! A `PrometheusHistogram` keeps, per bucket upper bound, the number of
//! observations whose value (converted into billionths of the canonical
//! unit) is at most the bound, accumulated over every snapshot it has
//! consumed; plus the running sum and count of all observations. Counts are
//! monotone non-decreasing across snapshots, each bucket's count is at most
//! the next one's, and the final (infinite) bucket always equals the total
//! count.

use vstd::arithmetic::mul::lemma_mul_inequality;
use vstd::prelude::*;

use crate::measurement_unit::projection_scale;
use crate::measurement_unit::spec_projection_scale;
use crate::metric::MetricDescription;
use crate::prometheus_settings::spec_strictly_increasing;
use crate::prometheus_settings::PrometheusSettings;
use crate::snapshot::spec_records_sorted;
use crate::snapshot::HistogramSample;
use crate::time::current_millis;

verus! {

/// A bucket's upper bound: a finite value in billionths of the canonical
/// unit, or the implicit final infinity.
#[derive(Clone, Copy, Debug, PartialEq, Eq, Structural)]
pub enum BucketBound {
    Finite(u64),
    Inf,
}

/// Strict order on bucket bounds; infinity is above every finite bound.
pub open spec fn spec_bound_lt(a: BucketBound, b: BucketBound) -> bool {
    match (a, b) {
        (BucketBound::Finite(x), BucketBound::Finite(y)) => x < y,
        (BucketBound::Finite(_), BucketBound::Inf) => true,
        _ => false,
    }
}

/// Does a converted value fall into the cumulative range of a bound?
pub open spec fn spec_le_bound(v: int, bound: BucketBound) -> bool {
    match bound {
        BucketBound::Finite(b) => v <= b,
        BucketBound::Inf => true,
    }
}

/// The value of a record converted into billionths of the canonical unit.
pub open spec fn spec_conv(rec: (u64, u64), scale: u64) -> int {
    rec.0 * scale
}

/// The multiplicity-weighted number of records whose converted value is at
/// most the bound.
pub open spec fn spec_cum_count(records: Seq<(u64, u64)>, scale: u64, bound: BucketBound)
    -> int
    decreases records.len(),
{
    if records.len() == 0 {
        0
    } else {
        spec_cum_count(records.drop_last(), scale, bound) + if spec_le_bound(
            spec_conv(records.last(), scale),
            bound,
        ) {
            records.last().1 as int
        } else {
            0
        }
    }
}

/// The total multiplicity of the records.
pub open spec fn spec_total_count(records: Seq<(u64, u64)>) -> int
    decreases records.len(),
{
    if records.len() == 0 {
        0
    } else {
        spec_total_count(records.drop_last()) + records.last().1 as int
    }
}

/// The multiplicity-weighted sum of the converted record values.
pub open spec fn spec_weighted_sum(records: Seq<(u64, u64)>, scale: u64) -> int
    decreases records.len(),
{
    if records.len() == 0 {
        0
    } else {
        spec_weighted_sum(records.drop_last(), scale) + spec_conv(records.last(), scale)
            * records.last().1 as int
    }
}

pub proof fn lemma_aggregates_nonneg(records: Seq<(u64, u64)>, scale: u64, bound: BucketBound)
    ensures
        0 <= spec_cum_count(records, scale, bound) <= spec_total_count(records),
        0 <= spec_weighted_sum(records, scale),
    decreases records.len(),
{
    if records.len() > 0 {
        lemma_aggregates_nonneg(records.drop_last(), scale, bound);
        assert(spec_conv(records.last(), scale) * records.last().1 as int >= 0)
            by (nonlinear_arith)
            requires
                spec_conv(records.last(), scale) >= 0,
                records.last().1 >= 0,
        ;
        assert(spec_conv(records.last(), scale) >= 0) by (nonlinear_arith)
            requires
                records.last().0 >= 0,
                scale >= 0,
        ;
    }
}

proof fn lemma_aggregates_concat(a: Seq<(u64, u64)>, b: Seq<(u64, u64)>, scale: u64,
    bound: BucketBound)
    ensures
        spec_cum_count(a + b, scale, bound) == spec_cum_count(a, scale, bound)
            + spec_cum_count(b, scale, bound),
        spec_total_count(a + b) == spec_total_count(a) + spec_total_count(b),
        spec_weighted_sum(a + b, scale) == spec_weighted_sum(a, scale) + spec_weighted_sum(
            b,
            scale,
        ),
    decreases b.len(),
{
    if b.len() == 0 {
        assert(a + b =~= a);
    } else {
        assert((a + b).drop_last() =~= a + b.drop_last());
        assert((a + b).last() == b.last());
        lemma_aggregates_concat(a, b.drop_last(), scale, bound);
    }
}

/// When every record's converted value is at most the bound, the cumulative
/// count is the total count.
proof fn lemma_cum_all_le(records: Seq<(u64, u64)>, scale: u64, bound: BucketBound)
    requires
        forall|i: int|
            0 <= i < records.len() ==> spec_le_bound(
                spec_conv(#[trigger] records[i], scale),
                bound,
            ),
    ensures
        spec_cum_count(records, scale, bound) == spec_total_count(records),
    decreases records.len(),
{
    if records.len() > 0 {
        assert(records.last() == records[records.len() - 1]);
        lemma_cum_all_le(records.drop_last(), scale, bound);
    }
}

/// When every record's converted value is above the bound, the cumulative
/// count is zero.
proof fn lemma_cum_all_gt(records: Seq<(u64, u64)>, scale: u64, bound: BucketBound)
    requires
        forall|i: int|
            0 <= i < records.len() ==> !spec_le_bound(
                spec_conv(#[trigger] records[i], scale),
                bound,
            ),
    ensures
        spec_cum_count(records, scale, bound) == 0,
    decreases records.len(),
{
    if records.len() > 0 {
        assert(records.last() == records[records.len() - 1]);
        lemma_cum_all_gt(records.drop_last(), scale, bound);
    }
}

/// Cumulative counts grow with the bound.
proof fn lemma_cum_mono(records: Seq<(u64, u64)>, scale: u64, a: BucketBound,
    b: BucketBound)
    requires
        spec_bound_lt(a, b) || a == b,
    ensures
        spec_cum_count(records, scale, a) <= spec_cum_count(records, scale, b),
    decreases records.len(),
{
    if records.len() > 0 {
        lemma_cum_mono(records.drop_last(), scale, a, b);
    }
}

/// A prefix contributes no more than the whole.
pub proof fn lemma_aggregates_prefix(records: Seq<(u64, u64)>, scale: u64, k: int)
    requires
        0 <= k <= records.len(),
    ensures
        spec_total_count(records.take(k)) <= spec_total_count(records),
        spec_weighted_sum(records.take(k), scale) <= spec_weighted_sum(records, scale),
{
    assert(records =~= records.take(k) + records.skip(k));
    lemma_aggregates_concat(records.take(k), records.skip(k), scale, BucketBound::Inf);
    lemma_aggregates_nonneg(records.skip(k), scale, BucketBound::Inf);
}

/// When the records ascend, every record before `k` converts to at most
/// the bound, and record `k` converts above it, the bound's cumulative
/// share of the whole sample is exactly the total of the first `k` records.
proof fn lemma_advance_bucket(rs: Seq<(u64, u64)>, scale: u64, k: int, bound: BucketBound)
    requires
        spec_records_sorted(rs),
        0 <= k < rs.len(),
        forall|j: int|
            0 <= j < k ==> spec_le_bound(spec_conv(#[trigger] rs[j], scale), bound),
        !spec_le_bound(spec_conv(rs[k], scale), bound),
    ensures
        spec_cum_count(rs, scale, bound) == spec_total_count(rs.take(k)),
{
    assert(rs =~= rs.take(k) + rs.skip(k));
    assert forall|j: int| 0 <= j < rs.take(k).len() implies spec_le_bound(
        spec_conv(#[trigger] rs.take(k)[j], scale),
        bound,
    ) by {
        assert(rs.take(k)[j] == rs[j]);
    }
    lemma_cum_all_le(rs.take(k), scale, bound);
    assert forall|j: int| 0 <= j < rs.skip(k).len() implies !spec_le_bound(
        spec_conv(#[trigger] rs.skip(k)[j], scale),
        bound,
    ) by {
        assert(rs.skip(k)[j] == rs[k + j]);
        if j > 0 {
            assert(rs[k + j].0 > rs[k].0);
        }
        lemma_mul_inequality(rs[k].0 as int, rs[k + j].0 as int, scale as int);
    }
    lemma_cum_all_gt(rs.skip(k), scale, bound);
    lemma_aggregates_concat(rs.take(k), rs.skip(k), scale, bound);
}

/// One cumulative bucket: the upper bound and the accumulated count of
/// observations at or below it.
#[derive(Clone, Copy, Debug, PartialEq, Eq, Structural)]
pub struct Bucket {
    pub upper_bound: BucketBound,
    pub count: u64,
}

/// Cumulative Prometheus state for one metric.
#[derive(Clone, Debug)]
pub struct PrometheusHistogram {
    pub metric_description: MetricDescription,
    pub buckets: Vec<Bucket>,
    pub count: u64,
    /// Sum of all observations, in billionths of the canonical unit.
    pub sum: u128,
    pub timestamp_ms: u64,
}

impl PrometheusHistogram {
    /// The bucket array ends in the infinite bucket, bounds strictly
    /// increase, counts are cumulative (non-decreasing in the index), and
    /// the infinite bucket holds the total count.
    pub open spec fn wf(&self) -> bool {
        &&& self.buckets@.len() >= 1
        &&& self.buckets@.last().upper_bound == BucketBound::Inf
        &&& forall|i: int, j: int|
            0 <= i < j < self.buckets@.len() ==> spec_bound_lt(
                (#[trigger] self.buckets@[i]).upper_bound,
                (#[trigger] self.buckets@[j]).upper_bound,
            )
        &&& forall|i: int, j: int|
            0 <= i < j < self.buckets@.len() ==> (#[trigger] self.buckets@[i]).count <= (
            #[trigger] self.buckets@[j]).count
        &&& forall|i: int|
            0 <= i < self.buckets@.len() ==> (#[trigger] self.buckets@[i]).count
                <= self.count
        &&& self.buckets@.last().count == self.count
    }

    /// Fresh cumulative state for one metric: the ladder configured for the
    /// metric's name, every count zero.
    pub fn new(metric_description: MetricDescription, settings: &PrometheusSettings) -> (r:
        PrometheusHistogram)
        requires
            settings.metrics.histograms.buckets.wf(),
        ensures
            r.wf(),
            r.metric_description == metric_description,
            r.count == 0,
            r.sum == 0,
            ({
                let ladder = settings.metrics.histograms.buckets.spec_for_name(
                    metric_description.name@,
                );
                &&& r.buckets@.len() == ladder.len() + 1
                &&& forall|i: int|
                    0 <= i < ladder.len() ==> (#[trigger] r.buckets@[i]).upper_bound
                        == BucketBound::Finite(ladder[i]) && r.buckets@[i].count == 0
                &&& r.buckets@.last() == (Bucket { upper_bound: BucketBound::Inf, count: 0u64 })
            }),
    {
        let buckets = Self::create_buckets(&metric_description, settings);
        PrometheusHistogram {
            metric_description,
            buckets,
            count: 0,
            sum: 0,
            timestamp_ms: current_millis(),
        }
    }

    /// The bucket array for a metric: the configured ladder, then the
    /// infinite bucket, all counts zero.
    fn create_buckets(metric_description: &MetricDescription, settings: &PrometheusSettings)
        -> (r: Vec<Bucket>)
        requires
            settings.metrics.histograms.buckets.wf(),
        ensures
            ({
                let ladder = settings.metrics.histograms.buckets.spec_for_name(
                    metric_description.name@,
                );
                &&& r@.len() == ladder.len() + 1
                &&& forall|i: int|
                    0 <= i < ladder.len() ==> (#[trigger] r@[i]).upper_bound
                        == BucketBound::Finite(ladder[i]) && r@[i].count == 0
                &&& r@.last() == (Bucket { upper_bound: BucketBound::Inf, count: 0u64 })
                &&& forall|i: int, j: int|
                    0 <= i < j < r@.len() ==> spec_bound_lt(
                        (#[trigger] r@[i]).upper_bound,
                        (#[trigger] r@[j]).upper_bound,
                    )
            }),
    {
        let ladder = settings.metrics.histograms.buckets.from(&metric_description.name);
        let ghost lv = ladder@;
        let mut r: Vec<Bucket> = Vec::new();
        let mut i: usize = 0;
        while i < ladder.len()
            invariant
                i <= lv.len(),
                ladder@ == lv,
                spec_strictly_increasing(lv),
                r@.len() == i,
                forall|j: int|
                    0 <= j < i ==> (#[trigger] r@[j]).upper_bound == BucketBound::Finite(
                        lv[j],
                    ) && r@[j].count == 0,
            decreases lv.len() - i,
        {
            r.push(Bucket { upper_bound: BucketBound::Finite(ladder[i]), count: 0 });
            i += 1;
        }
        r.push(Bucket { upper_bound: BucketBound::Inf, count: 0 });
        r
    }

    /// Fold one histogram sample into the cumulative state.
    ///
    /// Afterwards each bucket's count has grown by the number of sampled
    /// observations whose converted value is at most the bucket's bound,
    /// the total count by the sample's total multiplicity, and the sum by
    /// the sample's weighted value sum; the timestamp is replaced. No count
    /// ever decreases.
    #[verifier::rlimit(100)]
    pub fn add_snapshot(&mut self, histogram_sample: &HistogramSample,
        timestamp_in_millis: u64)
        requires
            old(self).wf(),
            histogram_sample.wf(),
            old(self).count + spec_total_count(histogram_sample.records@) <= u64::MAX,
            old(self).sum + spec_weighted_sum(
                histogram_sample.records@,
                spec_projection_scale(&histogram_sample.histogram_settings.measurement_unit),
            ) <= u128::MAX,
        ensures
            final(self).wf(),
            ({
                let records = histogram_sample.records@;
                let scale = spec_projection_scale(
                    &histogram_sample.histogram_settings.measurement_unit,
                );
                &&& final(self).metric_description == old(self).metric_description
                &&& final(self).buckets@.len() == old(self).buckets@.len()
                &&& forall|i: int|
                    0 <= i < old(self).buckets@.len() ==> (
                    #[trigger] final(self).buckets@[i]).upper_bound == old(
                        self,
                    ).buckets@[i].upper_bound
                &&& forall|i: int|
                    0 <= i < old(self).buckets@.len() ==> (
                    #[trigger] final(self).buckets@[i]).count == old(self).buckets@[i].count
                        + spec_cum_count(records, scale, old(self).buckets@[i].upper_bound)
                &&& forall|i: int|
                    0 <= i < old(self).buckets@.len() ==> (
                    #[trigger] final(self).buckets@[i]).count >= old(self).buckets@[i].count
                &&& final(self).count == old(self).count + spec_total_count(records)
                &&& final(self).sum == old(self).sum + spec_weighted_sum(records, scale)
                &&& final(self).timestamp_ms == timestamp_in_millis
            }),
    {
        let records: &Vec<(u64, u64)> = &histogram_sample.records;
        let scale: u64 = projection_scale(histogram_sample.measurement_unit());
        let ghost rs = records@;
        proof {
            assert(spec_records_sorted(rs));
        }
        let ghost ob = self.buckets@;
        let nb: usize = self.buckets.len();
        let mut bi: usize = 0;
        let mut sum_samples: u128 = 0;
        let mut count_samples: u64 = 0;
        let mut k: usize = 0;
        proof {
            assert(rs.take(0) =~= Seq::<(u64, u64)>::empty());
        }
        while k < records.len()
            invariant
                self.metric_description == old(self).metric_description,
                self.count == old(self).count,
                self.sum == old(self).sum,
                old(self).wf(),
                histogram_sample.wf(),
                spec_records_sorted(rs),
                records@ == rs,
                ob == old(self).buckets@,
                scale == spec_projection_scale(
                    &histogram_sample.histogram_settings.measurement_unit,
                ),
                scale >= 1,
                old(self).count + spec_total_count(rs) <= u64::MAX,
                old(self).sum + spec_weighted_sum(rs, scale) <= u128::MAX,
                nb == ob.len(),
                self.buckets@.len() == nb,
                k <= rs.len(),
                bi < nb,
                count_samples == spec_total_count(rs.take(k as int)),
                sum_samples == spec_weighted_sum(rs.take(k as int), scale),
                forall|i: int|
                    0 <= i < nb ==> (#[trigger] self.buckets@[i]).upper_bound == ob[
                        i].upper_bound,
                forall|i: int|
                    0 <= i < bi ==> (#[trigger] self.buckets@[i]).count == ob[i].count
                        + spec_cum_count(rs, scale, ob[i].upper_bound),
                forall|i: int|
                    bi <= i < nb ==> (#[trigger] self.buckets@[i]).count == ob[i].count,
                forall|j: int|
                    0 <= j < k ==> spec_le_bound(
                        spec_conv(#[trigger] rs[j], scale),
                        ob[bi as int].upper_bound,
                    ),
            decreases rs.len() - k,
        {
            let (value, mult): (u64, u64) = records[k];
            proof {
                assert((value as int) * (scale as int) <= (u64::MAX as int) * (
                u64::MAX as int)) by (nonlinear_arith)
                    requires
                        value <= u64::MAX,
                        scale <= u64::MAX,
                ;
            }
            let conv: u128 = (value as u128) * (scale as u128);
            loop
                invariant
                    old(self).wf(),
                    ob == old(self).buckets@,
                    nb == ob.len(),
                    self.buckets@.len() == nb,
                    self.count == old(self).count,
                    self.sum == old(self).sum,
                    self.metric_description == old(self).metric_description,
                    k < rs.len(),
                    spec_records_sorted(rs),
                    records@ == rs,
                    rs[k as int] == (value, mult),
                    conv == spec_conv(rs[k as int], scale),
                    scale >= 1,
                    old(self).count + spec_total_count(rs) <= u64::MAX,
                    count_samples == spec_total_count(rs.take(k as int)),
                    histogram_sample.wf(),
                    bi < nb,
                    forall|i: int|
                        0 <= i < nb ==> (#[trigger] self.buckets@[i]).upper_bound == ob[
                            i].upper_bound,
                    forall|i: int|
                        0 <= i < bi ==> (#[trigger] self.buckets@[i]).count == ob[i].count
                            + spec_cum_count(rs, scale, ob[i].upper_bound),
                    forall|i: int|
                        bi <= i < nb ==> (#[trigger] self.buckets@[i]).count == ob[
                            i].count,
                    forall|j: int|
                        0 <= j < k ==> spec_le_bound(
                            spec_conv(#[trigger] rs[j], scale),
                            ob[bi as int].upper_bound,
                        ),
                ensures
                    bi < nb,
                    spec_le_bound(conv as int, ob[bi as int].upper_bound),
                    forall|i: int|
                        0 <= i < bi ==> (#[trigger] self.buckets@[i]).count == ob[i].count
                            + spec_cum_count(rs, scale, ob[i].upper_bound),
                    forall|i: int|
                        bi <= i < nb ==> (#[trigger] self.buckets@[i]).count == ob[
                            i].count,
                    forall|j: int|
                        0 <= j < k ==> spec_le_bound(
                            spec_conv(#[trigger] rs[j], scale),
                            ob[bi as int].upper_bound,
                        ),
                decreases nb - bi,
            {
                let mut advance: bool = false;
                match self.buckets[bi].upper_bound {
                    BucketBound::Finite(b) => {
                        if conv > (b as u128) {
                            advance = true;
                        }
                    },
                    BucketBound::Inf => {},
                }
                if !advance {
                    break;
                }
                proof {
                    assert(!spec_le_bound(conv as int, ob[bi as int].upper_bound));
                    lemma_advance_bucket(rs, scale, k as int, ob[bi as int].upper_bound);
                    // The bucket's count stays within u64 range.
                    lemma_aggregates_prefix(rs, scale, k as int);
                    lemma_aggregates_nonneg(rs.take(k as int), scale, BucketBound::Inf);
                }
                let c: u64 = self.buckets[bi].count;
                let ub: BucketBound = self.buckets[bi].upper_bound;
                self.buckets[bi] = Bucket { upper_bound: ub, count: c + count_samples };
                proof {
                    // All earlier records also fit under the next bound.
                    assert forall|j: int| 0 <= j < k implies spec_le_bound(
                        spec_conv(#[trigger] rs[j], scale),
                        ob[bi + 1].upper_bound,
                    ) by {
                        assert(spec_bound_lt(ob[bi as int].upper_bound, ob[
                            bi + 1].upper_bound));
                    }
                }
                bi += 1;
            }
            proof {
                assert(rs.take(k as int + 1).drop_last() =~= rs.take(k as int));
                assert(rs.take(k as int + 1).last() == rs[k as int]);
                lemma_aggregates_prefix(rs, scale, k as int + 1);
                lemma_aggregates_nonneg(rs.take(k as int + 1), scale, BucketBound::Inf);
                lemma_aggregates_nonneg(rs.take(k as int), scale, BucketBound::Inf);
                assert(spec_conv(rs[k as int], scale) * (mult as int) >= 0)
                    by (nonlinear_arith)
                    requires
                        spec_conv(rs[k as int], scale) >= 0,
                        mult >= 0,
                ;
            }
            sum_samples = sum_samples + conv * (mult as u128);
            count_samples = count_samples + mult;
            k += 1;
        }
        proof {
            assert(rs.take(rs.len() as int) =~= rs);
        }
        // Every remaining bucket, the infinite one included, absorbs the
        // whole sample.
        let ghost mid = self.buckets@;
        let mut j: usize = bi;
        while j < nb
            invariant
                old(self).wf(),
                ob == old(self).buckets@,
                nb == ob.len(),
                self.buckets@.len() == nb,
                self.count == old(self).count,
                self.sum == old(self).sum,
                self.metric_description == old(self).metric_description,
                scale >= 1,
                bi <= j <= nb,
                bi < nb,
                count_samples == spec_total_count(rs),
                sum_samples == spec_weighted_sum(rs, scale),
                old(self).count + spec_total_count(rs) <= u64::MAX,
                forall|i: int|
                    0 <= i < nb ==> (#[trigger] self.buckets@[i]).upper_bound == ob[
                        i].upper_bound,
                forall|i: int|
                    0 <= i < j ==> (#[trigger] self.buckets@[i]).count == ob[i].count
                        + spec_cum_count(rs, scale, ob[i].upper_bound),
                forall|i: int|
                    j <= i < nb ==> (#[trigger] self.buckets@[i]).count == ob[i].count,
                forall|p: int|
                    0 <= p < rs.len() ==> spec_le_bound(
                        spec_conv(#[trigger] rs[p], scale),
                        ob[bi as int].upper_bound,
                    ),
            decreases nb - j,
        {
            proof {
                assert forall|p: int| 0 <= p < rs.len() implies spec_le_bound(
                    spec_conv(#[trigger] rs[p], scale),
                    ob[j as int].upper_bound,
                ) by {
                    if j > bi {
                        assert(spec_bound_lt(ob[bi as int].upper_bound, ob[
                            j as int].upper_bound));
                    }
                }
                lemma_cum_all_le(rs, scale, ob[j as int].upper_bound);
                lemma_aggregates_nonneg(rs, scale, ob[j as int].upper_bound);
            }
            let c: u64 = self.buckets[j].count;
            let ub: BucketBound = self.buckets[j].upper_bound;
            self.buckets[j] = Bucket { upper_bound: ub, count: c + count_samples };
            j += 1;
        }
        proof {
            lemma_aggregates_nonneg(rs, scale, BucketBound::Inf);
        }
        self.sum = self.sum + sum_samples;
        self.count = self.count + count_samples;
        self.timestamp_ms = timestamp_in_millis;
        proof {
            assert forall|i: int| 0 <= i < nb implies (#[trigger] self.buckets@[i]).count
                == ob[i].count + spec_cum_count(rs, scale, ob[i].upper_bound) by {}
            assert forall|i: int| 0 <= i < nb implies (#[trigger] self.buckets@[i]).count
                >= ob[i].count by {
                lemma_aggregates_nonneg(rs, scale, ob[i].upper_bound);
            }
            assert forall|i: int, p: int| 0 <= i < p < nb implies (
            #[trigger] self.buckets@[i]).count <= (#[trigger] self.buckets@[p]).count by {
                lemma_cum_mono(rs, scale, ob[i].upper_bound, ob[p].upper_bound);
            }
            assert forall|i: int| 0 <= i < nb implies (#[trigger] self.buckets@[i]).count
                <= self.count by {
                lemma_aggregates_nonneg(rs, scale, ob[i].upper_bound);
                lemma_cum_mono(rs, scale, ob[i].upper_bound, BucketBound::Inf);
                lemma_cum_all_le(rs, scale, BucketBound::Inf);
            }
            assert(self.buckets@.last().upper_bound == BucketBound::Inf);
            lemma_cum_all_le(rs, scale, BucketBound::Inf);
            assert(self.buckets@.last().count == self.count);
        }
    }

    pub fn metric_description(&self) -> (r: &MetricDescription)
        ensures
            r == &self.metric_description,
    {
        &self.metric_description
    }

    pub fn buckets(&self) -> (r: &Vec<Bucket>)
        ensures
            r == &self.buckets,
    {
        &self.buckets
    }

    /// The accumulated sum of all observations, in billionths of the
    /// canonical unit.
    pub fn sum(&self) -> (r: u128)
        ensures
            r == self.sum,
    {
        self.sum
    }

    pub fn count(&self) -> (r: u64)
        ensures
            r == self.count,
    {
        self.count
    }

    pub fn timestamp_ms(&self) -> (r: u64)
        ensures
            r == self.timestamp_ms,
    {
        self.timestamp_ms
    }
}

/// An empty sample leaves every aggregate unchanged: its cumulative count
/// at any bound, its total count, and its weighted sum are all zero.
pub proof fn lemma_empty_sample_adds_nothing(scale: u64, bound: BucketBound)
    ensures
        spec_cum_count(Seq::<(u64, u64)>::empty(), scale, bound) == 0,
        spec_total_count(Seq::<(u64, u64)>::empty()) == 0,
        spec_weighted_sum(Seq::<(u64, u64)>::empty(), scale) == 0,
{
}

} // verus!
