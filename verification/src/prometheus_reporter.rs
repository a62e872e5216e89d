//! The Prometheus-facing side of the pipeline: per-metric cumulative state
//! fed by snapshots, and the exposition of that state as text.
//!
//! The surrounding process subscribes this state to the snapshot broadcast
//! and serves the encoded text over HTTP; both of those edges live outside
//! the library.

use vstd::prelude::*;

use crate::errors::Error;
use crate::measurement_unit::projection_scale;
use crate::measurement_unit::spec_projection_scale;
use crate::metric::MetricDescription;
use crate::prometheus_counter::PrometheusCounter;
use crate::prometheus_encoder::encode_histogram;
use crate::prometheus_encoder::spec_encode_histogram;
use crate::prometheus_histogram::lemma_aggregates_nonneg;
use crate::prometheus_histogram::lemma_aggregates_prefix;
use crate::prometheus_histogram::BucketBound;
use crate::prometheus_histogram::spec_cum_count;
use crate::prometheus_histogram::spec_total_count;
use crate::prometheus_histogram::spec_weighted_sum;
use crate::prometheus_histogram::PrometheusHistogram;
use crate::prometheus_settings::PrometheusSettings;
use crate::snapshot::HistogramSample;
use crate::snapshot::MetricSample;
use crate::snapshot::MetricsSnapshot;

verus! {

/// Does the whole sample fit into the cumulative state without leaving the
/// machine range of its counters?
pub open spec fn spec_sample_fits(h: PrometheusHistogram, records: Seq<(u64, u64)>,
    scale: u64) -> bool {
    &&& h.count + spec_total_count(records) <= u64::MAX
    &&& h.sum + spec_weighted_sum(records, scale) <= u128::MAX
}

/// Compute the total multiplicity and the weighted value sum of a sample,
/// refusing when either leaves the u128 range.
fn checked_aggregates(records: &Vec<(u64, u64)>, scale: u64) -> (r: Option<(u128, u128)>)
    ensures
        r matches Some(t) ==> t.0 == spec_total_count(records@) && t.1 == spec_weighted_sum(
            records@,
            scale,
        ),
        r is None ==> spec_total_count(records@) > u128::MAX || spec_weighted_sum(
            records@,
            scale,
        ) > u128::MAX,
{
    let mut total: u128 = 0;
    let mut weighted: u128 = 0;
    let mut k: usize = 0;
    proof {
        assert(records@.take(0) =~= Seq::<(u64, u64)>::empty());
    }
    while k < records.len()
        invariant
            k <= records@.len(),
            total == spec_total_count(records@.take(k as int)),
            weighted == spec_weighted_sum(records@.take(k as int), scale),
        decreases records@.len() - k,
    {
        let (value, mult): (u64, u64) = records[k];
        proof {
            assert(records@.take(k + 1).drop_last() =~= records@.take(k as int));
            assert(records@.take(k + 1).last() == records@[k as int]);
            assert((value as int) * (scale as int) <= (u64::MAX as int) * (
            u64::MAX as int)) by (nonlinear_arith)
                requires
                    value <= u64::MAX,
                    scale <= u64::MAX,
            ;
        }
        let conv: u128 = (value as u128) * (scale as u128);
        let term: u128 = match conv.checked_mul(mult as u128) {
            Some(t) => t,
            None => {
                proof {
                    lemma_aggregates_prefix(records@, scale, k as int + 1);
                    lemma_aggregates_nonneg(records@.take(k as int), scale,
                        BucketBound::Inf);
                }
                return None;
            },
        };
        let new_weighted: u128 = match weighted.checked_add(term) {
            Some(w) => w,
            None => {
                proof {
                    lemma_aggregates_prefix(records@, scale, k as int + 1);
                }
                return None;
            },
        };
        let new_total: u128 = match total.checked_add(mult as u128) {
            Some(t) => t,
            None => {
                proof {
                    lemma_aggregates_prefix(records@, scale, k as int + 1);
                }
                return None;
            },
        };
        weighted = new_weighted;
        total = new_total;
        k += 1;
    }
    proof {
        assert(records@.take(records@.len() as int) =~= records@);
    }
    Some((total, weighted))
}

/// The cumulative Prometheus state of every metric seen so far, keyed by
/// metric id, in order of first appearance.
pub struct MetricsHolder {
    pub histograms: Vec<(u64, PrometheusHistogram)>,
    pub counters: Vec<(u64, PrometheusCounter)>,
}

impl MetricsHolder {
    /// Ids are unique, each entry is keyed by its own metric id, and every
    /// cumulative histogram is well formed.
    pub open spec fn wf(&self) -> bool {
        &&& forall|i: int, j: int|
            0 <= i < j < self.histograms@.len() ==> (#[trigger] self.histograms@[i]).0 != (
            #[trigger] self.histograms@[j]).0
        &&& forall|i: int|
            0 <= i < self.histograms@.len() ==> (#[trigger] self.histograms@[i]).1.wf()
        &&& forall|i: int|
            0 <= i < self.histograms@.len() ==> (#[trigger] self.histograms@[i]).0
                == self.histograms@[i].1.metric_description.id
    }
}

impl Default for MetricsHolder {
    fn default() -> (r: MetricsHolder)
        ensures
            r.histograms@.len() == 0,
            r.counters@.len() == 0,
            r.wf(),
    {
        MetricsHolder { histograms: Vec::new(), counters: Vec::new() }
    }
}


/// What one histogram sample does to the cumulative per-metric state:
/// a known metric id absorbs the sample (or, when a counter would leave
/// its machine range, stays untouched); an unknown id gains fresh state,
/// already holding the sample when it fits.
pub open spec fn spec_holder_step(
    pre: Seq<(u64, PrometheusHistogram)>,
    metric_desc: MetricDescription,
    histogram_sample: HistogramSample,
    timestamp_in_millis: u64,
    post: Seq<(u64, PrometheusHistogram)>,
) -> bool {
    let records = histogram_sample.records@;
    let scale = spec_projection_scale(&histogram_sample.histogram_settings.measurement_unit);
    let known = exists|i: int|
        0 <= i < pre.len() && (#[trigger] pre[i]).0 == metric_desc.id;
    if known {
        let i = choose|i: int|
            0 <= i < pre.len() && (#[trigger] pre[i]).0 == metric_desc.id;
        if spec_sample_fits(pre[i].1, records, scale) {
            &&& post.len() == pre.len()
            &&& forall|j: int| 0 <= j < pre.len() && j != i ==> post[j] == pre[j]
            &&& post[i].0 == pre[i].0
            &&& post[i].1.count == pre[i].1.count + spec_total_count(records)
            &&& post[i].1.sum == pre[i].1.sum + spec_weighted_sum(records, scale)
            &&& post[i].1.buckets@.len() == pre[i].1.buckets@.len()
            &&& forall|b: int|
                0 <= b < pre[i].1.buckets@.len() ==> (
                #[trigger] post[i].1.buckets@[b]).count == pre[i].1.buckets@[b].count
                    + spec_cum_count(records, scale, pre[i].1.buckets@[b].upper_bound)
            &&& post[i].1.timestamp_ms == timestamp_in_millis
        } else {
            post == pre
        }
    } else {
        let fits = spec_total_count(records) <= u64::MAX && spec_weighted_sum(
            records,
            scale,
        ) <= u128::MAX;
        &&& post.len() == pre.len() + 1
        &&& post.drop_last() == pre
        &&& post.last().0 == metric_desc.id
        &&& post.last().1.metric_description.id == metric_desc.id
        &&& post.last().1.count == (if fits {
            spec_total_count(records)
        } else {
            0
        })
        &&& post.last().1.sum == (if fits {
            spec_weighted_sum(records, scale)
        } else {
            0
        })
        &&& (fits ==> forall|b: int|
            0 <= b < post.last().1.buckets@.len() ==> (
            #[trigger] post.last().1.buckets@[b]).count == spec_cum_count(
                records,
                scale,
                post.last().1.buckets@[b].upper_bound,
            ))
    }
}

/// The cumulative state after folding a whole run of samples, one
/// [`spec_holder_step`] per histogram sample, in order. A counter or gauge
/// sample has no defined fold.
pub open spec fn spec_consumed(
    pre: Seq<(u64, PrometheusHistogram)>,
    samples: Seq<MetricSample>,
    timestamp_in_millis: u64,
    post: Seq<(u64, PrometheusHistogram)>,
) -> bool
    decreases samples.len(),
{
    if samples.len() == 0 {
        post == pre
    } else {
        match samples[0] {
            MetricSample::Histogram(d, hs) => exists|mid: Seq<(u64, PrometheusHistogram)>|
                #[trigger] spec_holder_step(pre, d, hs, timestamp_in_millis, mid)
                    && spec_consumed(mid, samples.drop_first(), timestamp_in_millis, post),
            _ => false,
        }
    }
}

/// Folding one more histogram sample extends a consumed run by one step.
proof fn lemma_consumed_extend(
    pre: Seq<(u64, PrometheusHistogram)>,
    samples: Seq<MetricSample>,
    mid: Seq<(u64, PrometheusHistogram)>,
    metric_desc: MetricDescription,
    histogram_sample: HistogramSample,
    post: Seq<(u64, PrometheusHistogram)>,
    timestamp_in_millis: u64,
)
    requires
        spec_consumed(pre, samples, timestamp_in_millis, mid),
        spec_holder_step(mid, metric_desc, histogram_sample, timestamp_in_millis, post),
    ensures
        spec_consumed(
            pre,
            samples.push(MetricSample::Histogram(metric_desc, histogram_sample)),
            timestamp_in_millis,
            post,
        ),
    decreases samples.len(),
{
    let pushed = samples.push(MetricSample::Histogram(metric_desc, histogram_sample));
    if samples.len() == 0 {
        assert(mid == pre);
        assert(pushed[0] == MetricSample::Histogram(metric_desc, histogram_sample));
        assert(pushed.drop_first() =~= Seq::<MetricSample>::empty());
        assert(spec_consumed(post, pushed.drop_first(), timestamp_in_millis, post));
        assert(spec_holder_step(pre, metric_desc, histogram_sample, timestamp_in_millis,
            post));
        match pushed[0] {
            MetricSample::Histogram(d, hs) => {
                assert(d == metric_desc && hs == histogram_sample);
                assert(spec_holder_step(pre, d, hs, timestamp_in_millis, post)
                    && spec_consumed(post, pushed.drop_first(), timestamp_in_millis,
                    post));
            },
            _ => {
                assert(false);
            },
        }
        assert(spec_consumed(pre, pushed, timestamp_in_millis, post));
    } else {
        match samples[0] {
            MetricSample::Histogram(d0, h0) => {
                let mid1 = choose|m: Seq<(u64, PrometheusHistogram)>|
                    #[trigger] spec_holder_step(pre, d0, h0, timestamp_in_millis, m)
                        && spec_consumed(m, samples.drop_first(), timestamp_in_millis, mid);
                lemma_consumed_extend(
                    mid1,
                    samples.drop_first(),
                    mid,
                    metric_desc,
                    histogram_sample,
                    post,
                    timestamp_in_millis,
                );
                assert(pushed[0] == samples[0]);
                assert(samples[0] == MetricSample::Histogram(d0, h0));
                assert(pushed.drop_first() =~= samples.drop_first().push(
                    MetricSample::Histogram(metric_desc, histogram_sample),
                ));
                assert(spec_consumed(mid1, pushed.drop_first(), timestamp_in_millis,
                    post));
                match pushed[0] {
                    MetricSample::Histogram(dp, hp) => {
                        assert(dp == d0 && hp == h0);
                        assert(spec_holder_step(pre, dp, hp, timestamp_in_millis, mid1)
                            && spec_consumed(
                            mid1,
                            pushed.drop_first(),
                            timestamp_in_millis,
                            post,
                        ));
                    },
                    _ => {
                        assert(false);
                    },
                }
                assert(spec_consumed(pre, pushed, timestamp_in_millis, post));
            },
            _ => {
                assert(false);
            },
        }
    }
}

impl MetricsHolder {
    /// Fold one histogram sample into the metric's cumulative state,
    /// creating that state on the metric's first appearance. A sample so
    /// large that a counter would leave its machine range is skipped and
    /// the state is left as it was.
    pub fn consume_histogram_sample(
        &mut self,
        metric_desc: &MetricDescription,
        histogram_sample: &HistogramSample,
        timestamp_in_millis: u64,
        settings: &PrometheusSettings,
    )
        requires
            old(self).wf(),
            histogram_sample.wf(),
            settings.metrics.histograms.buckets.wf(),
        ensures
            final(self).wf(),
            final(self).counters == old(self).counters,
            spec_holder_step(
                old(self).histograms@,
                *metric_desc,
                *histogram_sample,
                timestamp_in_millis,
                final(self).histograms@,
            ),
    {
        let records = histogram_sample.records();
        let scale: u64 = projection_scale(histogram_sample.measurement_unit());
        let n = self.histograms.len();
        let mut idx: usize = 0;
        let mut found: bool = false;
        while idx < n
            invariant_except_break
                n == self.histograms@.len(),
                idx <= n,
                !found,
                forall|j: int|
                    0 <= j < idx ==> (#[trigger] self.histograms@[j]).0 != metric_desc.id,
            ensures
                n == self.histograms@.len(),
                idx <= n,
                found ==> idx < n && self.histograms@[idx as int].0 == metric_desc.id,
                !found ==> forall|j: int|
                    0 <= j < n ==> (#[trigger] self.histograms@[j]).0 != metric_desc.id,
            decreases n - idx,
        {
            if self.histograms[idx].0 == metric_desc.id {
                found = true;
                break;
            }
            idx += 1;
        }
        let ghost hs = self.histograms@;
        if found {
            proof {
                let ci = choose|i: int|
                    0 <= i < hs.len() && (#[trigger] hs[i]).0 == metric_desc.id;
                if ci != idx {
                    assert(hs[ci].0 != hs[idx as int].0);
                }
            }
            let fits: bool = match checked_aggregates(records, scale) {
                Some((total, weighted)) => {
                    let h = &self.histograms[idx].1;
                    total <= (u64::MAX - h.count) as u128 && weighted <= u128::MAX
                        - h.sum
                },
                None => false,
            };
            if !fits {
                return ;
            }
            let mut entry = self.histograms.remove(idx);
            entry.1.add_snapshot(histogram_sample, timestamp_in_millis);
            self.histograms.insert(idx, entry);
            proof {
                let t = self.histograms@;
                assert(t =~= hs.update(idx as int, t[idx as int]));
                assert forall|a: int, b: int| 0 <= a < b < t.len() implies (
                #[trigger] t[a]).0 != (#[trigger] t[b]).0 by {
                    assert(hs[a].0 != hs[b].0);
                }
            }
        } else {
            let desc = metric_desc.duplicate();
            let mut fresh = PrometheusHistogram::new(desc, settings);
            let fits: bool = match checked_aggregates(records, scale) {
                Some((total, weighted)) => total <= u64::MAX as u128 && weighted
                    <= u128::MAX,
                None => false,
            };
            if fits {
                fresh.add_snapshot(histogram_sample, timestamp_in_millis);
            }
            proof {
                lemma_aggregates_nonneg(histogram_sample.records@, scale,
                    BucketBound::Inf);
            }
            self.histograms.push((metric_desc.id, fresh));
            proof {
                assert(self.histograms@.drop_last() =~= hs);
            }
        }
    }

    /// Render the exposition text of every projected histogram, in order of
    /// first appearance.
    pub fn encode_metrics(&self) -> (r: String)
        ensures
            r@ == spec_encode_all(self.histograms@),
    {
        let mut out = String::new();
        let mut i: usize = 0;
        proof {
            assert(self.histograms@.take(0) =~= Seq::<(u64, PrometheusHistogram)>::empty());
        }
        while i < self.histograms.len()
            invariant
                i <= self.histograms@.len(),
                out@ == spec_encode_all(self.histograms@.take(i as int)),
            decreases self.histograms@.len() - i,
        {
            let block = encode_histogram(&self.histograms[i].1);
            out.append(block.as_str());
            proof {
                assert(self.histograms@.take(i + 1).drop_last() =~= self.histograms@.take(
                    i as int,
                ));
                assert(self.histograms@.take(i + 1).last() == self.histograms@[i as int]);
            }
            i += 1;
        }
        proof {
            assert(self.histograms@.take(self.histograms@.len() as int)
                =~= self.histograms@);
        }
        out
    }
}

/// The concatenated exposition blocks of the projected histograms.
pub open spec fn spec_encode_all(hs: Seq<(u64, PrometheusHistogram)>) -> Seq<char>
    decreases hs.len(),
{
    if hs.len() == 0 {
        Seq::empty()
    } else {
        spec_encode_all(hs.drop_last()) + spec_encode_histogram(hs.last().1)
    }
}

/// The Prometheus exporter: the endpoint's configuration and the projected
/// state it serves.
pub struct PrometheusExporter {
    pub config: PrometheusSettings,
    pub running: bool,
    pub metrics_holder: MetricsHolder,
}

impl PrometheusExporter {
    pub fn new(config: PrometheusSettings) -> (r: PrometheusExporter)
        ensures
            r.config == config,
            !r.running,
            r.metrics_holder.histograms@.len() == 0,
            r.metrics_holder.counters@.len() == 0,
            r.metrics_holder.wf(),
    {
        PrometheusExporter {
            config,
            running: false,
            metrics_holder: MetricsHolder::default(),
        }
    }

    /// Fold one whole snapshot into the cumulative state: for each
    /// histogram sample, in snapshot order, one [`spec_holder_step`] on its
    /// metric's state. A counter or gauge sample is a reserved case and
    /// stops the pass with `NotImplemented`.
    pub fn consume_snapshot(&mut self, metrics_snapshot: &MetricsSnapshot) -> (r: Result<
        (),
        Error,
    >)
        requires
            old(self).metrics_holder.wf(),
            old(self).config.metrics.histograms.buckets.wf(),
            forall|k: int|
                0 <= k < metrics_snapshot.samples@.len() ==> (
                (#[trigger] metrics_snapshot.samples@[k]) matches MetricSample::Histogram(
                    d,
                    hs,
                ) ==> hs.wf()),
        ensures
            final(self).metrics_holder.wf(),
            final(self).config == old(self).config,
            final(self).running == old(self).running,
            final(self).metrics_holder.counters == old(self).metrics_holder.counters,
            r.is_ok() ==> spec_consumed(
                old(self).metrics_holder.histograms@,
                metrics_snapshot.samples@,
                metrics_snapshot.timestamp_in_millis,
                final(self).metrics_holder.histograms@,
            ),
            (forall|k: int|
                0 <= k < metrics_snapshot.samples@.len() ==> (
                #[trigger] metrics_snapshot.samples@[k]) matches MetricSample::Histogram(
                    _,
                    _,
                )) ==> r.is_ok(),
            r matches Err(e) ==> e == Error::NotImplemented(),
    {
        let samples = metrics_snapshot.samples();
        let ghost hs0 = self.metrics_holder.histograms@;
        let ghost ts0 = metrics_snapshot.timestamp_in_millis;
        let mut k: usize = 0;
        proof {
            assert(samples@.take(0) =~= Seq::<MetricSample>::empty());
        }
        while k < samples.len()
            invariant
                k <= samples@.len(),
                samples@ == metrics_snapshot.samples@,
                hs0 == old(self).metrics_holder.histograms@,
                ts0 == metrics_snapshot.timestamp_in_millis,
                self.metrics_holder.wf(),
                self.metrics_holder.counters == old(self).metrics_holder.counters,
                self.config == old(self).config,
                self.running == old(self).running,
                old(self).config.metrics.histograms.buckets.wf(),
                spec_consumed(hs0, samples@.take(k as int), ts0,
                    self.metrics_holder.histograms@),
                forall|p: int|
                    0 <= p < samples@.len() ==> ((#[trigger] samples@[p]) matches
                        MetricSample::Histogram(d, hs) ==> hs.wf()),
            decreases samples@.len() - k,
        {
            match &samples[k] {
                MetricSample::Counter(_metric_desc, _counter_sample) => {
                    return Err(Error::NotImplemented());
                },
                MetricSample::Gauge(_metric_desc, _gauge_sample) => {
                    return Err(Error::NotImplemented());
                },
                MetricSample::Histogram(metric_desc, histogram_sample) => {
                    let ghost prev = self.metrics_holder.histograms@;
                    self.metrics_holder.consume_histogram_sample(
                        metric_desc,
                        histogram_sample,
                        metrics_snapshot.timestamp_in_millis,
                        &self.config,
                    );
                    proof {
                        lemma_consumed_extend(
                            hs0,
                            samples@.take(k as int),
                            prev,
                            *metric_desc,
                            *histogram_sample,
                            self.metrics_holder.histograms@,
                            ts0,
                        );
                        assert(samples@[k as int] == MetricSample::Histogram(
                            *metric_desc,
                            *histogram_sample,
                        ));
                        assert(samples@.take(k as int).push(samples@[k as int])
                            =~= samples@.take(k as int + 1));
                    }
                },
            }
            k += 1;
        }
        proof {
            assert(samples@.take(samples@.len() as int) =~= samples@);
        }
        Ok(())
    }
}

} // verus!
