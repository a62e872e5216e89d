//! Immutable snapshots of the registered metrics.
//!
//! The snapshot producer walks the registry, reduces every histogram into a
//! `HistogramSample`, and broadcasts the whole `MetricsSnapshot` to the
//! exporters. A sample is a plain value: the recorded (value, multiplicity)
//! pairs in ascending value order, together with the settings the
//! distribution was taken under.

use vstd::prelude::*;

use crate::histogram::Histogram;
use crate::histogram::HistogramSettings;
use crate::measurement_unit::MeasurementUnit;
use crate::metric::MetricDescription;
use crate::registry::MetricHolder;
use crate::registry::Registry;

verus! {

/// The identity (metric id and name) of every histogram of one holder, in
/// insertion order.
pub open spec fn spec_holder_idents(h: MetricHolder) -> Seq<(u64, Seq<char>)> {
    h.metrics@.map_values(
        |m: (u64, Histogram)| (m.1.metric_description.id, m.1.metric_description.name@),
    )
}

/// The identity of every registered histogram, holders in insertion order
/// and histograms in insertion order inside each holder: the deterministic
/// order of a snapshot's samples.
pub open spec fn spec_flat_idents(s: Seq<(String, MetricHolder)>) -> Seq<(u64, Seq<char>)>
    decreases s.len(),
{
    if s.len() == 0 {
        Seq::empty()
    } else {
        spec_flat_idents(s.drop_last()) + spec_holder_idents(s.last().1)
    }
}

/// A sampler of the registry, publishing snapshots at a fixed period.
pub struct MetricsExporter {
    pub name: String,
    pub running: bool,
}

impl MetricsExporter {
    pub fn new(name: String) -> (r: MetricsExporter)
        ensures
            r.name@ == name@,
            !r.running,
    {
        MetricsExporter { name, running: false }
    }

    /// Reduce one histogram into a snapshot sample, resetting it for the
    /// next interval.
    pub fn sample_histograms(histogram: &mut Histogram) -> (r: MetricSample)
        requires
            old(histogram).wf(),
        ensures
            final(histogram).wf(),
            final(histogram).metric_description == old(histogram).metric_description,
            (r matches MetricSample::Histogram(d, hs) && d.id == old(
                histogram,
            ).metric_description.id && d.name@ == old(histogram).metric_description.name@
                && hs.wf()),
    {
        let histogram_sample = histogram.sample(true);
        let desc = histogram.metric_description().duplicate();
        MetricSample::Histogram(desc, histogram_sample)
    }

    /// One pass of the snapshot producer: sample and reset every registered
    /// histogram, in the registry's deterministic order, and package the
    /// samples with the pass's timestamp.
    pub fn tick(registry: &mut Registry, timestamp_in_millis: u64) -> (r: MetricsSnapshot)
        requires
            old(registry).wf(),
        ensures
            final(registry).wf(),
            final(registry).name@ == old(registry).name@,
            final(registry).histograms_storage@.len() == old(
                registry,
            ).histograms_storage@.len(),
            forall|i: int|
                0 <= i < old(registry).histograms_storage@.len() ==> (
                #[trigger] final(registry).histograms_storage@[i]).0@ == old(
                    registry,
                ).histograms_storage@[i].0@ && final(registry).histograms_storage@[
                    i].1.metric_description == old(registry).histograms_storage@[
                    i].1.metric_description && final(registry).histograms_storage@[
                    i].1.metrics@.len() == old(registry).histograms_storage@[
                    i].1.metrics@.len(),
            r.timestamp_in_millis == timestamp_in_millis,
            r.samples@.len() == spec_flat_idents(old(registry).histograms_storage@).len(),
            forall|k: int|
                0 <= k < r.samples@.len() ==> ((#[trigger] r.samples@[k]) matches
                    MetricSample::Histogram(d, hs) && d.id == spec_flat_idents(
                    old(registry).histograms_storage@,
                )[k].0 && d.name@ == spec_flat_idents(old(registry).histograms_storage@)[
                    k].1 && hs.wf()),
    {
        let ghost s0 = registry.histograms_storage@;
        let mut samples: Vec<MetricSample> = Vec::new();
        let mut rebuilt: Vec<(String, MetricHolder)> = Vec::new();
        proof {
            assert(s0.skip(0) =~= s0);
            assert(s0.take(0) =~= Seq::<(String, MetricHolder)>::empty());
            assert(spec_flat_idents(s0.take(0)) =~= Seq::<(u64, Seq<char>)>::empty());
        }
        while registry.histograms_storage.len() > 0
            invariant
                old(registry).wf(),
                s0 == old(registry).histograms_storage@,
                registry.name@ == old(registry).name@,
                rebuilt@.len() <= s0.len(),
                registry.histograms_storage@ == s0.skip(rebuilt@.len() as int),
                forall|i: int|
                    0 <= i < rebuilt@.len() ==> (#[trigger] rebuilt@[i]).0@ == s0[i].0@ && (
                    rebuilt@[i]).1.metric_description == s0[i].1.metric_description && (
                    rebuilt@[i]).1.metrics@.len() == s0[i].1.metrics@.len() && (
                    rebuilt@[i]).1.wf(),
                samples@.len() == spec_flat_idents(s0.take(rebuilt@.len() as int)).len(),
                forall|k: int|
                    0 <= k < samples@.len() ==> ((#[trigger] samples@[k]) matches
                        MetricSample::Histogram(d, hs) && d.id == spec_flat_idents(
                        s0.take(rebuilt@.len() as int),
                    )[k].0 && d.name@ == spec_flat_idents(
                        s0.take(rebuilt@.len() as int),
                    )[k].1 && hs.wf()),
            decreases registry.histograms_storage@.len(),
        {
            let ghost rl = rebuilt@.len() as int;
            let mut entry = registry.histograms_storage.remove(0);
            proof {
                assert(s0.skip(rl).len() > 0);
                assert(s0.skip(rl)[0] == s0[rl]);
                assert(s0.skip(rl).remove(0) =~= s0.skip(rl + 1));
                assert(entry == s0[rl]);
                assert(s0[rl].1.wf());
            }
            let ghost e0 = entry;
            let ghost fl = samples@.len() as int;
            let ghost sams0 = samples@;
            let mut new_metrics: Vec<(u64, Histogram)> = Vec::new();
            proof {
                assert(e0.1.metrics@.skip(0) =~= e0.1.metrics@);
            }
            while entry.1.metrics.len() > 0
                invariant
                    e0.1.wf(),
                    new_metrics@.len() + entry.1.metrics@.len() == e0.1.metrics@.len(),
                    entry.1.metrics@ == e0.1.metrics@.skip(new_metrics@.len() as int),
                    entry.0 == e0.0,
                    entry.1.metric_description == e0.1.metric_description,
                    forall|j: int|
                        0 <= j < new_metrics@.len() ==> (#[trigger] new_metrics@[j]).0
                            == e0.1.metrics@[j].0 && (
                        new_metrics@[j]).1.metric_description == e0.1.metrics@[
                            j].1.metric_description && (new_metrics@[j]).1.wf(),
                    fl == sams0.len(),
                    samples@.len() == fl + new_metrics@.len(),
                    forall|k: int| 0 <= k < fl ==> #[trigger] samples@[k] == sams0[k],
                    forall|k: int|
                        fl <= k < samples@.len() ==> ((#[trigger] samples@[k]) matches
                            MetricSample::Histogram(d, hs) && d.id == e0.1.metrics@[
                            k - fl].1.metric_description.id && d.name@ == e0.1.metrics@[
                            k - fl].1.metric_description.name@ && hs.wf()),
                decreases entry.1.metrics@.len(),
            {
                let mut m_entry = entry.1.metrics.remove(0);
                proof {
                    let j = new_metrics@.len() as int;
                    assert(e0.1.metrics@.skip(j)[0] == e0.1.metrics@[j]);
                    assert(e0.1.metrics@.skip(j).remove(0) =~= e0.1.metrics@.skip(j + 1));
                    assert(m_entry == e0.1.metrics@[j]);
                    assert(m_entry.1.wf());
                }
                let sample = MetricsExporter::sample_histograms(&mut m_entry.1);
                samples.push(sample);
                new_metrics.push(m_entry);
            }
            entry.1.metrics = new_metrics;
            rebuilt.push(entry);
            proof {
                assert(s0.take(rl + 1).drop_last() =~= s0.take(rl));
                assert(s0.take(rl + 1).last() == s0[rl]);
                assert(spec_flat_idents(s0.take(rl + 1)) == spec_flat_idents(s0.take(rl))
                    + spec_holder_idents(s0[rl].1));
                assert(spec_holder_idents(s0[rl].1).len() == s0[rl].1.metrics@.len());
                assert forall|k: int| 0 <= k < samples@.len() implies (
                (#[trigger] samples@[k]) matches MetricSample::Histogram(d, hs) && d.id
                    == spec_flat_idents(s0.take(rl + 1))[k].0 && d.name@
                    == spec_flat_idents(s0.take(rl + 1))[k].1 && hs.wf()) by {
                    if k < fl {
                        assert(samples@[k] == sams0[k]);
                        assert(spec_flat_idents(s0.take(rl + 1))[k] == spec_flat_idents(
                            s0.take(rl),
                        )[k]);
                    } else {
                        assert(spec_flat_idents(s0.take(rl + 1))[k] == spec_holder_idents(
                            s0[rl].1,
                        )[k - fl]);
                        assert(spec_holder_idents(s0[rl].1)[k - fl] == (
                            e0.1.metrics@[k - fl].1.metric_description.id,
                            e0.1.metrics@[k - fl].1.metric_description.name@,
                        ));
                    }
                }
            }
        }
        proof {
            assert(s0.take(s0.len() as int) =~= s0);
            assert(s0.skip(rebuilt@.len() as int).len() == 0);
            assert(rebuilt@.len() == s0.len());
        }
        registry.histograms_storage = rebuilt;
        proof {
            let t = registry.histograms_storage@;
            assert forall|a: int, b: int| 0 <= a < b < t.len() implies (
            #[trigger] t[a]).0@ != (#[trigger] t[b]).0@ by {
                assert(s0[a].0@ != s0[b].0@);
            }
            assert forall|i: int| 0 <= i < t.len() implies (#[trigger] t[i]).0@ == t[
                i].1.metric_description.name@ by {
                assert(s0[i].0@ == s0[i].1.metric_description.name@);
            }
        }
        MetricsSnapshot::new(samples, timestamp_in_millis)
    }
}

/// All samples taken in one pass over the registry, with the wall-clock
/// timestamp of the pass in milliseconds.
pub struct MetricsSnapshot {
    pub samples: Vec<MetricSample>,
    pub timestamp_in_millis: u64,
}

impl MetricsSnapshot {
    pub fn new(samples: Vec<MetricSample>, timestamp_in_millis: u64) -> (r:
        MetricsSnapshot)
        ensures
            r.samples == samples,
            r.timestamp_in_millis == timestamp_in_millis,
    {
        MetricsSnapshot { samples, timestamp_in_millis }
    }

    pub fn samples(&self) -> (r: &Vec<MetricSample>)
        ensures
            r == &self.samples,
    {
        &self.samples
    }

    pub fn timestamp_in_millis(&self) -> (r: u64)
        ensures
            r == self.timestamp_in_millis,
    {
        self.timestamp_in_millis
    }
}

/// One sampled metric. Only the histogram variant carries behavior in this
/// release; the counter and gauge variants are reserved.
pub enum MetricSample {
    Counter(MetricDescription, CounterSample),
    Gauge(MetricDescription, GaugeSample),
    Histogram(MetricDescription, HistogramSample),
}

/// A sampled counter value.
#[derive(Clone, Copy, Debug, PartialEq, Eq, Structural)]
pub struct CounterSample {
    pub value: u64,
}

impl CounterSample {
    pub fn new(value: u64) -> (r: CounterSample)
        ensures
            r.value == value,
    {
        CounterSample { value }
    }
}

/// A sampled gauge value.
#[derive(Clone, Copy, Debug, PartialEq, Eq, Structural)]
pub struct GaugeSample {
    pub value: u64,
}

impl GaugeSample {
    pub fn new(value: u64) -> (r: GaugeSample)
        ensures
            r.value == value,
    {
        GaugeSample { value }
    }
}

/// Every recorded value appears once, in strictly ascending order.
pub open spec fn spec_records_sorted(records: Seq<(u64, u64)>) -> bool {
    forall|i: int, j: int|
        0 <= i < j < records.len() ==> (#[trigger] records[i]).0 < (
        #[trigger] records[j]).0
}

/// An immutable clone of one histogram's distribution: its recorded
/// (value, multiplicity) pairs in ascending value order, plus the settings
/// the distribution was taken under.
#[derive(Clone, Debug)]
pub struct HistogramSample {
    pub records: Vec<(u64, u64)>,
    pub histogram_settings: HistogramSettings,
}

impl HistogramSample {
    /// The recorded values strictly ascend and the settings are usable.
    pub open spec fn wf(&self) -> bool {
        &&& spec_records_sorted(self.records@)
        &&& self.histogram_settings.measurement_unit.wf()
    }

    pub fn new(records: Vec<(u64, u64)>, histogram_settings: HistogramSettings) -> (r:
        HistogramSample)
        requires
            spec_records_sorted(records@),
            histogram_settings.measurement_unit.wf(),
        ensures
            r.records == records,
            r.histogram_settings == histogram_settings,
            r.wf(),
    {
        HistogramSample { records, histogram_settings }
    }

    /// The recorded (value, multiplicity) pairs, ascending by value.
    pub fn records(&self) -> (r: &Vec<(u64, u64)>)
        ensures
            r == &self.records,
    {
        &self.records
    }

    pub fn histogram_settings(&self) -> (r: &HistogramSettings)
        ensures
            r == &self.histogram_settings,
    {
        &self.histogram_settings
    }

    pub fn measurement_unit(&self) -> (r: &MeasurementUnit)
        ensures
            r == &self.histogram_settings.measurement_unit,
    {
        &self.histogram_settings.measurement_unit
    }
}

} // verus!
