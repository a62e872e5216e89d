//! The histogram façade: settings, builders, recorders, and the histogram
//! itself, wrapping the shared high-dynamic-range distribution with metric
//! identity and sampling.

use vstd::prelude::*;

use crate::errors::Error;
use crate::hdr::creation_error_text;
use crate::hdr::hdr_into_sync;
use crate::hdr::hdr_new_with_bounds;
use crate::hdr::hdr_record;
use crate::hdr::hdr_recorded_pairs;
use crate::hdr::hdr_recorder;
use crate::hdr::hdr_refresh_timeout;
use crate::hdr::hdr_reset;
use crate::hdr::record_error_text;
use crate::hdr::HdrRecorder;
use crate::hdr::HdrSyncDistribution;
use crate::measurement_unit::duration_to_unit;
use crate::measurement_unit::Dimension;
use crate::measurement_unit::Magnitude;
use crate::measurement_unit::MeasurementUnit;
use crate::metric::MetricDescription;
use crate::snapshot::HistogramSample;
use crate::time::elapsed_nanos;
use crate::time::monotonic_now;

verus! {

/// The bounds, precision and unit a histogram is created with.
#[derive(Clone, Debug)]
pub struct HistogramSettings {
    /// The lowest value discernible from zero.
    pub low: u64,
    /// The highest trackable value.
    pub high: u64,
    /// Significant decimal digits of resolution, at most five.
    pub precision: u8,
    pub measurement_unit: MeasurementUnit,
}

impl HistogramSettings {
    /// Settings the distribution primitive is sure to accept: bounds in
    /// range, and `low` small enough that the precision fits alongside it.
    pub open spec fn creatable(&self) -> bool {
        &&& 1 <= self.low
        &&& self.low < 0x2000_0000_0000
        &&& 2 * self.low <= self.high
        &&& self.precision <= 5
    }

    /// The settings a distribution can actually be created with.
    pub open spec fn wf(&self) -> bool {
        &&& 1 <= self.low
        &&& self.low <= u64::MAX / 2
        &&& 2 * self.low <= self.high
        &&& self.precision <= 5
        &&& self.measurement_unit.wf()
    }

    /// A copy of the settings that agrees on every observable field.
    pub fn duplicate(&self) -> (r: HistogramSettings)
        ensures
            r.low == self.low,
            r.high == self.high,
            r.precision == self.precision,
            r.measurement_unit.dimension == self.measurement_unit.dimension,
            r.measurement_unit.magnitude.scale == self.measurement_unit.magnitude.scale,
            r.measurement_unit.magnitude.name@ == self.measurement_unit.magnitude.name@,
            r.wf() == self.wf(),
            r.measurement_unit.wf() == self.measurement_unit.wf(),
    {
        HistogramSettings {
            low: self.low,
            high: self.high,
            precision: self.precision,
            measurement_unit: self.measurement_unit.duplicate(),
        }
    }

    pub fn from(low: u64, high: u64, precision: u8, measurement_unit: MeasurementUnit)
        -> (r: HistogramSettings)
        ensures
            r.low == low,
            r.high == high,
            r.precision == precision,
            r.measurement_unit == measurement_unit,
    {
        HistogramSettings { low, high, precision, measurement_unit }
    }
}

impl Default for HistogramSettings {
    fn default() -> (r: HistogramSettings)
        ensures
            r.low == 1,
            r.high == 1_000_000,
            r.precision == 2,
            r.measurement_unit.dimension == Dimension::Time,
            r.measurement_unit.magnitude.scale == 1_000_000_000,
            r.wf(),
    {
        HistogramSettings {
            low: 1,
            high: 1_000_000,
            precision: 2,
            measurement_unit: MeasurementUnit::new(
                Dimension::Time,
                Magnitude::new(String::from_str("seconds"), 1_000_000_000),
            ),
        }
    }
}

/// Collects what a histogram needs before registration: the metric
/// identity pieces and the distribution settings.
#[derive(Clone, Debug)]
pub struct HistogramBuilder {
    pub name: String,
    pub description: String,
    pub tags: Vec<(String, String)>,
    pub settings: HistogramSettings,
}

impl HistogramBuilder {
    pub fn new(name: String, description: String) -> (r: HistogramBuilder)
        ensures
            r.name@ == name@,
            r.description@ == description@,
            r.tags@.len() == 0,
            r.settings.low == 1,
            r.settings.high == 1_000_000,
            r.settings.precision == 2,
            r.settings.measurement_unit.dimension == Dimension::Time,
            r.settings.measurement_unit.magnitude.scale == 1_000_000_000,
    {
        HistogramBuilder {
            name,
            description,
            tags: Vec::new(),
            settings: HistogramSettings::default(),
        }
    }

    /// Add one tag.
    pub fn with_tags(self, name: String, value: String) -> (r: HistogramBuilder)
        ensures
            r.name == self.name,
            r.description == self.description,
            r.settings == self.settings,
            r.tags@ == self.tags@.push((name, value)),
    {
        let mut tags = self.tags;
        tags.push((name, value));
        HistogramBuilder {
            name: self.name,
            description: self.description,
            tags,
            settings: self.settings,
        }
    }

    pub fn with_settings(self, histogram_settings: HistogramSettings) -> (r:
        HistogramBuilder)
        ensures
            r.name == self.name,
            r.description == self.description,
            r.tags == self.tags,
            r.settings == histogram_settings,
    {
        HistogramBuilder {
            name: self.name,
            description: self.description,
            tags: self.tags,
            settings: histogram_settings,
        }
    }

    /// Build and validate the metric description this builder denotes.
    pub fn metric_description(&self) -> (r: Result<MetricDescription, Error>)
        ensures
            r.is_ok() <==> crate::metric::spec_description_ok(self.name@, self.tags@),
            r matches Ok(d) ==> {
                &&& d.wf()
                &&& d.name@ == self.name@
                &&& d.description@ == self.description@
                &&& crate::metric::spec_tags_views_equal(d.tags@, self.tags@)
                &&& d.id == crate::metric::spec_metric_id(
                    self.name@,
                    crate::metric::tag_values_of(self.tags@),
                )
                &&& d.definition_hash == crate::metric::spec_definition_hash(
                    self.name@,
                    self.description@,
                    crate::metric::tag_names_of(self.tags@),
                )
            },
            r matches Err(e) ==> e matches Error::Msg(_),
    {
        let tags = crate::metric::clone_tags(&self.tags);
        proof {
            crate::metric::lemma_tags_views_equal_transfer(tags@, self.tags@);
        }
        MetricDescription::from(self.name.clone(), self.description.clone(), tags)
    }
}

/// A lightweight writer handle for one histogram. Many recorders for the
/// same histogram write concurrently without blocking its reader.
pub struct HistogramRecorder {
    pub recorder: HdrRecorder,
    pub measurement_unit: MeasurementUnit,
}

impl HistogramRecorder {
    pub fn new(
        recorder: HdrRecorder,
        measurement_unit: MeasurementUnit,
    ) -> (r: HistogramRecorder)
        ensures
            r.measurement_unit == measurement_unit,
    {
        HistogramRecorder { recorder, measurement_unit }
    }

    /// Record one value, already expressed in the recorder's unit. Fails
    /// only when the distribution cannot track the value.
    pub fn record(&mut self, value: u64) -> (r: Result<(), Error>)
        ensures
            final(self).measurement_unit == old(self).measurement_unit,
            r matches Err(e) ==> e matches Error::Msg(_),
    {
        match hdr_record(&mut self.recorder, value) {
            Ok(()) => Ok(()),
            Err(error) => Err(Error::Msg(record_error_text(&error))),
        }
    }

    /// Record a duration, given in nanoseconds, converted into the
    /// recorder's unit (truncating).
    pub fn record_duration(&mut self, duration_nanos: u64) -> (r: Result<(), Error>)
        requires
            old(self).measurement_unit.wf(),
        ensures
            final(self).measurement_unit == old(self).measurement_unit,
            r matches Err(e) ==> e matches Error::Msg(_),
    {
        let value = duration_to_unit(duration_nanos, &self.measurement_unit);
        self.record(value)
    }

    /// Capture the monotonic clock; closing the returned timer records the
    /// elapsed duration.
    pub fn start_timer(&self) -> HistogramTimer {
        HistogramTimer { start: monotonic_now() }
    }
}

/// A running measurement: the instant a timer was started.
pub struct HistogramTimer {
    pub start: std::time::Instant,
}

impl HistogramTimer {
    /// Stop the measurement and record the elapsed duration into the
    /// recorder. Returns the elapsed nanoseconds.
    pub fn close(&self, recorder: &mut HistogramRecorder) -> (r: u64)
        requires
            old(recorder).measurement_unit.wf(),
        ensures
            final(recorder).measurement_unit == old(recorder).measurement_unit,
    {
        let elapsed = elapsed_nanos(&self.start);
        let _ = recorder.record_duration(elapsed);
        elapsed
    }
}

/// A registered histogram: metric identity, settings, and the shared
/// distribution the recorders write into.
pub struct Histogram {
    pub metric_description: MetricDescription,
    pub histogram_settings: HistogramSettings,
    pub hdr_histogram: HdrSyncDistribution,
}

impl Histogram {
    /// The histogram's unit is usable for conversions.
    pub open spec fn wf(&self) -> bool {
        self.histogram_settings.measurement_unit.wf()
    }

    /// Create the shared distribution for the given settings. Settings
    /// outside the ranges the distribution supports are rejected; creatable
    /// settings are sure to be accepted.
    pub fn new(metric_description: MetricDescription, histogram_settings: HistogramSettings)
        -> (r: Result<Histogram, Error>)
        requires
            histogram_settings.measurement_unit.wf(),
        ensures
            r matches Ok(h) ==> h.metric_description == metric_description
                && h.histogram_settings == histogram_settings && h.wf(),
            (histogram_settings.low < 1 || histogram_settings.low > u64::MAX / 2
                || histogram_settings.high < 2 * histogram_settings.low
                || histogram_settings.precision > 5) ==> r.is_err(),
            histogram_settings.creatable() ==> r.is_ok(),
            r matches Err(e) ==> e matches Error::Msg(_),
    {
        match hdr_new_with_bounds(
            histogram_settings.low,
            histogram_settings.high,
            histogram_settings.precision,
        ) {
            Ok(hdr) => Ok(
                Histogram {
                    metric_description,
                    histogram_settings,
                    hdr_histogram: hdr_into_sync(hdr),
                },
            ),
            Err(error) => Err(Error::Msg(creation_error_text(&error))),
        }
    }

    /// Reduce the distribution into an immutable sample: force buffered
    /// writes in within a bounded refresh window, take the recorded pairs,
    /// and, when asked, reset the distribution for the next interval.
    pub fn sample(&mut self, reset: bool) -> (r: HistogramSample)
        requires
            old(self).wf(),
        ensures
            final(self).metric_description == old(self).metric_description,
            final(self).histogram_settings == old(self).histogram_settings,
            final(self).wf(),
            r.wf(),
            r.histogram_settings.low == old(self).histogram_settings.low,
            r.histogram_settings.high == old(self).histogram_settings.high,
            r.histogram_settings.precision == old(self).histogram_settings.precision,
            r.histogram_settings.measurement_unit.dimension == old(
                self,
            ).histogram_settings.measurement_unit.dimension,
            r.histogram_settings.measurement_unit.magnitude.scale == old(
                self,
            ).histogram_settings.measurement_unit.magnitude.scale,
    {
        hdr_refresh_timeout(&mut self.hdr_histogram, 1);
        let records = hdr_recorded_pairs(&self.hdr_histogram);
        if reset {
            hdr_reset(&mut self.hdr_histogram);
        }
        HistogramSample::new(records, self.histogram_settings.duplicate())
    }

    /// A fresh writer handle sharing the distribution with every other
    /// recorder of this histogram.
    pub fn new_recorder(&self) -> (r: HistogramRecorder)
        ensures
            r.measurement_unit.dimension
                == self.histogram_settings.measurement_unit.dimension,
            r.measurement_unit.magnitude.scale
                == self.histogram_settings.measurement_unit.magnitude.scale,
            self.wf() ==> r.measurement_unit.wf(),
    {
        HistogramRecorder::new(
            hdr_recorder(&self.hdr_histogram),
            self.histogram_settings.measurement_unit.duplicate(),
        )
    }

    pub fn metric_description(&self) -> (r: &MetricDescription)
        ensures
            r == &self.metric_description,
    {
        &self.metric_description
    }
}

} // verus!
