//! The hiccup sampler's decision core.
//!
//! A hiccup is the excess time beyond the best case that elapses between
//! asking to sleep for a fixed resolution and actually waking up. The
//! surrounding thread loop (sleeping and measuring) lives outside the
//! library; this module holds the state update and the coordinated-omission
//! correction, which decide what gets recorded.

use vstd::arithmetic::div_mod::lemma_fundamental_div_mod_converse;
use vstd::prelude::*;

use crate::histogram::HistogramRecorder;
use crate::settings::TimeUnitsSettings;

verus! {

/// Configuration of the hiccup monitor.
#[derive(Clone, Debug)]
pub struct HiccupsMonitorSettings {
    pub name: String,
    pub description: String,
    pub resolution_nanos: u64,
    pub histogram_settings: HiccupsHistogramSettings,
}

/// Configuration of the histogram the hiccup monitor records into.
#[derive(Clone, Debug)]
pub struct HiccupsHistogramSettings {
    pub min: u64,
    pub max: u64,
    pub precision: u8,
    pub unit: TimeUnitsSettings,
}

impl Default for HiccupsMonitorSettings {
    fn default() -> (r: HiccupsMonitorSettings)
        ensures
            r.name@ == "hiccups_duration_seconds"@,
            r.description@ == "Hiccups detected in the VM expressed in nanoseconds."@,
            r.resolution_nanos == 1_000_000,
            r.histogram_settings.min == 1,
            r.histogram_settings.max == 1_000_000,
            r.histogram_settings.precision == 0,
            r.histogram_settings.unit == TimeUnitsSettings::TimeNanos,
    {
        HiccupsMonitorSettings {
            name: String::from_str("hiccups_duration_seconds"),
            description: String::from_str(
                "Hiccups detected in the VM expressed in nanoseconds.",
            ),
            resolution_nanos: 1_000_000,
            histogram_settings: HiccupsHistogramSettings::default(),
        }
    }
}

impl Default for HiccupsHistogramSettings {
    fn default() -> (r: HiccupsHistogramSettings)
        ensures
            r.min == 1,
            r.max == 1_000_000,
            r.precision == 0,
            r.unit == TimeUnitsSettings::TimeNanos,
    {
        HiccupsHistogramSettings {
            min: 1,
            max: 1_000_000,
            precision: 0,
            unit: TimeUnitsSettings::TimeNanos,
        }
    }
}

/// The running state of the hiccup sampler: the shortest elapsed time it has
/// observed so far for one sleep of the configured resolution.
pub struct HiccupState {
    pub shortest: u64,
}

impl HiccupState {
    /// A fresh sampler state, before any observation.
    pub fn new() -> (r: HiccupState)
        ensures
            r.shortest == u64::MAX,
    {
        HiccupState { shortest: u64::MAX }
    }

    /// Fold one measured elapsed time (in nanoseconds) into the state and
    /// return the hiccup it shows: the excess of the elapsed time over the
    /// shortest elapsed time seen so far.
    ///
    /// The very first observation always yields a hiccup of zero.
    pub fn observe(&mut self, elapsed: u64) -> (hiccup: u64)
        ensures
            final(self).shortest == if elapsed < old(self).shortest {
                elapsed
            } else {
                old(self).shortest
            },
            hiccup == elapsed - final(self).shortest,
            old(self).shortest == u64::MAX ==> hiccup == 0,
    {
        if elapsed < self.shortest {
            self.shortest = elapsed;
        }
        elapsed - self.shortest
    }
}

/// How many values the coordinated-omission correction records for a hiccup
/// of `hiccup` nanoseconds at an expected sampling interval of `resolution`
/// nanoseconds: the hiccup itself, plus one value for each whole interval
/// that was silently skipped during the stall.
pub open spec fn spec_num_correction_records(hiccup: u64, resolution: u64) -> int {
    if resolution > 0 && hiccup >= resolution {
        hiccup as int / resolution as int
    } else {
        1
    }
}

/// The values the coordinated-omission correction records for one hiccup:
/// the hiccup itself, then one synthetic observation per skipped interval,
/// each one `resolution` smaller than the one before.
///
/// The list holds `1 + max(0, hiccup / resolution - 1)` values, each at most
/// `hiccup`; with a resolution of zero the correction is skipped and the
/// list holds exactly the hiccup.
pub fn correction_values(hiccup: u64, resolution: u64) -> (vals: Vec<u64>)
    ensures
        vals@.len() == spec_num_correction_records(hiccup, resolution),
        forall|i: int|
            0 <= i < vals@.len() ==> vals@[i] == hiccup - i * resolution,
        forall|i: int| 0 <= i < vals@.len() ==> vals@[i] <= hiccup,
{
    let mut vals: Vec<u64> = Vec::new();
    vals.push(hiccup);
    proof {
        assert(vals@.len() == 1);
        assert(vals@[0] == hiccup);
        assert forall|i: int|
            0 <= i < vals@.len() implies vals@[i] == hiccup - i * resolution by {
            assert(i == 0);
            assert(i * resolution == 0);
        }
    }
    if resolution > 0 && hiccup >= resolution {
        let mut missing: u64 = hiccup - resolution;
        while missing >= resolution
            invariant
                resolution > 0,
                hiccup >= resolution,
                vals@.len() >= 1,
                missing == hiccup - vals@.len() * resolution,
                forall|i: int|
                    0 <= i < vals@.len() ==> vals@[i] == hiccup - i * resolution,
            decreases missing,
        {
            proof {
                let n = vals@.len() as int;
                assert((n + 1) * resolution == n * resolution + resolution)
                    by (nonlinear_arith);
            }
            vals.push(missing);
            missing = missing - resolution;
        }
        proof {
            lemma_fundamental_div_mod_converse(
                hiccup as int,
                resolution as int,
                vals@.len() as int,
                missing as int,
            );
        }
    }
    proof {
        assert forall|i: int| 0 <= i < vals@.len() implies vals@[i] <= hiccup by {
            assert(vals@[i] == hiccup - i * resolution);
            assert(i * resolution >= 0) by (nonlinear_arith)
                requires
                    i >= 0,
                    resolution >= 0,
            ;
        }
    }
    vals
}

/// Record one hiccup with its coordinated-omission correction: the hiccup
/// itself and one synthetic observation per skipped interval. Values the
/// distribution cannot track are dropped, not propagated.
pub fn record_with_correction(recorder: &mut HistogramRecorder, hiccup: u64,
    resolution: u64)
    ensures
        final(recorder).measurement_unit == old(recorder).measurement_unit,
{
    let vals = correction_values(hiccup, resolution);
    let mut i: usize = 0;
    while i < vals.len()
        invariant
            recorder.measurement_unit == old(recorder).measurement_unit,
        decreases vals@.len() - i,
    {
        let _ = recorder.record(vals[i]);
        i += 1;
    }
}

} // verus!
