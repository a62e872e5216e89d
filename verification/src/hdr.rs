//! The high-dynamic-range histogram primitive, from the `hdrhistogram`
//! crate: a bounded-range, fixed-precision distribution with many concurrent
//! writers and one reader. Everything this library states about it is
//! collected here. The distribution itself is opaque to the rest of the
//! library: it is held behind the holder types below, and only the
//! functions here touch it.

use hdrhistogram::Histogram as HdrHistogram;
use vstd::prelude::*;

use crate::snapshot::spec_records_sorted;

verus! {

#[verifier::external_type_specification]
#[verifier::external_body]
pub struct ExCreationError(hdrhistogram::CreationError);

#[verifier::external_type_specification]
#[verifier::external_body]
pub struct ExRecordError(hdrhistogram::RecordError);

/// Holds one plain (single-writer) distribution.
#[verifier::external_body]
pub struct HdrDistribution {
    inner: HdrHistogram<u64>,
}

/// Holds one shared many-writer/one-reader distribution.
#[verifier::external_body]
pub struct HdrSyncDistribution {
    inner: hdrhistogram::SyncHistogram<u64>,
}

/// Holds one concurrent writer handle of a shared distribution.
#[verifier::external_body]
pub struct HdrRecorder {
    inner: hdrhistogram::sync::Recorder<u64>,
}

/// Relies on hdrhistogram's Histogram::new_with_bounds: construction fails
/// when `low` is zero or above half the u64 range, `high` is below twice
/// `low`, or `sigfig` is above five (and in some extreme combinations of
/// `low` and `sigfig`); it never succeeds on those invalid inputs. It is
/// sure to succeed when `low` also stays below 2^45: the magnitude check
/// (floor(log2(low)) plus at most 18 sub-bucket bits within 63) then
/// passes, and the counts array length, a u32, fits this target's usize.
#[verifier::external_body]
pub fn hdr_new_with_bounds(low: u64, high: u64, sigfig: u8) -> (r: Result<
    HdrDistribution,
    hdrhistogram::CreationError,
>)
    ensures
        (low < 1 || low > u64::MAX / 2 || high < 2 * low || sigfig > 5) ==> r.is_err(),
        (1 <= low && low < 0x2000_0000_0000 && 2 * low <= high && sigfig <= 5)
            ==> r.is_ok(),
{
    match HdrHistogram::<u64>::new_with_bounds(low, high, sigfig) {
        Ok(inner) => Ok(HdrDistribution { inner }),
        Err(e) => Err(e),
    }
}

/// Relies on hdrhistogram's CreationError Display impl: a short text for
/// the failure. Nothing is promised of the text.
#[verifier::external_body]
pub fn creation_error_text(e: &hdrhistogram::CreationError) -> String {
    format!("{}", e)
}

/// Relies on hdrhistogram's RecordError Display impl: a short text for the
/// failure. Nothing is promised of the text.
#[verifier::external_body]
pub fn record_error_text(e: &hdrhistogram::RecordError) -> String {
    format!("{}", e)
}

/// Relies on hdrhistogram's Histogram::into_sync: wraps the distribution
/// for many-writer/one-reader use.
#[verifier::external_body]
pub fn hdr_into_sync(h: HdrDistribution) -> HdrSyncDistribution {
    HdrSyncDistribution { inner: h.inner.into_sync() }
}

/// Relies on hdrhistogram's SyncHistogram::recorder: a fresh concurrent
/// writer handle for the shared distribution.
#[verifier::external_body]
pub fn hdr_recorder(h: &HdrSyncDistribution) -> HdrRecorder {
    HdrRecorder { inner: h.inner.recorder() }
}

/// Relies on hdrhistogram's Recorder::record: records one value into the
/// writer's local histogram, failing when the value exceeds the trackable
/// range. Nothing is promised of the outcome.
#[verifier::external_body]
pub fn hdr_record(r: &mut HdrRecorder, value: u64) -> Result<
    (),
    hdrhistogram::RecordError,
> {
    r.inner.record(value)
}

/// Relies on hdrhistogram's SyncHistogram::refresh_timeout: blocks until
/// every writer's outstanding values are merged, or until the given number
/// of milliseconds has passed.
#[verifier::external_body]
pub fn hdr_refresh_timeout(h: &mut HdrSyncDistribution, timeout_ms: u64) {
    h.inner.refresh_timeout(core::time::Duration::from_millis(timeout_ms));
}

/// Relies on hdrhistogram's Histogram::reset: empties the distribution.
#[verifier::external_body]
pub fn hdr_reset(h: &mut HdrSyncDistribution) {
    h.inner.reset();
}

/// Relies on hdrhistogram's Histogram::iter_recorded: one entry per
/// non-empty bin, in ascending value order (so the values in the returned
/// pairs strictly increase), each with the bin's highest equivalent value
/// and its recorded count, which is at least one.
#[verifier::external_body]
pub fn hdr_recorded_pairs(h: &HdrSyncDistribution) -> (r: Vec<(u64, u64)>)
    ensures
        spec_records_sorted(r@),
        forall|i: int| 0 <= i < r@.len() ==> (#[trigger] r@[i]).1 >= 1,
{
    h.inner.iter_recorded().map(|v| (v.value_iterated_to(), v.count_at_value())).collect()
}

} // verus!
