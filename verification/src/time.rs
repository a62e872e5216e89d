//! Clock access: the wall clock for snapshot timestamps and the monotonic
//! clock for measuring elapsed time.

use vstd::prelude::*;

verus! {

#[verifier::external_type_specification]
#[verifier::external_body]
pub struct ExSystemTime(std::time::SystemTime);

#[verifier::external_type_specification]
#[verifier::external_body]
pub struct ExInstant(std::time::Instant);

/// Relies on std::time::SystemTime::now: the wall clock at the call.
/// Nothing is promised of the value.
#[verifier::external_body]
fn system_now() -> std::time::SystemTime {
    std::time::SystemTime::now()
}

/// Relies on std::time::SystemTime::duration_since: the span from the Unix
/// epoch to the given time, or zero when the clock reads before the epoch.
/// Nothing is promised of the value.
#[verifier::external_body]
fn duration_since_epoch(t: &std::time::SystemTime) -> core::time::Duration {
    match t.duration_since(std::time::UNIX_EPOCH) {
        Ok(d) => d,
        Err(_) => core::time::Duration::ZERO,
    }
}

/// Relies on core::time::Duration::as_millis: the whole milliseconds of the
/// span, truncated into a u64. Nothing is promised of the value.
#[verifier::external_body]
fn duration_millis(d: &core::time::Duration) -> u64 {
    #[allow(clippy::cast_possible_truncation)]
    let ms = d.as_millis() as u64;
    ms
}

/// Relies on core::time::Duration::as_nanos: the whole nanoseconds of the
/// span, truncated into a u64. Nothing is promised of the value.
#[verifier::external_body]
fn duration_nanos(d: &core::time::Duration) -> u64 {
    #[allow(clippy::cast_possible_truncation)]
    let ns = d.as_nanos() as u64;
    ns
}

/// Milliseconds between the current time and midnight, January 1, 1970.
pub fn current_millis() -> u64 {
    let t = system_now();
    let d = duration_since_epoch(&t);
    duration_millis(&d)
}

/// Relies on std::time::Instant::now: the monotonic clock at the call.
/// Nothing is promised of the value.
#[verifier::external_body]
pub fn monotonic_now() -> std::time::Instant {
    std::time::Instant::now()
}

/// Relies on std::time::Instant::elapsed: the span from the given instant
/// to now. Nothing is promised of the value.
#[verifier::external_body]
fn elapsed_since(start: &std::time::Instant) -> core::time::Duration {
    start.elapsed()
}

/// Nanoseconds elapsed since the given monotonic instant, truncated to u64.
pub fn elapsed_nanos(start: &std::time::Instant) -> u64 {
    let d = elapsed_since(start);
    duration_nanos(&d)
}

} // verus!
