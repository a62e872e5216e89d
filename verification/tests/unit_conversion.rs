//! Exact unit conversion.

use rusty_advisor::measurement_unit::convert;
use rusty_advisor::measurement_unit::duration_to_unit;
use rusty_advisor::measurement_unit::MeasurementUnits;

#[test]
fn test_convert_from_nanos_to_seconds() {
    let units = MeasurementUnits::new();
    let from = &units.time.nanos;
    let to = &units.time.seconds;
    let result = convert(1025, from, to);
    // Exactly 0.000_001_025 seconds: 1025 over a billion.
    assert_eq!(result.num, 1025);
    assert_eq!(result.den, 1_000_000_000);
}

#[test]
fn test_convert_from_seconds_to_nanos() {
    let units = MeasurementUnits::new();
    let from = &units.time.seconds;
    let to = &units.time.nanos;
    let result = convert(1025, from, to);
    assert_eq!(result.num, 1_025_000_000_000);
    assert_eq!(result.den, 1);
}

#[test]
fn conversion_across_dimensions_returns_the_input() {
    let units = MeasurementUnits::new();
    let result = convert(42, &units.time.seconds, &units.information.bytes);
    assert_eq!(result.num, 42);
    assert_eq!(result.den, 1);
}

#[test]
fn kilobytes_to_bytes_is_exact() {
    let units = MeasurementUnits::new();
    let result = convert(3, &units.information.kilobytes, &units.information.bytes);
    // 3 KiB = 3072 bytes exactly.
    assert_eq!(result.num as u64 / result.den, 3072);
    assert_eq!(result.num as u64 % result.den, 0);
}

#[test]
fn durations_convert_into_the_recording_unit() {
    let units = MeasurementUnits::new();
    assert_eq!(duration_to_unit(1_500_000_000, &units.time.seconds), 1);
    assert_eq!(duration_to_unit(1_500_000_000, &units.time.millis), 1500);
    assert_eq!(duration_to_unit(1_500_000_000, &units.time.nanos), 1_500_000_000);
    // A non-time unit receives truncated seconds, the no-op policy.
    assert_eq!(duration_to_unit(2_900_000_000, &units.information.bytes), 2);
}
