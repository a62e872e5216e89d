//! Typed configuration records.
//!
//! Configuration files and environment overrides are read by the embedding
//! process; the library only works with these typed records.

use vstd::prelude::*;

use crate::hiccup::HiccupsMonitorSettings;
use crate::measurement_unit::Dimension;
use crate::measurement_unit::MeasurementUnit;
use crate::measurement_unit::MeasurementUnits;
use crate::prometheus_settings::PrometheusSettings;

verus! {

/// The unit selector as it appears in configuration.
#[derive(Clone, Copy, Debug, PartialEq, Eq, Structural)]
pub enum TimeUnitsSettings {
    TimeNanos,
    TimeMicros,
    TimeMillis,
    TimeSeconds,
    InfoBytes,
    InfoKiloBytes,
    InfoMegaBytes,
    InfoGigaBytes,
    Percentage,
    Unitless,
}

impl TimeUnitsSettings {
    /// The measurement unit this configuration value selects.
    pub fn to_measurement_units(&self) -> (r: MeasurementUnit)
        ensures
            r.wf(),
            *self == TimeUnitsSettings::TimeNanos ==> r.dimension == Dimension::Time
                && r.magnitude.scale == 1,
            *self == TimeUnitsSettings::TimeMicros ==> r.dimension == Dimension::Time
                && r.magnitude.scale == 1_000,
            *self == TimeUnitsSettings::TimeMillis ==> r.dimension == Dimension::Time
                && r.magnitude.scale == 1_000_000,
            *self == TimeUnitsSettings::TimeSeconds ==> r.dimension == Dimension::Time
                && r.magnitude.scale == 1_000_000_000,
            *self == TimeUnitsSettings::InfoBytes ==> r.dimension == Dimension::Information
                && r.magnitude.scale == 1_000_000_000,
            *self == TimeUnitsSettings::InfoKiloBytes ==> r.dimension
                == Dimension::Information && r.magnitude.scale == 1_024_000_000_000,
            *self == TimeUnitsSettings::InfoMegaBytes ==> r.dimension
                == Dimension::Information && r.magnitude.scale == 1_048_576_000_000_000,
            *self == TimeUnitsSettings::InfoGigaBytes ==> r.dimension
                == Dimension::Information && r.magnitude.scale == 1_073_741_824_000_000_000,
            *self == TimeUnitsSettings::Percentage ==> r.dimension == Dimension::Percentage
                && r.magnitude.scale == 1_000_000_000,
            *self == TimeUnitsSettings::Unitless ==> r.dimension == Dimension::Unitless
                && r.magnitude.scale == 1_000_000_000,
    {
        let units = MeasurementUnits::new();
        match self {
            TimeUnitsSettings::TimeNanos => units.time.nanos,
            TimeUnitsSettings::TimeMicros => units.time.micros,
            TimeUnitsSettings::TimeMillis => units.time.millis,
            TimeUnitsSettings::TimeSeconds => units.time.seconds,
            TimeUnitsSettings::InfoBytes => units.information.bytes,
            TimeUnitsSettings::InfoKiloBytes => units.information.kilobytes,
            TimeUnitsSettings::InfoMegaBytes => units.information.megabytes,
            TimeUnitsSettings::InfoGigaBytes => units.information.gigabytes,
            TimeUnitsSettings::Percentage => units.percentage,
            TimeUnitsSettings::Unitless => units.unitless,
        }
    }
}

/// The whole configuration record supplied at startup.
#[derive(Clone, Debug)]
pub struct Settings {
    pub debug: bool,
    pub prometheus_exporter: PrometheusSettings,
    pub hiccups_monitor: HiccupsMonitorSettings,
}

impl Default for Settings {
    /// The builtin defaults used when no file or environment override is given.
    fn default() -> (r: Settings)
        ensures
            r.debug == false,
    {
        Settings {
            debug: false,
            prometheus_exporter: PrometheusSettings::default(),
            hiccups_monitor: HiccupsMonitorSettings::default(),
        }
    }
}

} // verus!
