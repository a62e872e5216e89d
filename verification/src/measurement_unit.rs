//! Dimensional measurement units.
//!
//! A unit is a pair of a dimension and a magnitude. Magnitudes are kept as
//! exact integers: the `scale` of a unit is how many billionths of the
//! dimension's canonical unit one of this unit represents (the canonical
//! units are seconds for time and bytes for information). Time therefore has
//! nanoseconds at scale 1 and seconds at scale 1,000,000,000, and information
//! has bytes at scale 1,000,000,000 and kilobytes at 1,024 times that.
//!
//! Conversion between units of different dimensions is defined as a no-op
//! returning the input value, never a failure.

use vstd::prelude::*;

verus! {

/// Billionths of a canonical unit per canonical unit.
pub const NANOS_PER_CANONICAL: u64 = 1_000_000_000;

/// The dimension a unit measures.
#[derive(Clone, Copy, Debug, PartialEq, Eq, Structural)]
pub enum Dimension {
    /// No particular dimension.
    Unitless,
    Time,
    Percentage,
    Information,
}

/// A named magnitude within a dimension. `scale` is the number of billionths
/// of the dimension's canonical unit that one of this unit represents.
#[derive(Clone, Debug, PartialEq, Eq)]
pub struct Magnitude {
    pub name: String,
    pub scale: u64,
}

impl Magnitude {
    pub fn new(name: String, scale: u64) -> (r: Magnitude)
        ensures
            r.name == name,
            r.scale == scale,
    {
        Magnitude { name, scale }
    }
}

/// A dimensional measurement unit.
#[derive(Clone, Debug, PartialEq, Eq)]
pub struct MeasurementUnit {
    pub dimension: Dimension,
    pub magnitude: Magnitude,
}

impl MeasurementUnit {
    /// A unit is well formed when its magnitude is positive.
    pub open spec fn wf(&self) -> bool {
        self.magnitude.scale >= 1
    }

    pub fn new(dimension: Dimension, magnitude: Magnitude) -> (r: MeasurementUnit)
        ensures
            r.dimension == dimension,
            r.magnitude == magnitude,
    {
        MeasurementUnit { dimension, magnitude }
    }

    /// A copy of the unit that agrees on dimension, scale, and name.
    pub fn duplicate(&self) -> (r: MeasurementUnit)
        ensures
            r.dimension == self.dimension,
            r.magnitude.scale == self.magnitude.scale,
            r.magnitude.name@ == self.magnitude.name@,
            r.wf() == self.wf(),
    {
        MeasurementUnit {
            dimension: self.dimension,
            magnitude: Magnitude {
                name: self.magnitude.name.clone(),
                scale: self.magnitude.scale,
            },
        }
    }
}

/// The time units: nanoseconds through seconds.
pub struct TimeUnits {
    pub nanos: MeasurementUnit,
    pub micros: MeasurementUnit,
    pub millis: MeasurementUnit,
    pub seconds: MeasurementUnit,
}

impl TimeUnits {
    pub fn new() -> (r: TimeUnits)
        ensures
            r.nanos.dimension == Dimension::Time && r.nanos.magnitude.scale == 1,
            r.micros.dimension == Dimension::Time && r.micros.magnitude.scale == 1_000,
            r.millis.dimension == Dimension::Time && r.millis.magnitude.scale == 1_000_000,
            r.seconds.dimension == Dimension::Time && r.seconds.magnitude.scale
                == 1_000_000_000,
    {
        TimeUnits {
            nanos: MeasurementUnit::new(
                Dimension::Time,
                Magnitude::new(String::from_str("nanoseconds"), 1),
            ),
            micros: MeasurementUnit::new(
                Dimension::Time,
                Magnitude::new(String::from_str("microseconds"), 1_000),
            ),
            millis: MeasurementUnit::new(
                Dimension::Time,
                Magnitude::new(String::from_str("milliseconds"), 1_000_000),
            ),
            seconds: MeasurementUnit::new(
                Dimension::Time,
                Magnitude::new(String::from_str("seconds"), 1_000_000_000),
            ),
        }
    }
}

/// The information units: bytes and its power-of-two multiples.
pub struct InformationUnits {
    pub bytes: MeasurementUnit,
    pub kilobytes: MeasurementUnit,
    pub megabytes: MeasurementUnit,
    pub gigabytes: MeasurementUnit,
}

impl InformationUnits {
    pub fn new() -> (r: InformationUnits)
        ensures
            r.bytes.dimension == Dimension::Information && r.bytes.magnitude.scale
                == 1_000_000_000,
            r.kilobytes.dimension == Dimension::Information && r.kilobytes.magnitude.scale
                == 1_024_000_000_000,
            r.megabytes.dimension == Dimension::Information && r.megabytes.magnitude.scale
                == 1_048_576_000_000_000,
            r.gigabytes.dimension == Dimension::Information && r.gigabytes.magnitude.scale
                == 1_073_741_824_000_000_000,
    {
        InformationUnits {
            bytes: MeasurementUnit::new(
                Dimension::Information,
                Magnitude::new(String::from_str("bytes"), 1_000_000_000),
            ),
            kilobytes: MeasurementUnit::new(
                Dimension::Information,
                Magnitude::new(String::from_str("kilobytes"), 1_024_000_000_000),
            ),
            megabytes: MeasurementUnit::new(
                Dimension::Information,
                Magnitude::new(String::from_str("megabytes"), 1_048_576_000_000_000),
            ),
            gigabytes: MeasurementUnit::new(
                Dimension::Information,
                Magnitude::new(String::from_str("gigabytes"), 1_073_741_824_000_000_000),
            ),
        }
    }
}

/// All unit singletons, grouped by dimension.
pub struct MeasurementUnits {
    pub time: TimeUnits,
    pub information: InformationUnits,
    pub percentage: MeasurementUnit,
    pub unitless: MeasurementUnit,
}

impl MeasurementUnits {
    pub fn new() -> (r: MeasurementUnits)
        ensures
            r.time.nanos.dimension == Dimension::Time && r.time.nanos.magnitude.scale == 1,
            r.time.micros.dimension == Dimension::Time && r.time.micros.magnitude.scale
                == 1_000,
            r.time.millis.dimension == Dimension::Time && r.time.millis.magnitude.scale
                == 1_000_000,
            r.time.seconds.dimension == Dimension::Time && r.time.seconds.magnitude.scale
                == 1_000_000_000,
            r.information.bytes.dimension == Dimension::Information
                && r.information.bytes.magnitude.scale == 1_000_000_000,
            r.information.kilobytes.dimension == Dimension::Information
                && r.information.kilobytes.magnitude.scale == 1_024_000_000_000,
            r.information.megabytes.dimension == Dimension::Information
                && r.information.megabytes.magnitude.scale == 1_048_576_000_000_000,
            r.information.gigabytes.dimension == Dimension::Information
                && r.information.gigabytes.magnitude.scale == 1_073_741_824_000_000_000,
            r.percentage.dimension == Dimension::Percentage && r.percentage.magnitude.scale
                == 1_000_000_000,
            r.unitless.dimension == Dimension::Unitless && r.unitless.magnitude.scale
                == 1_000_000_000,
    {
        MeasurementUnits {
            time: TimeUnits::new(),
            information: InformationUnits::new(),
            percentage: MeasurementUnit::new(
                Dimension::Percentage,
                Magnitude::new(String::from_str("percentage"), 1_000_000_000),
            ),
            unitless: MeasurementUnit::new(
                Dimension::Unitless,
                Magnitude::new(String::from_str("none"), 1_000_000_000),
            ),
        }
    }
}

/// An exact scaled quantity: the value `num / den` in some target unit.
#[derive(Clone, Copy, Debug, PartialEq, Eq, Structural)]
pub struct Scaled {
    pub num: u128,
    pub den: u64,
}

/// Convert `value`, measured in `from` units, into `to` units, exactly.
///
/// Units of different dimensions are not convertible: the value is then
/// returned unchanged (denominator 1), mirroring the no-op-with-warning
/// policy of the unit model.
pub fn convert(value: u64, from: &MeasurementUnit, to: &MeasurementUnit) -> (r: Scaled)
    requires
        from.wf(),
        to.wf(),
    ensures
        from.dimension != to.dimension ==> r.num == value && r.den == 1,
        from.dimension == to.dimension ==> r.num == value * from.magnitude.scale && r.den
            == to.magnitude.scale,
        r.den >= 1,
{
    proof {
        assert((value as int) * (from.magnitude.scale as int) <= (u64::MAX as int) * (
        u64::MAX as int)) by (nonlinear_arith)
            requires
                value <= u64::MAX,
                from.magnitude.scale <= u64::MAX,
        ;
    }
    if from.dimension != to.dimension {
        Scaled { num: value as u128, den: 1 }
    } else {
        Scaled {
            num: (value as u128) * (from.magnitude.scale as u128),
            den: to.magnitude.scale,
        }
    }
}

/// The factor that takes a recorded value of `unit` into billionths of the
/// canonical unit for the purpose of bucket comparison. Values of a
/// non-time unit are not converted (they are compared as canonical-unit
/// counts), matching the no-op conversion policy.
pub open spec fn spec_projection_scale(unit: &MeasurementUnit) -> u64 {
    if unit.dimension == Dimension::Time {
        unit.magnitude.scale
    } else {
        NANOS_PER_CANONICAL
    }
}

/// Executable twin of [`spec_projection_scale`].
pub fn projection_scale(unit: &MeasurementUnit) -> (r: u64)
    ensures
        r == spec_projection_scale(unit),
{
    if unit.dimension == Dimension::Time {
        unit.magnitude.scale
    } else {
        NANOS_PER_CANONICAL
    }
}

/// Convert a duration given in nanoseconds into a whole number of `unit`,
/// truncating. A non-time unit receives the duration as truncated seconds,
/// under the same no-op conversion policy as [`convert`].
pub fn duration_to_unit(nanos: u64, unit: &MeasurementUnit) -> (r: u64)
    requires
        unit.wf(),
    ensures
        r == nanos as int / spec_projection_scale(unit) as int,
{
    if unit.dimension == Dimension::Time {
        nanos / unit.magnitude.scale
    } else {
        nanos / NANOS_PER_CANONICAL
    }
}

} // verus!
