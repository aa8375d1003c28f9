//! A single timestamped measurement for one device.

use vstd::prelude::*;

verus! {

/// One immutable measurement for one device.
///
/// Instants are milliseconds of wall-clock time; measurements are fixed-point
/// integers in thousandths of their unit (percent, megabytes, degrees, watts),
/// so a utilization of 42.5% is stored as 42_500. Values are stored as the
/// probe reported them, unclamped.
#[derive(Clone, Copy, PartialEq, Eq, Structural, Debug)]
pub struct Sample {
    /// Wall-clock instant of the measurement, in milliseconds.
    pub timestamp: u64,
    /// Utilization in milli-percent.
    pub utilization: i64,
    /// Memory in use, in milli-megabytes.
    pub memory_used: i64,
    /// Total memory, in milli-megabytes.
    pub memory_total: i64,
    /// Temperature in milli-degrees, device-reported unit.
    pub temperature: i64,
    /// Power draw in milli-watts.
    pub power_draw: i64,
}

impl Sample {
    /// Builds a sample taken at `timestamp` from the five measurements.
    pub fn new(
        timestamp: u64,
        utilization: i64,
        memory_used: i64,
        memory_total: i64,
        temperature: i64,
        power_draw: i64,
    ) -> (s: Sample)
        ensures
            s == (Sample {
                timestamp,
                utilization,
                memory_used,
                memory_total,
                temperature,
                power_draw,
            }),
    {
        Sample { timestamp, utilization, memory_used, memory_total, temperature, power_draw }
    }
}

} // verus!
