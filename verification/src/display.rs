//! Pure display policy: the thresholds that colour a panel, the gauge and
//! sparkline values computed from fixed-point measurements, the header's
//! uptime clock. The renderer applies these to widgets; the rules are here.

use vstd::prelude::*;
use crate::sample::Sample;
use crate::store::TelemetryStore;

verus! {

/// How hot or busy a reading is, for colouring.
#[derive(Clone, Copy, PartialEq, Eq, Structural, Debug)]
pub enum LoadLevel {
    /// Nominal.
    Low,
    /// Worth a warning colour.
    Medium,
    /// Worth an alert colour.
    High,
}

/// The utilization band: above 90% is high, above 50% is medium.
pub open spec fn spec_util_level(milli_pct: i64) -> LoadLevel {
    if milli_pct > 90_000 {
        LoadLevel::High
    } else if milli_pct > 50_000 {
        LoadLevel::Medium
    } else {
        LoadLevel::Low
    }
}

/// Classifies a utilization reading in milli-percent.
pub fn util_level(milli_pct: i64) -> (r: LoadLevel)
    ensures
        r == spec_util_level(milli_pct),
{
    if milli_pct > 90_000 {
        LoadLevel::High
    } else if milli_pct > 50_000 {
        LoadLevel::Medium
    } else {
        LoadLevel::Low
    }
}

/// The temperature band: above 80 degrees is high, above 60 is medium.
pub open spec fn spec_temp_level(milli_deg: i64) -> LoadLevel {
    if milli_deg > 80_000 {
        LoadLevel::High
    } else if milli_deg > 60_000 {
        LoadLevel::Medium
    } else {
        LoadLevel::Low
    }
}

/// Classifies a temperature reading in milli-degrees.
pub fn temp_level(milli_deg: i64) -> (r: LoadLevel)
    ensures
        r == spec_temp_level(milli_deg),
{
    if milli_deg > 80_000 {
        LoadLevel::High
    } else if milli_deg > 60_000 {
        LoadLevel::Medium
    } else {
        LoadLevel::Low
    }
}

/// A fixed-point value in whole units, negatives floored to zero and the
/// result saturated at the bound — what a gauge or sparkline can take.
pub open spec fn spec_whole_units(milli: i64) -> u64 {
    if milli < 0 {
        0
    } else {
        (milli / 1000) as u64
    }
}

/// A gauge percentage from a milli-percent reading, clamped to 0–100 so
/// the gauge widget always accepts it.
pub open spec fn spec_gauge_percent(milli_pct: i64) -> u16 {
    if milli_pct < 0 {
        0
    } else if milli_pct / 1000 > 100 {
        100
    } else {
        (milli_pct / 1000) as u16
    }
}

/// The whole-percent gauge value of a milli-percent reading.
pub fn gauge_percent(milli_pct: i64) -> (r: u16)
    ensures
        r == spec_gauge_percent(milli_pct),
{
    if milli_pct < 0 {
        0
    } else if milli_pct / 1000 > 100 {
        100
    } else {
        (milli_pct / 1000) as u16
    }
}

/// The memory gauge reading in milli-percent: used over total, zero when
/// either is not positive, clamped to 100%.
pub open spec fn spec_mem_percent_milli(used: i64, total: i64) -> i64 {
    if used <= 0 || total <= 0 {
        0
    } else if used * 100_000 / (total as int) > 100_000 {
        100_000
    } else {
        (used * 100_000 / (total as int)) as i64
    }
}

/// Memory in use as a share of the total, in milli-percent.
pub fn mem_percent_milli(used: i64, total: i64) -> (r: i64)
    ensures
        r == spec_mem_percent_milli(used, total),
{
    if used <= 0 || total <= 0 {
        return 0;
    }
    let v = (used as i128) * 100_000 / (total as i128);
    proof {
        assert(used * 100_000 / (total as int) >= 0) by (nonlinear_arith)
            requires
                used > 0 && total > 0,
        ;
    }
    if v > 100_000 {
        100_000
    } else {
        v as i64
    }
}

/// The per-sample utilization points of a history, in whole percent, for
/// a sparkline.
pub fn util_points(samples: &Vec<Sample>) -> (r: Vec<u64>)
    ensures
        r@.len() == samples@.len(),
        forall|i: int|
            0 <= i < samples@.len() ==> r@[i] == spec_whole_units(
                (#[trigger] samples@[i]).utilization,
            ),
{
    let n = samples.len();
    let mut r: Vec<u64> = Vec::new();
    let mut i: usize = 0;
    while i < n
        invariant
            n == samples@.len(),
            0 <= i <= n,
            r@.len() == i,
            forall|j: int|
                0 <= j < i ==> r@[j] == spec_whole_units((#[trigger] samples@[j]).utilization),
        decreases n - i,
    {
        let m = samples[i].utilization;
        if m < 0 {
            r.push(0);
        } else {
            r.push((m / 1000) as u64);
        }
        i += 1;
    }
    r
}

/// The per-sample temperature points of a history, in whole degrees, for
/// a sparkline.
pub fn temp_points(samples: &Vec<Sample>) -> (r: Vec<u64>)
    ensures
        r@.len() == samples@.len(),
        forall|i: int|
            0 <= i < samples@.len() ==> r@[i] == spec_whole_units(
                (#[trigger] samples@[i]).temperature,
            ),
{
    let n = samples.len();
    let mut r: Vec<u64> = Vec::new();
    let mut i: usize = 0;
    while i < n
        invariant
            n == samples@.len(),
            0 <= i <= n,
            r@.len() == i,
            forall|j: int|
                0 <= j < i ==> r@[j] == spec_whole_units((#[trigger] samples@[j]).temperature),
        decreases n - i,
    {
        let m = samples[i].temperature;
        if m < 0 {
            r.push(0);
        } else {
            r.push((m / 1000) as u64);
        }
        i += 1;
    }
    r
}

/// How long the header's uptime clock has run: the age of the oldest
/// retained sample of the first device, zero when there is none or the
/// clock went backwards.
pub open spec fn spec_uptime_millis(devs: Seq<crate::series::SeriesModel>, now: u64) -> u64 {
    if devs.len() > 0 && devs[0].samples.len() > 0 {
        let t = devs[0].samples[0].timestamp;
        if now >= t {
            (now - t) as u64
        } else {
            0
        }
    } else {
        0
    }
}

/// The uptime shown in the header, measured at instant `now`.
pub fn uptime_millis(store: &TelemetryStore, now: u64) -> (r: u64)
    ensures
        r == spec_uptime_millis(store@, now),
{
    if store.devices.len() == 0 {
        return 0;
    }
    proof {
        assert(store@[0] == store.devices@[0]@);
    }
    let d = &store.devices[0];
    if d.samples.len() == 0 {
        return 0;
    }
    let t = d.samples[0].timestamp;
    if now >= t {
        now - t
    } else {
        0
    }
}

/// A duration split for a `hh:mm:ss` clock: whole hours, minutes within
/// the hour, seconds within the minute.
pub fn clock_fields(millis: u64) -> (r: (u64, u64, u64))
    ensures
        r.0 == millis / 3_600_000,
        r.1 == (millis / 60_000) % 60,
        r.2 == (millis / 1000) % 60,
{
    (millis / 3_600_000, (millis / 60_000) % 60, (millis / 1000) % 60)
}

} // verus!
