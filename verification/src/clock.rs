//! The engine's wall clock. The core takes instants as arguments; only
//! the functions here read the machine's clock.

use vstd::prelude::*;

verus! {

/// Relies on chrono's `Utc::now` and `DateTime::timestamp_millis`: the
/// current wall-clock time as signed milliseconds since the Unix epoch.
/// Nothing can be promised of the value; `Utc::now` aborts only when the
/// system clock is set before the epoch.
#[verifier::external_body]
fn now_unix_millis() -> i64 {
    chrono::Utc::now().timestamp_millis()
}

/// The current instant on the engine's clock: milliseconds since the
/// Unix epoch, clamped to zero should the system clock sit before it.
pub fn current_instant() -> u64 {
    let t = now_unix_millis();
    if t < 0 {
        0
    } else {
        t as u64
    }
}

} // verus!
