//! Wall-clock readings, used only to seed randomness and to stamp durations.

use vstd::prelude::*;

verus! {

/// Relies on `std::time::SystemTime::now`: nanoseconds since the Unix epoch,
/// or zero if the clock reads before the epoch. Nothing can be promised of
/// the value.
#[verifier::external_body]
pub fn current_nanos() -> u64 {
    match std::time::SystemTime::now().duration_since(std::time::UNIX_EPOCH) {
        Ok(d) => d.as_nanos() as u64,
        Err(_) => 0,
    }
}

/// Relies on `std::time::SystemTime::now`: milliseconds since the Unix epoch,
/// or zero if the clock reads before the epoch. Nothing can be promised of
/// the value.
#[verifier::external_body]
pub fn current_millis() -> u64 {
    match std::time::SystemTime::now().duration_since(std::time::UNIX_EPOCH) {
        Ok(d) => d.as_millis() as u64,
        Err(_) => 0,
    }
}

/// Whether time moved strictly forward between two clock readings, in
/// nanoseconds since the epoch. A later reading below the earlier one means
/// the system clock drifted; callers treat that as fatal and must not ask.
pub fn positive_time_diff(earlier_nanos: u64, later_nanos: u64) -> (r: bool)
    requires
        earlier_nanos <= later_nanos,
    ensures
        r == (later_nanos > earlier_nanos),
{
    later_nanos > earlier_nanos
}

} // verus!
