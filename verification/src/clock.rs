//! The time, in whole seconds since the Unix epoch.
//!
//! The clock is read in a way that cannot fail: a clock that reads before
//! the epoch is taken to read the epoch, and one that reads beyond what a
//! signed timestamp holds is taken to read the latest such time.

use core::time::Duration;
use vstd::prelude::*;

verus! {

/// The latest time that the clock is taken to read.
pub const LATEST: u64 = 9_223_372_036_854_775_807;

/// `std::time::SystemTime::elapsed`, asked of `UNIX_EPOCH`: the time that
/// has passed since the epoch by the system clock, or `None` where the
/// clock reads before the epoch. Nothing is claimed of the result.
#[verifier::external_body]
pub(crate) fn elapsed_since_epoch() -> (elapsed: Option<Duration>) {
    match std::time::UNIX_EPOCH.elapsed() {
        Ok(elapsed) => Some(elapsed),
        Err(_) => None,
    }
}

/// `std::time::Duration::as_secs`: the whole seconds of a duration.
/// Nothing is claimed of the result.
#[verifier::external_body]
pub(crate) fn whole_seconds(elapsed: &Duration) -> (seconds: u64) {
    elapsed.as_secs()
}

/// What the clock is taken to read, from the seconds that have passed
/// since the epoch, or from `None` where it reads before the epoch.
pub fn seconds_since_epoch(elapsed: Option<u64>) -> (seconds: u64)
    ensures
        seconds == match elapsed {
            Some(passed) => if passed > LATEST {
                LATEST
            } else {
                passed
            },
            None => 0,
        },
{
    match elapsed {
        Some(passed) => if passed > LATEST {
            LATEST
        } else {
            passed
        },
        None => 0,
    }
}

/// The present time.
pub fn unix_now() -> (now: u64)
    ensures
        now <= LATEST,
{
    let elapsed = match elapsed_since_epoch() {
        Some(elapsed) => Some(whole_seconds(&elapsed)),
        None => None,
    };
    seconds_since_epoch(elapsed)
}

} // verus!
