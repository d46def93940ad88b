//! The time, in milliseconds since the Unix epoch.

use vstd::prelude::*;

verus! {

/// The milliseconds since the Unix epoch, by `std::time::SystemTime::elapsed`
/// on the epoch, or nothing if the clock stands before it. Nothing is claimed
/// of the result: it is up to the clock.
#[verifier::external_body]
fn elapsed_millis() -> Option<u128> {
    std::time::SystemTime::UNIX_EPOCH.elapsed().ok().map(|d| d.as_millis())
}

/// The time for a clock that stands so many milliseconds behind the epoch, or
/// 0 for one that stands before it. A number of milliseconds that does not fit
/// wraps around.
pub open spec fn millis_of(elapsed: Option<u128>) -> i64 {
    match elapsed {
        Some(n) => n as i64,
        None => 0,
    }
}

/// The time for a clock that stands so many milliseconds behind the epoch.
pub fn epoch_millis(elapsed: Option<u128>) -> (t: i64)
    ensures
        t == millis_of(elapsed),
        elapsed is Some && elapsed->0 <= i64::MAX ==> t == elapsed->0,
        elapsed is None ==> t == 0,
{
    match elapsed {
        Some(n) => #[verifier::truncate] (n as i64),
        None => 0,
    }
}

/// Current unix time in milliseconds.
pub fn now_millis() -> (t: i64)
    ensures
        exists|elapsed: Option<u128>| t == #[trigger] millis_of(elapsed),
{
    epoch_millis(elapsed_millis())
}

} // verus!
