pub mod data;
pub mod times;
pub mod transform;
pub mod cache;

use vstd::prelude::*;

verus! {

/// How long a cached response stays fresh, in seconds.
pub const CACHE_DURATION_SECONDS: i64 = 20;

/// Arrivals at or below this many seconds are never extrapolated:
/// once a bus is imminent, decrementing a stale estimate is misleading.
pub const EXTRAPOLATION_FLOOR_SECONDS: i64 = 30;

/// The new value of one cached arrival estimate after `elapsed` seconds
/// have passed: estimates above the floor are decremented, the rest are
/// left untouched.
pub open spec fn extrapolated_seconds(seconds: int, elapsed: int) -> int {
    if seconds > EXTRAPOLATION_FLOOR_SECONDS {
        seconds - elapsed
    } else {
        seconds
    }
}

/// Extrapolate one arrival estimate.
pub fn extrapolate_seconds(seconds: i64, elapsed: i64) -> (r: i64)
    requires
        0 <= elapsed,
    ensures
        r == extrapolated_seconds(seconds as int, elapsed as int),
{
    if seconds > EXTRAPOLATION_FLOOR_SECONDS {
        seconds - elapsed
    } else {
        seconds
    }
}

} // verus!
