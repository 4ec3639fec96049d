//! Timestamps and durations.
//!
//! All points in time are UTC, counted in whole seconds since the Unix
//! epoch and carried as `i64`. Every timestamp that enters the library is
//! bounded by [`MAX_TIME`], which leaves ample headroom for the largest
//! backoff the schedulers ever add.

use vstd::prelude::*;

verus! {

/// Bound on the magnitude of every timestamp the library works with.
/// Calendar dates span roughly 262,000 years around the epoch, which is
/// below 9e12 seconds; all arithmetic on bounded timestamps stays far from
/// the `i64` range.
pub const MAX_TIME: i64 = 9_000_000_000_000;

/// A timestamp within the supported calendar range.
pub open spec fn valid_time(t: i64) -> bool {
    -MAX_TIME <= t <= MAX_TIME
}

/// Seconds in `m` minutes.
pub fn minutes(m: i64) -> (r: i64)
    requires
        0 <= m <= 1_000_000,
    ensures
        r == 60 * m,
{
    60 * m
}

/// Seconds in `h` hours.
pub fn hours(h: i64) -> (r: i64)
    requires
        0 <= h <= 1_000_000,
    ensures
        r == 3600 * h,
{
    3600 * h
}

/// Seconds in `d` days.
pub fn days(d: i64) -> (r: i64)
    requires
        0 <= d <= 1_000_000,
    ensures
        r == 86400 * d,
{
    86400 * d
}

} // verus!
