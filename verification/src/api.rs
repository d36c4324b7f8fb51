//! Figures for the caller's dashboard.

use vstd::prelude::*;

verus! {

/// Seconds in a day.
pub const SECS_PER_DAY: u64 = 86_400;

/// The first second of the UTC day that holds the second `now`.
pub open spec fn day_start(now: u64) -> int {
    now - now % SECS_PER_DAY
}

/// The UTC day that holds the second `now`, as the seconds since the epoch
/// at which it starts and at which the next day starts.
pub fn today_bounds(now: u64) -> (bounds: (u64, u64))
    requires
        now <= u64::MAX - SECS_PER_DAY,
    ensures
        bounds.0 == day_start(now),
        bounds.1 == bounds.0 + SECS_PER_DAY,
        bounds.0 <= now < bounds.1,
        bounds.0 % SECS_PER_DAY == 0,
{
    let days = now / SECS_PER_DAY;
    let start = days * SECS_PER_DAY;
    let end = start + SECS_PER_DAY;
    (start, end)
}

/// The sum that a query handed back, or zero where it handed back none.
pub fn total_or_zero(total: Option<i64>) -> (value: i64)
    ensures
        value == (match total {
            Some(sum) => sum,
            None => 0,
        }),
{
    match total {
        Some(sum) => sum,
        None => 0,
    }
}

} // verus!
