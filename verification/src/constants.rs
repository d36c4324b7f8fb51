//! Cadences shared by the poll loop and its callers.

use vstd::prelude::*;

verus! {

/// Seconds between two metrics summaries.
pub const SUMMARY_INTERVAL_SECS: u64 = 60;

/// Pause between two ticks of the poll loop, in milliseconds.
pub const MAIN_LOOP_SLEEP_MS: u64 = 1000;

} // verus!
