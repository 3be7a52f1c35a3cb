//! Per-monitor tick scheduling.
//!
//! Every monitor runs an endless probe-classify-relay loop.  After each
//! tick the loop sleeps for the remainder of a fixed interval; a tick
//! that ran longer than the interval is followed immediately by the
//! next one.

use vstd::prelude::*;

verus! {

/// Seconds between the starts of two ticks of one monitor's loop.
pub const TICK_INTERVAL_SECS: u64 = 60;

/// How long the loop sleeps after a tick that took `elapsed_secs`
/// seconds: `max(0, TICK_INTERVAL_SECS - elapsed_secs)`.  The
/// subtraction saturates, so a long tick yields a zero sleep and never
/// an underflow.
pub fn sleep_seconds(elapsed_secs: u64) -> (r: u64)
    ensures
        r == if elapsed_secs >= TICK_INTERVAL_SECS {
            0u64
        } else {
            (TICK_INTERVAL_SECS - elapsed_secs) as u64
        },
        r <= TICK_INTERVAL_SECS,
{
    if elapsed_secs >= TICK_INTERVAL_SECS {
        0
    } else {
        TICK_INTERVAL_SECS - elapsed_secs
    }
}

} // verus!
