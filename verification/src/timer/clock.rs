use vstd::prelude::*;

verus! {

/// Timer ticks per second assumed until the clock is calibrated.
pub const DEFAULT_TICKS_PER_SEC: u64 = 100;

/// Milliseconds since boot; a rate of 0 is read as 1.
pub fn millis(ticks: u64, ticks_per_sec: u64) -> (r: u64)
    requires
        ticks * 1000 <= u64::MAX,
    ensures
        r == (ticks * 1000) / (if ticks_per_sec == 0 { 1 } else { ticks_per_sec as int }),
{
    let rate = if ticks_per_sec == 0 { 1 } else { ticks_per_sec };
    ticks * 1000 / rate
}

/// Whole seconds since boot; a rate of 0 is read as 1.
pub fn seconds(ticks: u64, ticks_per_sec: u64) -> (r: u64)
    ensures
        r == ticks / (if ticks_per_sec == 0 { 1 } else { ticks_per_sec }),
{
    let rate = if ticks_per_sec == 0 { 1 } else { ticks_per_sec };
    ticks / rate
}

/// Ticks in `ms` milliseconds, rounded down.
pub fn ms_to_ticks(ms: u64, ticks_per_sec: u64) -> (r: u64)
    requires
        ms * ticks_per_sec <= u64::MAX,
    ensures
        r == (ms * ticks_per_sec) / 1000,
{
    ms * ticks_per_sec / 1000
}

} // verus!
