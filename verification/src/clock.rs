//! Time as plain numbers.
//!
//! A point in time is a count of nanoseconds on the node's monotonic clock.
use vstd::prelude::*;

verus! {

/// Nanoseconds in a second.
pub const SECOND: u64 = 1_000_000_000;

/// The time from `since` to `now`; zero where `since` is still to come.
pub open spec fn age(now: u64, since: u64) -> int {
    if since <= now {
        now - since
    } else {
        0
    }
}

/// The time from `since` to `now`, in nanoseconds.
pub fn elapsed(now: u64, since: u64) -> (r: u64)
    ensures
        r == age(now, since),
{
    if since <= now {
        now - since
    } else {
        0
    }
}

/// Whether less than `secs` seconds have gone by since `since`.
pub fn within_secs(now: u64, since: u64, secs: u64) -> (r: bool)
    ensures
        r == (age(now, since) < secs * SECOND),
{
    let limit: u128 = secs as u128 * 1_000_000_000u128;
    (elapsed(now, since) as u128) < limit
}

/// The moment `secs` seconds after `now`, or the end of the clock.
pub open spec fn later(now: u64, secs: u64) -> int {
    if now + secs * SECOND <= u64::MAX {
        now + secs * SECOND
    } else {
        u64::MAX as int
    }
}

/// The moment `secs` seconds after `now`, or the end of the clock.
pub fn after_secs(now: u64, secs: u64) -> (r: u64)
    ensures
        r == later(now, secs),
{
    let t: u128 = now as u128 + secs as u128 * 1_000_000_000u128;
    if t <= u64::MAX as u128 {
        t as u64
    } else {
        u64::MAX
    }
}

} // verus!
