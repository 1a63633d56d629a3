//! Points in time, in microseconds since the epoch, and ages in seconds.

use vstd::prelude::*;

verus! {

/// The point in time `age_s` seconds before `now`.
pub open spec fn ago(now: i64, age_s: u128) -> int {
    now - age_s * 1_000_000
}

/// Whether `ts` lies more than `age_s` seconds before `now`.
pub fn older(ts: i64, now: i64, age_s: u128) -> (r: bool)
    ensures
        r == (ts < ago(now, age_s)),
{
    let gap: i128 = now as i128 - ts as i128;
    if gap <= 0 {
        return false;
    }
    let whole: u128 = (gap - 1) as u128 / 1_000_000;
    whole >= age_s
}

/// The seconds of a number of days.
pub fn days(n: u64) -> (r: u128)
    ensures
        r == n * 86_400,
{
    n as u128 * 86_400
}

} // verus!
