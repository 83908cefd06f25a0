//! Keeping numbers within their ranges.

use vstd::prelude::*;

verus! {

/// A number moved to the nearest end of a range where it is outside.
pub open spec fn clamped(v: int, low: int, high: int) -> int {
    if v < low {
        low
    } else if v > high {
        high
    } else {
        v
    }
}

/// Move a number into a range.
pub fn clamp(v: i64, low: i64, high: i64) -> (r: i64)
    requires
        low <= high,
    ensures
        r == clamped(v as int, low as int, high as int),
        low <= r <= high,
{
    if v < low {
        low
    } else if v > high {
        high
    } else {
        v
    }
}

/// Once in its range, a number stays.
pub proof fn clamping_settles(v: int, low: int, high: int)
    requires
        low <= high,
    ensures
        low <= clamped(v, low, high) <= high,
        clamped(clamped(v, low, high), low, high) == clamped(v, low, high),
        low <= v <= high ==> clamped(v, low, high) == v,
{
}

/// A number outside its range goes to the end that is nearest.
pub proof fn clamping_goes_to_the_nearest(v: int, low: int, high: int, other: int)
    requires
        low <= other <= high,
    ensures
        low <= clamped(v, low, high) <= high,
        v <= clamped(v, low, high) ==> clamped(v, low, high) - v <= (if other < v {
            v - other
        } else {
            other - v
        }),
        v >= clamped(v, low, high) ==> v - clamped(v, low, high) <= (if other < v {
            v - other
        } else {
            other - v
        }),
{
}

} // verus!
