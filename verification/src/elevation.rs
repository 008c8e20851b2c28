//! Fixed-point elevations.
//!
//! An elevation is an `i64` counting millionths of a height unit, so the
//! nominal terrain range `[-1, 1]` is `[-UNIT, UNIT]`. Sums that leave the
//! `i64` range stick at its ends, and quotients round toward zero.

use vstd::prelude::*;

verus! {

/// One height unit, in stored steps.
pub const UNIT: i64 = 1_000_000;

/// The elevation given to the moat of cells around the rim of a fresh grid.
pub const BORDER_LEVEL: i64 = -1_500_000;

/// The elevation given to the inner cells of a fresh grid in fixed mode.
pub const INTERIOR_LEVEL: i64 = -500_000;

/// The nearest `i64` to `v`.
pub open spec fn saturate(v: int) -> i64 {
    if v > i64::MAX {
        i64::MAX
    } else if v < i64::MIN {
        i64::MIN
    } else {
        v as i64
    }
}

/// The quotient of `a` by a positive `b`, rounded toward zero.
pub open spec fn truncated_div(a: int, b: int) -> int {
    if a >= 0 {
        a / b
    } else {
        -((-a) / b)
    }
}

/// The mean of four elevations, rounded toward zero.
pub open spec fn mean4(a: int, b: int, c: int, d: int) -> int {
    truncated_div(a + b + c + d, 4)
}

/// The elevation that replaces a cell whose four reference neighbours hold
/// `a`, `b`, `c`, `d` when it is displaced by `offset`.
pub open spec fn displaced_mean(a: i64, b: i64, c: i64, d: i64, offset: i64) -> i64 {
    saturate(mean4(a as int, b as int, c as int, d as int) + offset)
}

/// Add two elevations, sticking at the ends of the `i64` range.
pub fn add_saturating(a: i64, b: i64) -> (r: i64)
    ensures
        r == saturate(a + b),
{
    match a.checked_add(b) {
        Some(sum) => sum,
        None => if b > 0 {
            i64::MAX
        } else {
            i64::MIN
        },
    }
}

/// The mean of four elevations, rounded toward zero.
pub fn average4(a: i64, b: i64, c: i64, d: i64) -> (r: i64)
    ensures
        r == mean4(a as int, b as int, c as int, d as int),
{
    let total: i128 = a as i128 + b as i128 + c as i128 + d as i128;
    let mean: i128 = total / 4;
    mean as i64
}

} // verus!
