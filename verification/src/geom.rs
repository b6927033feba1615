//! Saturating coordinate arithmetic. Widget sizes are signed and may be
//! degenerate (zero or negative); all size arithmetic saturates at the
//! `isize` bounds instead of overflowing, so no layout computation panics.

use vstd::prelude::*;

verus! {

/// Clamps a mathematical integer into the `isize` range.
pub open spec fn sat_i(x: int) -> int {
    if x > isize::MAX as int {
        isize::MAX as int
    } else if x < isize::MIN as int {
        isize::MIN as int
    } else {
        x
    }
}

/// Truncating (round-toward-zero) division, as the `/` operator of the
/// machine performs it; defined here for positive divisors only.
pub open spec fn tdiv(a: int, b: int) -> int
    recommends
        b > 0,
{
    if a >= 0 {
        a / b
    } else {
        -((-a) / b)
    }
}

/// The larger of two integers.
pub open spec fn max_i(a: int, b: int) -> int {
    if a >= b {
        a
    } else {
        b
    }
}

/// The smaller of two integers.
pub open spec fn min_i(a: int, b: int) -> int {
    if a <= b {
        a
    } else {
        b
    }
}

/// Saturating addition on sizes.
pub fn sat_add(a: isize, b: isize) -> (r: isize)
    ensures
        r as int == sat_i(a + b),
{
    match a.checked_add(b) {
        Some(v) => v,
        None => {
            if b > 0 {
                isize::MAX
            } else {
                isize::MIN
            }
        },
    }
}

/// Saturating subtraction on sizes.
pub fn sat_sub(a: isize, b: isize) -> (r: isize)
    ensures
        r as int == sat_i(a - b),
{
    match a.checked_sub(b) {
        Some(v) => v,
        None => {
            if b < 0 {
                isize::MAX
            } else {
                isize::MIN
            }
        },
    }
}

/// Truncating division by a positive divisor.
pub fn div_trunc(a: isize, b: isize) -> (r: isize)
    requires
        b > 0,
    ensures
        r as int == tdiv(a as int, b as int),
{
    match a.checked_div(b) {
        Some(v) => v,
        None => {
            // a == isize::MIN && b == -1 is the only failure, and b > 0.
            proof {
                assert(false);
            }
            0
        },
    }
}

/// The larger of two sizes.
pub fn max_is(a: isize, b: isize) -> (r: isize)
    ensures
        r as int == max_i(a as int, b as int),
{
    if a >= b {
        a
    } else {
        b
    }
}

/// The smaller of two sizes.
pub fn min_is(a: isize, b: isize) -> (r: isize)
    ensures
        r as int == min_i(a as int, b as int),
{
    if a <= b {
        a
    } else {
        b
    }
}

/// A count, clamped into the `isize` range.
pub fn usize_to_isize_sat(n: usize) -> (r: isize)
    ensures
        r as int == sat_i(n as int),
{
    if n > (isize::MAX as usize) {
        isize::MAX
    } else {
        n as isize
    }
}

/// Two saturating steps in the same direction collapse into one, for a
/// starting value already in range.
pub proof fn lemma_sat_chain(a: int, b: int, c: int)
    requires
        isize::MIN as int <= a <= isize::MAX as int,
        (b >= 0 && c >= 0) || (b <= 0 && c <= 0),
    ensures
        sat_i(sat_i(a + b) + c) == sat_i(a + b + c),
{
}


} // verus!
