//! Fixed-point arithmetic in thousandths of a unit.
//!
//! Scroll positions, grid coordinates and frame times are fractional in
//! nature; here they are carried as `i64` counts of thousandths so that
//! every operation on them is exact integer arithmetic.

use vstd::prelude::*;

verus! {

/// Number of fixed-point subunits in one whole unit (one row, one cell,
/// one pixel, one second).
pub const SUBUNIT: i64 = 1000;

/// The whole-unit floor of a fixed-point value, as a mathematical integer.
pub open spec fn spec_floor_units(x: int) -> int {
    x / (SUBUNIT as int)
}

/// Largest whole multiple of `SUBUNIT` that is at most `x`.
pub open spec fn spec_floor_subunits(x: int) -> int {
    spec_floor_units(x) * (SUBUNIT as int)
}

/// Floor of a fixed-point value in whole units: `floor_units(1700) == 1`,
/// `floor_units(-500) == -1`.
pub fn floor_units(x: i64) -> (r: i64)
    ensures
        r == spec_floor_units(x as int),
{
    x.checked_div_euclid(SUBUNIT).unwrap()
}

/// Round a fixed-point value down to a whole number of units, keeping it
/// in fixed-point form: `floor_subunits(1700) == 1000`.
pub fn floor_subunits(x: i64) -> (r: i64)
    requires
        -0x4000_0000_0000_0000 <= x <= 0x4000_0000_0000_0000,
    ensures
        r == spec_floor_subunits(x as int),
        r <= x < r + SUBUNIT,
{
    let q = floor_units(x);
    proof {
        vstd::arithmetic::div_mod::lemma_fundamental_div_mod(x as int, SUBUNIT as int);
        vstd::arithmetic::div_mod::lemma_mod_bound(x as int, SUBUNIT as int);
    }
    q * SUBUNIT
}

/// Clamp `x` into `[lo, hi]`.
pub fn clamp_i64(x: i64, lo: i64, hi: i64) -> (r: i64)
    requires
        lo <= hi,
    ensures
        r == spec_clamp(x as int, lo as int, hi as int),
{
    if x < lo {
        lo
    } else if x > hi {
        hi
    } else {
        x
    }
}

/// `|a * b| <= m * n` when `|a| <= m` and `|b| <= n`.
pub proof fn lemma_mul_abs_bound(a: int, b: int, m: int, n: int)
    by (nonlinear_arith)
    requires
        -m <= a <= m,
        -n <= b <= n,
        0 <= m,
        0 <= n,
    ensures
        -(m * n) <= a * b <= m * n,
{
}

/// The value of `x` forced into `[lo, hi]`.
pub open spec fn spec_clamp(x: int, lo: int, hi: int) -> int {
    if x < lo {
        lo
    } else if x > hi {
        hi
    } else {
        x
    }
}

} // verus!
