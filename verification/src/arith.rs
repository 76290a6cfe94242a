//! Fixed-point scalar model and the small arithmetic helpers the solvers
//! share: sign tests, midpoints, absolute-value comparison, and the
//! round-to-nearest division behind the Newton update.

use vstd::prelude::*;

verus! {

/// The scalar type has 32 fixed-point fractional bits: one unit stands for
/// the real number 2^-32, and `SCALE` stands for 1.0.
pub const SCALE: i64 = 0x1_0000_0000;

/// Largest coordinate magnitude the engine accepts; keeps every interval
/// width and midpoint computation inside `i64`.
pub const COORD_MAX: i64 = 0x2000_0000_0000_0000;

/// A scalar the engine can work on: bounded so that interval arithmetic
/// stays representable.
pub open spec fn in_coord_range(x: int) -> bool {
    -COORD_MAX <= x <= COORD_MAX
}

/// Two values have the same strict sign (their product, as reals, would be
/// positive). An exact zero at either side counts as a sign change, the
/// conservative choice for bracketing.
pub open spec fn same_sign(a: int, b: int) -> bool {
    (a > 0 && b > 0) || (a < 0 && b < 0)
}

/// Midpoint of `[l, r]`, rounded toward `l`.
pub open spec fn spec_mid(l: int, r: int) -> int {
    l + (r - l) / 2
}

/// Integer division that rounds to nearest, the fixed-point analogue of a
/// real quotient rounded to the nearest representable unit, ties away
/// from zero.
pub open spec fn div_rn(a: int, b: int) -> int {
    let m = ((2 * vstd::math::abs(a) + vstd::math::abs(b)) / (2 * vstd::math::abs(b))) as int;
    if (a < 0) == (b < 0) {
        m
    } else {
        -m
    }
}

/// One Newton-Raphson update on the fixed-point grid:
/// `x - f(x) / f'(x)`, the quotient taken as a real and rounded to the
/// nearest grid unit. Truncating instead would leave the iterate stuck one
/// unit away from a representable zero, where the true step is below one.
pub open spec fn spec_newton_step(x: int, y: int, dy: int) -> int {
    x - div_rn(y * SCALE, dy)
}

pub fn same_sign_exec(a: i64, b: i64) -> (r: bool)
    ensures
        r == same_sign(a as int, b as int),
{
    (a > 0 && b > 0) || (a < 0 && b < 0)
}

pub fn midpoint(l: i64, r: i64) -> (m: i64)
    requires
        -COORD_MAX <= l <= r <= COORD_MAX,
    ensures
        m == spec_mid(l as int, r as int),
        l <= m <= r,
        r - l >= 2 ==> l < m < r,
        r - l <= 1 ==> m == l,
{
    let w: u64 = (r - l) as u64;
    l + (w / 2) as i64
}

/// `|y| < bound`, computed without risking overflow on negation.
pub fn abs_below(y: i64, bound: i64) -> (r: bool)
    requires
        bound >= 1,
    ensures
        r == (vstd::math::abs(y as int) < bound),
{
    -bound < y && y < bound
}

fn div_round(a: i128, b: i128) -> (q: i128)
    requires
        b != 0,
        -0x10_0000_0000_0000_0000_0000_0000 <= a <= 0x10_0000_0000_0000_0000_0000_0000,
        -0x1_0000_0000_0000_0000 <= b <= 0x1_0000_0000_0000_0000,
    ensures
        q == div_rn(a as int, b as int),
{
    let ua: u128 = if a < 0 { (-a) as u128 } else { a as u128 };
    let ub: u128 = if b < 0 { (-b) as u128 } else { b as u128 };
    assert(ua == vstd::math::abs(a as int));
    assert(ub == vstd::math::abs(b as int));
    assert((2 * ua + ub) / (2 * ub) <= 2 * ua + ub) by (nonlinear_arith)
        requires 2 * ub >= 1;
    let m: u128 = (2 * ua + ub) / (2 * ub);
    if (a < 0) != (b < 0) {
        -(m as i128)
    } else {
        m as i128
    }
}

/// One executable Newton update. Returns `None` when the new candidate
/// leaves the representable coordinate range, so the caller can stop
/// gracefully instead of overflowing.
pub fn newton_step(x: i64, y: i64, dy: i64) -> (r: Option<i64>)
    requires
        in_coord_range(x as int),
        vstd::math::abs(dy as int) >= 2,
    ensures
        match r {
            Some(xn) => xn == spec_newton_step(x as int, y as int, dy as int)
                && in_coord_range(xn as int),
            None => !in_coord_range(spec_newton_step(x as int, y as int, dy as int)),
        },
{
    let num: i128 = (y as i128) * (SCALE as i128);
    proof {
        assert(-0x10_0000_0000_0000_0000_0000_0000 <= num
            <= 0x10_0000_0000_0000_0000_0000_0000) by (nonlinear_arith)
            requires
                num == (y as int) * (SCALE as int),
                -0x8000_0000_0000_0000 <= y as int <= 0x7fff_ffff_ffff_ffff,
                SCALE == 0x1_0000_0000;
    }
    let q = div_round(num, dy as i128);
    let xw: i128 = (x as i128) - q;
    if xw < -(COORD_MAX as i128) || xw > COORD_MAX as i128 {
        None
    } else {
        Some(xw as i64)
    }
}

} // verus!
