//! Library-wide laws, stated and proved over the same spec functions the
//! solvers' contracts use.

use vstd::prelude::*;
use vstd::arithmetic::mul::lemma_mul_inequality;
use vstd::arithmetic::power2::{pow2, lemma_pow2_pos};

use crate::arith::same_sign;
use crate::methods::{
    curve_post, eval, find_root_post, norm_hi, norm_lo, ComputeError, ComputeOutput, CURVE_POINTS,
};

verus! {

/// Interval normalization is symmetric: the orchestrator sees the same
/// normalized bounds whichever order the caller passes them in, and every
/// clause of its contract is phrased over those bounds alone.
pub proof fn lemma_normalization_symmetric(a: i64, b: i64)
    ensures
        norm_lo(a, b) == norm_lo(b, a),
        norm_hi(a, b) == norm_hi(b, a),
{
}

/// Orchestration with the bounds in either order produces identical
/// results: both calls fail together with the same error, or succeed with
/// the same curve and the very same estimate from each solver.
pub proof fn lemma_find_root_swap_identical<F: Fn(i64) -> i64, D: Fn(i64) -> i64>(
    f: F,
    der: D,
    a: i64,
    b: i64,
    stop: crate::methods::StopCriteria,
    forward: Result<ComputeOutput, ComputeError>,
    swapped: Result<ComputeOutput, ComputeError>,
)
    requires
        find_root_post(f, der, a, b, stop, forward),
        find_root_post(f, der, b, a, stop, swapped),
    ensures
        match (forward, swapped) {
            (Result::Ok(o1), Result::Ok(o2)) => {
                &&& o1.bisection == o2.bisection
                &&& o1.newton == o2.newton
                &&& o1.values@ == o2.values@
            },
            (Result::Err(e1), Result::Err(e2)) => e1 == e2,
            _ => false,
        },
{
    lemma_normalization_symmetric(a, b);
    match (forward, swapped) {
        (Result::Ok(o1), Result::Ok(o2)) => {
            let lo = norm_lo(a, b);
            let hi = norm_hi(a, b);
            assert forall|i: int| 0 <= i < 10000 implies o1.values@[i] == o2.values@[i] by {
                assert(o1.values@[i].0 == lo + (i * (hi - lo)) / (CURVE_POINTS as int));
                assert(o2.values@[i].0 == lo + (i * (hi - lo)) / (CURVE_POINTS as int));
                assert(o1.values@[i].1 == eval(f, o1.values@[i].0));
                assert(o2.values@[i].1 == eval(f, o2.values@[i].0));
            }
            assert(o1.values@ =~= o2.values@);
        },
        _ => {},
    }
}

/// The orchestrator fails exactly on a same-sign bracket, and the sign test
/// is symmetric in the two ends; an exact zero at either end counts as a
/// sign change, so it never raises the failure.
pub proof fn lemma_same_sign_symmetric(a: int, b: int)
    ensures
        same_sign(a, b) == same_sign(b, a),
        a == 0 || b == 0 ==> !same_sign(a, b),
{
}

/// The curve covers `[lo, hi)`: it always holds exactly `CURVE_POINTS`
/// pairs, the first point's x-coordinate is the normalized lower bound, and
/// on a non-degenerate interval the last point's x-coordinate stays strictly
/// below the upper bound.
pub proof fn lemma_curve_endpoints<F: Fn(i64) -> i64>(
    f: F,
    lo: i64,
    hi: i64,
    values: Seq<(i64, i64)>,
)
    requires
        curve_post(f, lo, hi, values),
        lo <= hi,
    ensures
        values.len() == CURVE_POINTS,
        values[0].0 == lo,
        lo < hi ==> values[values.len() - 1].0 < hi,
{
    let w = hi - lo;
    assert(values[0].0 == lo + (0 * w) / (CURVE_POINTS as int));
    if lo < hi {
        let last = (CURVE_POINTS - 1) as int;
        assert(last * w <= CURVE_POINTS * w - 1) by (nonlinear_arith)
            requires
                w >= 1,
                last == CURVE_POINTS - 1,
                CURVE_POINTS == 10000,
        ;
        vstd::arithmetic::div_mod::lemma_div_is_ordered(
            last * w,
            (CURVE_POINTS as int) * w - 1,
            CURVE_POINTS as int,
        );
        vstd::arithmetic::div_mod::lemma_div_multiples_vanish_fancy(
            w - 1,
            (CURVE_POINTS - 1) as int,
            CURVE_POINTS as int,
        );
        assert((CURVE_POINTS as int) * w - 1 == (CURVE_POINTS as int) * (w - 1) + (CURVE_POINTS
            - 1)) by (nonlinear_arith)
            requires
                CURVE_POINTS == 10000,
        ;
    }
}

/// Any estimate inside a sign-changing bracket that bisection has halved
/// `k` times lies within `(hi - lo) / 2^k` of every root the bracket
/// contains, up to one unit of the representable grid: the error bound that
/// the bracket clause of bisection's contract carries.
pub proof fn lemma_bisection_error_bound(
    lo: i64,
    hi: i64,
    l: i64,
    r: i64,
    x: i64,
    root: int,
    k: u64,
)
    requires
        lo <= l <= r <= hi,
        l <= x <= r,
        l <= root <= r,
        (r - l) * pow2(k as nat) <= (hi - lo) + pow2(k as nat) - 1,
    ensures
        vstd::math::abs(x - root) * pow2(k as nat) <= (hi - lo) + pow2(k as nat) - 1,
{
    lemma_pow2_pos(k as nat);
    lemma_mul_inequality(vstd::math::abs(x - root) as int, r - l, pow2(k as nat) as int);
}

} // verus!
