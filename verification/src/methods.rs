//! The termination-condition type, the two root-finding solvers, and the
//! orchestrator that validates the bracket, runs both solvers, and samples
//! the function for display.

use vstd::prelude::*;
use vstd::arithmetic::mul::lemma_mul_inequality;
use vstd::arithmetic::power2::{pow2, lemma_pow2_pos, lemma_pow2_unfold};

use crate::arith::{
    same_sign, same_sign_exec, spec_mid, midpoint, in_coord_range, abs_below, newton_step,
    spec_newton_step, COORD_MAX,
};

verus! {

/// When an iterative solver should stop: after a fixed number of iterations,
/// or once the residual magnitude falls below a positive epsilon.
#[derive(Clone, Copy, Debug, PartialEq, Eq, Structural)]
pub enum StopCriteria {
    Iterations(u64),
    Epsilon(i64),
}

impl StopCriteria {
    /// The carried value is positive: an iteration budget of at least one,
    /// or an epsilon of at least one representable unit.
    pub open spec fn valid(self) -> bool {
        match self {
            StopCriteria::Iterations(n) => n >= 1,
            StopCriteria::Epsilon(e) => e >= 1,
        }
    }

    /// Whether two conditions select the same stopping mode, whatever values
    /// they carry. Calling surfaces use this to match a mode selection;
    /// genuine equality is `==`.
    pub fn same_kind(&self, other: &StopCriteria) -> (r: bool)
        ensures
            r == ((*self matches StopCriteria::Iterations(_))
                <==> (*other matches StopCriteria::Iterations(_))),
    {
        match (self, other) {
            (StopCriteria::Iterations(_), StopCriteria::Iterations(_)) => true,
            (StopCriteria::Epsilon(_), StopCriteria::Epsilon(_)) => true,
            _ => false,
        }
    }
}

/// One solver's answer: the final candidate, the function's value there,
/// and how many iterations were spent.
#[derive(Clone, Copy, Debug, PartialEq, Eq, Structural)]
pub struct RootInfo {
    pub x: i64,
    pub y: i64,
    pub iterations: u64,
}

/// A successful orchestration: the sampled curve and both root estimates.
pub struct ComputeOutput {
    pub values: Vec<(i64, i64)>,
    pub bisection: RootInfo,
    pub newton: RootInfo,
}

/// The single failure: the function has the same strict sign at both ends
/// of the interval, so no bracketing method applies.
#[derive(Clone, Copy, Debug, PartialEq, Eq, Structural)]
pub enum ComputeError {
    SameSign,
}

/// The caller's function never rejects an in-range argument.
pub open spec fn callable_on_range<F: Fn(i64) -> i64>(f: F) -> bool {
    forall|x: i64| in_coord_range(x as int) ==> #[trigger] call_requires(f, (x,))
}

/// The caller's function is deterministic: its contract admits a single
/// output per input. The engine assumes a pure mapping of the real line.
pub open spec fn deterministic<F: Fn(i64) -> i64>(f: F) -> bool {
    forall|x: i64, y1: i64, y2: i64|
        #[trigger] call_ensures(f, (x,), y1) && #[trigger] call_ensures(f, (x,), y2) ==> y1 == y2
}

/// The one value a deterministic function returns on `x`.
pub open spec fn eval<F: Fn(i64) -> i64>(f: F, x: i64) -> i64 {
    choose|y: i64| call_ensures(f, (x,), y)
}

/// Any value a call of a deterministic `f` actually returned is `eval(f, x)`.
pub proof fn lemma_eval_unique<F: Fn(i64) -> i64>(f: F, x: i64, y: i64)
    requires
        deterministic(f),
        call_ensures(f, (x,), y),
    ensures
        eval(f, x) == y,
{
    assert(call_ensures(f, (x,), eval(f, x)));
}

/// The mathematical model of a deterministic supplied function.
pub open spec fn model<F: Fn(i64) -> i64>(f: F) -> spec_fn(i64) -> i64 {
    |x: i64| eval(f, x)
}

/// The run of the bisection loop as a mathematical function of the model
/// of the supplied function: the state is the current bracket, the previous
/// midpoint, and the iterations spent so far.
pub open spec fn bisect_run(
    sf: spec_fn(i64) -> i64,
    left: i64,
    right: i64,
    last_x: i64,
    iterations: u64,
    stop: StopCriteria,
) -> RootInfo
    decreases
            right - left,
            (if last_x == spec_mid(left as int, right as int) {
                0int
            } else {
                1int
            }),
    when -COORD_MAX <= left <= right <= COORD_MAX
    via bisect_run_decreases
{
    let mid = spec_mid(left as int, right as int) as i64;
    if last_x == mid {
        RootInfo { x: last_x, y: sf(last_x), iterations }
    } else {
        let y_mid = sf(mid);
        let it2 = (iterations + 1) as u64;
        let done = match stop {
            StopCriteria::Iterations(n) => it2 >= n,
            StopCriteria::Epsilon(e) => vstd::math::abs(y_mid as int) < e,
        };
        if done {
            RootInfo { x: mid, y: y_mid, iterations: it2 }
        } else {
            if same_sign(y_mid as int, sf(left) as int) {
                bisect_run(sf, mid, right, mid, it2, stop)
            } else {
                bisect_run(sf, left, mid, mid, it2, stop)
            }
        }
    }
}

#[via_fn]
proof fn bisect_run_decreases(
    sf: spec_fn(i64) -> i64,
    left: i64,
    right: i64,
    last_x: i64,
    iterations: u64,
    stop: StopCriteria,
) {
    let mid = spec_mid(left as int, right as int) as i64;
    assert(left <= mid <= right);
    if mid == left {
        assert(spec_mid(mid as int, right as int) == mid as int);
    }
    if mid == right {
        assert(right - left == 0);
    }
}

/// A sign-changing bracket `[l, r]` that witnesses the quality of a
/// bisection estimate: it contains the estimate, its width has halved
/// (up to one representable unit) once per iteration, and the stopping
/// mode's demand holds unless the bracket has collapsed to resolution.
pub open spec fn bracket_post<F: Fn(i64) -> i64>(
    f: F,
    lo: i64,
    hi: i64,
    stop: StopCriteria,
    res: RootInfo,
    l: i64,
    r: i64,
) -> bool {
    &&& lo <= l <= r <= hi
    &&& l <= res.x <= r
    &&& !same_sign(eval(f, l) as int, eval(f, r) as int)
    &&& (r - l) * pow2(res.iterations as nat) <= (hi - lo) + pow2(res.iterations as nat) - 1
    &&& match stop {
        StopCriteria::Iterations(n) => res.iterations <= n && (res.iterations == n || r - l <= 1),
        StopCriteria::Epsilon(e) => vstd::math::abs(res.y as int) < e || r - l <= 1,
    }
}

/// What bisection promises: the reported residual is the function's value at
/// the final candidate, a run that never completed an iteration still
/// reports the lower bound (its initial candidate), and some sign-changing
/// bracket as narrow as the iteration count demands surrounds the candidate.
pub open spec fn bisection_post<F: Fn(i64) -> i64>(
    f: F,
    lo: i64,
    hi: i64,
    stop: StopCriteria,
    res: RootInfo,
) -> bool {
    &&& res == bisect_run(model(f), lo, hi, lo, 0, stop)
    &&& res.y == eval(f, res.x)
    &&& lo <= res.x <= hi
    &&& (res.iterations == 0 ==> res.x == lo)
    &&& exists|l: i64, r: i64| bracket_post(f, lo, hi, stop, res, l, r)
}

/// Halve a sign-changing interval until the termination condition is met or
/// the midpoint stops moving on the representable grid.
pub fn bisection<F: Fn(i64) -> i64>(
    f: &F,
    range_left: i64,
    range_right: i64,
    stop: &StopCriteria,
) -> (res: RootInfo)
    requires
        callable_on_range(*f),
        deterministic(*f),
        -COORD_MAX <= range_left <= range_right <= COORD_MAX,
        stop.valid(),
        !same_sign(eval(*f, range_left) as int, eval(*f, range_right) as int),
    ensures
        bisection_post(*f, range_left, range_right, *stop, res),
{
    let mut left = range_left;
    let mut right = range_right;
    let mut iterations: u64 = 0;
    let mut last_x = left;
    let y0 = f(left);
    proof {
        lemma_eval_unique(*f, left, y0);
    }
    let mut y_left = y0;
    let mut last_y = y0;
    proof {
        vstd::arithmetic::power2::lemma2_to64();
    }
    loop
        invariant_except_break
            *stop matches StopCriteria::Iterations(n) ==> iterations < n,
            bisect_run(model(*f), range_left, range_right, range_left, 0, *stop) == bisect_run(
                model(*f),
                left,
                right,
                last_x,
                iterations,
                *stop,
            ),
        invariant
            callable_on_range(*f),
            deterministic(*f),
            stop.valid(),
            -COORD_MAX <= range_left <= range_right <= COORD_MAX,
            range_left <= left <= right <= range_right,
            last_x == left || last_x == right,
            iterations == 0 ==> last_x == range_left,
            y_left == eval(*f, left),
            last_y == eval(*f, last_x),
            !same_sign(eval(*f, left) as int, eval(*f, right) as int),
            (right - left) * pow2(iterations as nat)
                <= (range_right - range_left) + pow2(iterations as nat) - 1,
            iterations <= 2 * ((range_right - range_left) - (right - left)) + 2,
            last_x != spec_mid(left as int, right as int)
                ==> iterations <= 2 * ((range_right - range_left) - (right - left)) + 1,
        ensures
            range_left <= left <= right <= range_right,
            left <= last_x <= right,
            iterations == 0 ==> last_x == range_left,
            last_y == eval(*f, last_x),
            !same_sign(eval(*f, left) as int, eval(*f, right) as int),
            (right - left) * pow2(iterations as nat)
                <= (range_right - range_left) + pow2(iterations as nat) - 1,
            match *stop {
                StopCriteria::Iterations(n) => iterations <= n && (iterations == n || right - left
                    <= 1),
                StopCriteria::Epsilon(e) => vstd::math::abs(last_y as int) < e || right - left
                    <= 1,
            },
            bisect_run(model(*f), range_left, range_right, range_left, 0, *stop) == (RootInfo {
                x: last_x,
                y: last_y,
                iterations,
            }),
        decreases
                right - left,
                (if last_x == spec_mid(left as int, right as int) {
                    0int
                } else {
                    1int
                }),
    {
        let middle = midpoint(left, right);
        // Degeneracy guard: the interval has collapsed to the limits of the
        // representable grid, so halving cannot make progress any more.
        if last_x == middle {
            proof {
                if last_x == right {
                    assert(right - left == 0);
                }
                assert(right - left <= 1);
                assert(bisect_run(model(*f), left, right, last_x, iterations, *stop)
                    == (RootInfo { x: last_x, y: last_y, iterations }));
            }
            break;
        }
        let y_mid = f(middle);
        proof {
            lemma_eval_unique(*f, middle, y_mid);
        }
        let ghost prev_left = left;
        let ghost prev_right = right;
        let ghost prev_iterations = iterations;
        let ghost prev_last_x = last_x;
        // Keep the end whose sign differs from the midpoint's.
        if same_sign_exec(y_mid, y_left) {
            left = middle;
            y_left = y_mid;
        } else {
            right = middle;
        }
        iterations = iterations + 1;
        last_x = middle;
        last_y = y_mid;
        proof {
            let w0 = range_right - range_left;
            let w_old = prev_right - prev_left;
            let w_new = right - left;
            let k = prev_iterations as nat;
            let p = pow2(k) as int;
            lemma_pow2_pos(k);
            lemma_pow2_unfold((k + 1) as nat);
            assert(2 * w_new <= w_old + 1);
            assert(w_new * pow2(iterations as nat) <= w0 + pow2(iterations as nat) - 1)
                by (nonlinear_arith)
                requires
                    2 * w_new <= w_old + 1,
                    w_old * p <= w0 + p - 1,
                    p >= 1,
                    pow2(iterations as nat) == 2 * p,
            ;
            if w_new == w_old {
                assert(last_x == spec_mid(left as int, right as int));
            }
            let done_now = match *stop {
                StopCriteria::Iterations(n) => iterations >= n,
                StopCriteria::Epsilon(e) => vstd::math::abs(last_y as int) < e,
            };
            assert(bisect_run(model(*f), prev_left, prev_right, prev_last_x, prev_iterations, *stop)
                == if done_now {
                    RootInfo { x: last_x, y: last_y, iterations }
                } else {
                    bisect_run(model(*f), left, right, last_x, iterations, *stop)
                });
        }
        // Stop once the termination condition is fulfilled, judged on the
        // newest candidate.
        match stop {
            StopCriteria::Iterations(n) => {
                if iterations >= *n {
                    break;
                }
            },
            StopCriteria::Epsilon(epsilon) => {
                if abs_below(y_mid, *epsilon) {
                    break;
                }
            },
        }
    }
    let res = RootInfo { x: last_x, y: last_y, iterations };
    proof {
        assert(bracket_post(*f, range_left, range_right, *stop, res, left, right));
    }
    res
}

/// Hard ceiling on Newton iterations in residual mode. The oscillation guard
/// only detects two-step cycles; a longer cycle on the fixed-point grid
/// would otherwise never meet an unreachable epsilon.
pub const NEWTON_STEP_LIMIT: u64 = 1000000;

/// The most iterations a stopping mode lets a Newton run spend.
pub open spec fn stop_cap(stop: StopCriteria) -> int {
    match stop {
        StopCriteria::Iterations(n) => n as int,
        StopCriteria::Epsilon(_) => NEWTON_STEP_LIMIT as int,
    }
}

/// The run of the Newton loop as a mathematical function of the models of
/// the supplied function and derivative: the state is the current candidate,
/// the candidate from two iterations prior, and the iterations spent so far.
pub open spec fn newton_run(
    sf: spec_fn(i64) -> i64,
    sd: spec_fn(i64) -> i64,
    x: i64,
    last_last_x: i64,
    iterations: u64,
    stop: StopCriteria,
) -> RootInfo
    decreases stop_cap(stop) - iterations,
    when iterations < stop_cap(stop)
{
    let dy = sd(x);
    if -1 <= dy <= 1 {
        RootInfo { x, y: sf(x), iterations }
    } else {
        let step = spec_newton_step(x as int, sf(x) as int, dy as int);
        if !in_coord_range(step) {
            RootInfo { x, y: sf(x), iterations }
        } else {
            let x_new = step as i64;
            if x_new == last_last_x {
                RootInfo { x, y: sf(x), iterations }
            } else {
                let it2 = (iterations + 1) as u64;
                let done = match stop {
                    StopCriteria::Iterations(n) => it2 >= n,
                    StopCriteria::Epsilon(e) => vstd::math::abs(sf(x_new) as int) < e || it2
                        >= NEWTON_STEP_LIMIT,
                };
                if done {
                    RootInfo { x: x_new, y: sf(x_new), iterations: it2 }
                } else {
                    newton_run(sf, sd, x_new, x, it2, stop)
                }
            }
        }
    }
}

/// The iterates observably cycle at `x`: the update from `x` lands on a
/// point from which an observed update leads straight back to `x`. The inner
/// point may be `x` itself, which is a stationary candidate.
pub open spec fn newton_cycles<F: Fn(i64) -> i64, D: Fn(i64) -> i64>(
    f: F,
    der: D,
    x: i64,
    y: i64,
    dy: i64,
) -> bool {
    exists|xo: i64, yp: i64, dyp: i64|
        {
            &&& xo as int == spec_newton_step(x as int, y as int, dy as int)
            &&& #[trigger] call_ensures(f, (xo,), yp)
            &&& #[trigger] call_ensures(der, (xo,), dyp)
            &&& vstd::math::abs(dyp as int) >= 2
            &&& spec_newton_step(xo as int, yp as int, dyp as int) == x as int
        }
}

/// A convergence guard holds at the state Newton returned: the derivative
/// there vanishes below the grid's resolution, or the next candidate would
/// leave the representable range, or the iterates cycle between two values.
pub open spec fn newton_stalls_at<F: Fn(i64) -> i64, D: Fn(i64) -> i64>(
    f: F,
    der: D,
    x: i64,
    y: i64,
) -> bool {
    exists|dy: i64|
        #[trigger] call_ensures(der, (x,), dy) && {
            ||| -1 <= dy <= 1
            ||| !in_coord_range(spec_newton_step(x as int, y as int, dy as int))
            ||| (vstd::math::abs(dy as int) >= 2 && newton_cycles(f, der, x, y, dy))
        }
}

/// What Newton promises: the reported residual is the function's value at
/// the final candidate, the candidate is representable, the iteration count
/// respects the stopping mode's budget, a run that never completed an update
/// still reports the canonical starting point (the interval midpoint), and
/// the run only ends short of its budget for a cause: in limit mode the
/// budget is exhausted unless a guard fired, and in residual mode the
/// epsilon is met unless a guard fired or the step ceiling ran out.
pub open spec fn newton_post<F: Fn(i64) -> i64, D: Fn(i64) -> i64>(
    f: F,
    der: D,
    lo: i64,
    hi: i64,
    stop: StopCriteria,
    res: RootInfo,
) -> bool {
    &&& res == newton_run(
        model(f),
        model(der),
        spec_mid(lo as int, hi as int) as i64,
        spec_mid(lo as int, hi as int) as i64,
        0,
        stop,
    )
    &&& res.y == eval(f, res.x)
    &&& in_coord_range(res.x as int)
    &&& res.iterations <= stop_cap(stop)
    &&& (res.iterations == 0 ==> res.x == spec_mid(lo as int, hi as int))
    &&& match stop {
        StopCriteria::Iterations(n) => res.iterations == n || newton_stalls_at(
            f,
            der,
            res.x,
            res.y,
        ),
        StopCriteria::Epsilon(e) => vstd::math::abs(res.y as int) < e || res.iterations
            == NEWTON_STEP_LIMIT || newton_stalls_at(f, der, res.x, res.y),
    }
}

/// Iterate the Newton-Raphson update from the interval midpoint until the
/// termination condition is met or a convergence guard fires: a vanishing
/// derivative, a two-step oscillation, a candidate outside the representable
/// range, or an exhausted step ceiling. Guards are not errors; the best
/// estimate so far is returned.
pub fn newton<F: Fn(i64) -> i64, D: Fn(i64) -> i64>(
    f: &F,
    der: &D,
    range_left: i64,
    range_right: i64,
    stop: &StopCriteria,
) -> (res: RootInfo)
    requires
        callable_on_range(*f),
        deterministic(*f),
        callable_on_range(*der),
        deterministic(*der),
        -COORD_MAX <= range_left <= range_right <= COORD_MAX,
        stop.valid(),
    ensures
        newton_post(*f, *der, range_left, range_right, *stop, res),
{
    let mut x = midpoint(range_left, range_right);
    let y0 = f(x);
    proof {
        lemma_eval_unique(*f, x, y0);
    }
    let mut y = y0;
    let mut iterations: u64 = 0;
    let mut last_x = x;
    let mut last_last_x = last_x;
    loop
        invariant_except_break
            iterations < stop_cap(*stop),
            newton_run(
                model(*f),
                model(*der),
                spec_mid(range_left as int, range_right as int) as i64,
                spec_mid(range_left as int, range_right as int) as i64,
                0,
                *stop,
            ) == newton_run(model(*f), model(*der), x, last_last_x, iterations, *stop),
        invariant
            callable_on_range(*f),
            deterministic(*f),
            callable_on_range(*der),
            deterministic(*der),
            stop.valid(),
            -COORD_MAX <= range_left <= range_right <= COORD_MAX,
            in_coord_range(x as int),
            last_x == x,
            y == eval(*f, x),
            call_ensures(*f, (last_x,), y),
            iterations <= stop_cap(*stop),
            iterations == 0 ==> x == spec_mid(range_left as int, range_right as int),
            iterations == 0 ==> last_last_x == last_x,
            iterations >= 1 ==> exists|yp: i64, dyp: i64|
                {
                    &&& #[trigger] call_ensures(*f, (last_last_x,), yp)
                    &&& #[trigger] call_ensures(*der, (last_last_x,), dyp)
                    &&& vstd::math::abs(dyp as int) >= 2
                    &&& spec_newton_step(last_last_x as int, yp as int, dyp as int) == last_x as int
                },
        ensures
            in_coord_range(last_x as int),
            last_x == x,
            y == eval(*f, last_x),
            iterations <= stop_cap(*stop),
            iterations == 0 ==> last_x == spec_mid(range_left as int, range_right as int),
            match *stop {
                StopCriteria::Iterations(n) => iterations == n || newton_stalls_at(
                    *f,
                    *der,
                    last_x,
                    y,
                ),
                StopCriteria::Epsilon(e) => vstd::math::abs(y as int) < e || iterations
                    == NEWTON_STEP_LIMIT || newton_stalls_at(*f, *der, last_x, y),
            },
            newton_run(
                model(*f),
                model(*der),
                spec_mid(range_left as int, range_right as int) as i64,
                spec_mid(range_left as int, range_right as int) as i64,
                0,
                *stop,
            ) == (RootInfo { x: last_x, y, iterations }),
        decreases stop_cap(*stop) - iterations,
    {
        let dy = der(x);
        proof {
            lemma_eval_unique(*der, x, dy);
        }
        // Vanishing-derivative guard: stepping would divide by a value below
        // the grid's smallest positive magnitude.
        if -1 <= dy && dy <= 1 {
            proof {
                assert(call_ensures(*der, (last_x,), dy));
                assert(newton_stalls_at(*f, *der, last_x, y));
                assert(newton_run(model(*f), model(*der), x, last_last_x, iterations, *stop)
                    == (RootInfo { x: last_x, y, iterations }));
            }
            break;
        }
        match newton_step(x, y, dy) {
            None => {
                // Range guard: the new candidate left the representable
                // coordinate range.
                proof {
                    assert(call_ensures(*der, (last_x,), dy));
                    assert(newton_stalls_at(*f, *der, last_x, y));
                    assert(newton_run(model(*f), model(*der), x, last_last_x, iterations, *stop)
                        == (RootInfo { x: last_x, y, iterations }));
                }
                break;
            },
            Some(x_new) => {
                // Oscillation guard: the sequence is cycling between two
                // values, so further updates cannot converge.
                if x_new == last_last_x {
                    proof {
                        if iterations == 0 {
                            assert(newton_cycles(*f, *der, last_x, y, dy)) by {
                                assert(call_ensures(*f, (x_new,), y));
                                assert(call_ensures(*der, (x_new,), dy));
                            }
                        } else {
                            let (yp, dyp) = choose|yp: i64, dyp: i64|
                                {
                                    &&& #[trigger] call_ensures(*f, (last_last_x,), yp)
                                    &&& #[trigger] call_ensures(*der, (last_last_x,), dyp)
                                    &&& vstd::math::abs(dyp as int) >= 2
                                    &&& spec_newton_step(
                                        last_last_x as int,
                                        yp as int,
                                        dyp as int,
                                    ) == last_x as int
                                };
                            assert(newton_cycles(*f, *der, last_x, y, dy)) by {
                                assert(call_ensures(*f, (x_new,), yp));
                                assert(call_ensures(*der, (x_new,), dyp));
                            }
                        }
                        assert(call_ensures(*der, (last_x,), dy));
                        assert(newton_stalls_at(*f, *der, last_x, y));
                        assert(newton_run(model(*f), model(*der), x, last_last_x, iterations, *stop)
                            == (RootInfo { x: last_x, y, iterations }));
                    }
                    break;
                }
                let y_new = f(x_new);
                proof {
                    lemma_eval_unique(*f, x_new, y_new);
                }
                let ghost prev_x = x;
                let ghost prev_last_last = last_last_x;
                let ghost prev_iterations = iterations;
                iterations = iterations + 1;
                last_last_x = last_x;
                last_x = x_new;
                x = x_new;
                let ghost y_prev = y;
                y = y_new;
                proof {
                    assert(call_ensures(*f, (last_last_x,), y_prev));
                    assert(call_ensures(*der, (last_last_x,), dy));
                    assert(spec_newton_step(last_last_x as int, y_prev as int, dy as int)
                        == last_x as int);
                    let done_now = match *stop {
                        StopCriteria::Iterations(n) => iterations >= n,
                        StopCriteria::Epsilon(e) => vstd::math::abs(y as int) < e || iterations
                            >= NEWTON_STEP_LIMIT,
                    };
                    assert(newton_run(
                        model(*f),
                        model(*der),
                        prev_x,
                        prev_last_last,
                        prev_iterations,
                        *stop,
                    ) == if done_now {
                        RootInfo { x: last_x, y, iterations }
                    } else {
                        newton_run(model(*f), model(*der), x, last_last_x, iterations, *stop)
                    });
                }
                // Stop once the termination condition is fulfilled, judged
                // on the newest candidate.
                let done = match stop {
                    StopCriteria::Iterations(n) => iterations >= *n,
                    StopCriteria::Epsilon(epsilon) => abs_below(y_new, *epsilon) || iterations
                        >= NEWTON_STEP_LIMIT,
                };
                if done {
                    break;
                }
            },
        }
    }
    RootInfo { x: last_x, y, iterations }
}

/// Number of equally spaced sample points in the returned curve.
pub const CURVE_POINTS: usize = 10000;

/// Lower bound of the normalized interval.
pub open spec fn norm_lo(a: i64, b: i64) -> i64 {
    if a > b {
        b
    } else {
        a
    }
}

/// Upper bound of the normalized interval.
pub open spec fn norm_hi(a: i64, b: i64) -> i64 {
    if a > b {
        a
    } else {
        b
    }
}

/// What the sampled curve holds: exactly `CURVE_POINTS` pairs, the i-th at
/// `lo + i * (hi - lo) / CURVE_POINTS`, paired with the function's value
/// there.
pub open spec fn curve_post<F: Fn(i64) -> i64>(
    f: F,
    lo: i64,
    hi: i64,
    values: Seq<(i64, i64)>,
) -> bool {
    &&& values.len() == CURVE_POINTS
    &&& forall|i: int|
        0 <= i < values.len() ==> (#[trigger] values[i]).0 == lo + (i * (hi - lo)) / (
        CURVE_POINTS as int)
    &&& forall|i: int| 0 <= i < values.len() ==> (#[trigger] values[i]).1 == eval(f, values[i].0)
}

/// What orchestration promises, phrased entirely over the normalized
/// bounds: the call fails with `SameSign`, producing nothing, exactly when
/// the function has the same strict sign at both normalized ends; on
/// success the curve, the bisection estimate, and the Newton estimate each
/// satisfy their component's contract over those bounds.
pub open spec fn find_root_post<F: Fn(i64) -> i64, D: Fn(i64) -> i64>(
    f: F,
    der: D,
    range_left: i64,
    range_right: i64,
    stop: StopCriteria,
    res: Result<ComputeOutput, ComputeError>,
) -> bool {
    let lo = norm_lo(range_left, range_right);
    let hi = norm_hi(range_left, range_right);
    match res {
        Result::Err(e) => e == ComputeError::SameSign && same_sign(
            eval(f, lo) as int,
            eval(f, hi) as int,
        ),
        Result::Ok(out) => {
            &&& !same_sign(eval(f, lo) as int, eval(f, hi) as int)
            &&& curve_post(f, lo, hi, out.values@)
            &&& bisection_post(f, lo, hi, stop, out.bisection)
            &&& newton_post(f, der, lo, hi, stop, out.newton)
        },
    }
}

/// Normalize the interval, validate the sign-change precondition, run both
/// solvers independently, and sample the function for display. Fails with
/// `SameSign`, producing nothing, exactly when the function has the same
/// strict sign at both normalized ends.
pub fn find_root<F: Fn(i64) -> i64, D: Fn(i64) -> i64>(
    f: &F,
    der: &D,
    range_left: i64,
    range_right: i64,
    stop: &StopCriteria,
) -> (res: Result<ComputeOutput, ComputeError>)
    requires
        callable_on_range(*f),
        deterministic(*f),
        callable_on_range(*der),
        deterministic(*der),
        in_coord_range(range_left as int),
        in_coord_range(range_right as int),
        stop.valid(),
    ensures
        find_root_post(*f, *der, range_left, range_right, *stop, res),
{
    // Normalize the interval if it arrives in the wrong order.
    let (left, right) = if range_left > range_right {
        (range_right, range_left)
    } else {
        (range_left, range_right)
    };
    // Bracketing precondition: the signs at the two ends must differ.
    let y_l = f(left);
    let y_r = f(right);
    proof {
        lemma_eval_unique(*f, left, y_l);
        lemma_eval_unique(*f, right, y_r);
    }
    if same_sign_exec(y_l, y_r) {
        return Err(ComputeError::SameSign);
    }
    let bisection_info = bisection(f, left, right, stop);
    let newton_info = newton(f, der, left, right, stop);
    // Sample the function at equally spaced points covering [left, right).
    let width = right - left;
    let mut values: Vec<(i64, i64)> = Vec::new();
    let mut i: usize = 0;
    while i < CURVE_POINTS
        invariant
            callable_on_range(*f),
            deterministic(*f),
            -COORD_MAX <= left <= right <= COORD_MAX,
            width == right - left,
            values@.len() == i,
            i <= CURVE_POINTS,
            forall|j: int|
                0 <= j < i ==> (#[trigger] values@[j]).0 == left + (j * (right - left)) / (
                CURVE_POINTS as int),
            forall|j: int| 0 <= j < i ==> (#[trigger] values@[j]).1 == eval(*f, values@[j].0),
        decreases CURVE_POINTS - i,
    {
        proof {
            assert((i as int) * (width as int) <= 10000 * 0x4000_0000_0000_0000)
                by (nonlinear_arith)
                requires
                    0 <= i as int <= 10000,
                    0 <= width as int <= 0x4000_0000_0000_0000,
            ;
        }
        let offset_wide: u128 = (i as u128) * (width as u128) / (CURVE_POINTS as u128);
        proof {
            lemma_mul_inequality(i as int, CURVE_POINTS as int, width as int);
            vstd::arithmetic::div_mod::lemma_div_is_ordered(
                (i as int) * (width as int),
                (CURVE_POINTS as int) * (width as int),
                CURVE_POINTS as int,
            );
            vstd::arithmetic::div_mod::lemma_div_multiples_vanish(
                width as int,
                CURVE_POINTS as int,
            );
        }
        let x = left + (offset_wide as i64);
        let y_sample = f(x);
        proof {
            lemma_eval_unique(*f, x, y_sample);
        }
        values.push((x, y_sample));
        i = i + 1;
    }
    Ok(ComputeOutput { values, bisection: bisection_info, newton: newton_info })
}

} // verus!
