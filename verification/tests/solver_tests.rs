use root_finder::arith::SCALE;
use root_finder::methods::{bisection, find_root, newton, ComputeError, StopCriteria};

// floor(sqrt(2) * 2^32): the fixed-point image of the quadratic's root.
const SQRT2_FIX: i64 = 6074000999;

fn square_minus_two(x: i64) -> i64 {
    let wide = (x as i128) * (x as i128) / (SCALE as i128) - 2 * (SCALE as i128);
    wide as i64
}

fn square_minus_two_der(x: i64) -> i64 {
    2 * x
}

#[test]
fn bisection_quadratic_error_bound() {
    let f = |x: i64| -> i64 { square_minus_two(x) };
    let stop = StopCriteria::Iterations(30);
    let info = bisection(&f, 0, 2 * SCALE, &stop);
    assert_eq!(info.iterations, 30);
    // |x - sqrt(2)| < (b - a) / 2^iterations, up to one grid unit.
    let bound = (2 * SCALE) / (1i64 << 30) + 1;
    assert!((info.x - SQRT2_FIX).abs() < bound);
    assert_eq!(info.x, 6074001000);
    assert_eq!(info.y, 0);
    assert_eq!(info.y, f(info.x));
}

#[test]
fn newton_quadratic_converges_fast() {
    let f = |x: i64| -> i64 { square_minus_two(x) };
    let d = |x: i64| -> i64 { square_minus_two_der(x) };
    // Residual below 10 grid units, reached within 10 iterations: quadratic
    // convergence from the midpoint 1.0 of [0, 2]. The run ends on the exact
    // representable zero of the quadratic, well within 1e-10 of sqrt(2).
    let stop = StopCriteria::Epsilon(10);
    let info = newton(&f, &d, 0, 2 * SCALE, &stop);
    assert!(info.iterations <= 10);
    assert_eq!(info.iterations, 4);
    assert_eq!(info.y, 0);
    assert!((info.x - SQRT2_FIX).abs() <= 1);
    assert_eq!(info.x, 6074001000);
    assert_eq!(f(info.x), 0);
}

#[test]
fn find_root_swapped_bounds_identical() {
    let f = |x: i64| -> i64 { square_minus_two(x) };
    let d = |x: i64| -> i64 { square_minus_two_der(x) };
    let stop = StopCriteria::Iterations(20);
    let forward = find_root(&f, &d, 0, 2 * SCALE, &stop).unwrap();
    let swapped = find_root(&f, &d, 2 * SCALE, 0, &stop).unwrap();
    assert_eq!(forward.bisection, swapped.bisection);
    assert_eq!(forward.newton, swapped.newton);
    assert_eq!(forward.values, swapped.values);
}

#[test]
fn find_root_same_sign_is_error() {
    // x^2 + 1 has no real root: positive at both ends of [-1, 1].
    let f = |x: i64| -> i64 {
        ((x as i128) * (x as i128) / (SCALE as i128) + (SCALE as i128)) as i64
    };
    let d = |x: i64| -> i64 { 2 * x };
    let stop = StopCriteria::Iterations(20);
    let res = find_root(&f, &d, -SCALE, SCALE, &stop);
    assert!(matches!(res, Err(ComputeError::SameSign)));
}

#[test]
fn curve_has_fixed_shape() {
    let f = |x: i64| -> i64 { x - SCALE };
    let d = |_x: i64| -> i64 { SCALE };
    let stop = StopCriteria::Iterations(10);
    let out = find_root(&f, &d, 0, 2 * SCALE, &stop).unwrap();
    assert_eq!(out.values.len(), 10000);
    // First sample sits on the normalized left bound.
    assert_eq!(out.values[0].0, 0);
    // Point i sits at left + i * (right - left) / 10000.
    assert_eq!(out.values[1].0, 858993);
    assert_eq!(out.values[9999].0, 8589075598);
    // The last sample stays strictly below the right bound.
    assert!(out.values[9999].0 < 2 * SCALE);
    // Each sample is paired with the function's value there.
    for &(x, y) in out.values.iter() {
        assert_eq!(y, f(x));
    }
}

#[test]
fn epsilon_mode_stops_early() {
    // f(x) = x - 1 over [0, 2] with epsilon ~ 1e-6: both solvers hit the
    // residual threshold long before any plausible iteration cap.
    let f = |x: i64| -> i64 { x - SCALE };
    let d = |_x: i64| -> i64 { SCALE };
    let eps = StopCriteria::Epsilon(4295);
    let b = bisection(&f, 0, 2 * SCALE, &eps);
    assert!(b.y.abs() < 4295);
    assert!(b.iterations < 1000);
    assert_eq!((b.x, b.y, b.iterations), (SCALE, 0, 1));
    let n = newton(&f, &d, 0, 2 * SCALE, &eps);
    assert!(n.y.abs() < 4295);
    assert!(n.iterations < 1000);
    assert_eq!((n.x, n.y, n.iterations), (SCALE, 0, 0));
}

#[test]
fn degenerate_interval_terminates() {
    // One grid unit wide: the first midpoint equals the previous one, so the
    // guard stops the loop although epsilon 1 is unreachable.
    let f = |x: i64| -> i64 { 2 * x - 11 };
    let stop = StopCriteria::Epsilon(1);
    let info = bisection(&f, 5, 6, &stop);
    assert_eq!((info.x, info.y, info.iterations), (5, -1, 0));
}

#[test]
fn bisection_iteration_limit_is_exhausted() {
    let f = |x: i64| -> i64 { 3 * x - 2 * SCALE };
    let stop = StopCriteria::Iterations(7);
    let info = bisection(&f, 0, 2 * SCALE, &stop);
    assert_eq!(info.iterations, 7);
    assert_eq!((info.x, info.y), (2885681152, 67108864));
}

#[test]
fn exact_zero_at_endpoint_is_a_sign_change() {
    // f(0) == 0 exactly: the product sign test uses "> 0", so the bracket is
    // accepted and bisection walks toward the root at the left end.
    let f = |x: i64| -> i64 { x };
    let d = |_x: i64| -> i64 { SCALE };
    let stop = StopCriteria::Iterations(5);
    let out = find_root(&f, &d, 0, SCALE, &stop).unwrap();
    assert_eq!(
        (out.bisection.x, out.bisection.y, out.bisection.iterations),
        (134217728, 134217728, 5)
    );
    assert_eq!((out.newton.x, out.newton.y, out.newton.iterations), (0, 0, 2));
}

#[test]
fn newton_vanishing_derivative_guard() {
    // A derivative below one grid unit would mean dividing by a vanishing
    // value: Newton stops at once with the midpoint as its best estimate.
    let f = |x: i64| -> i64 { x - 2 * SCALE };
    let d = |_x: i64| -> i64 { 0 };
    let stop = StopCriteria::Iterations(50);
    let info = newton(&f, &d, 0, 2 * SCALE, &stop);
    assert_eq!((info.x, info.y, info.iterations), (SCALE, -SCALE, 0));
}

#[test]
fn newton_oscillation_guard() {
    // The iterates cycle between 0 and -1.0: the two-step guard fires.
    let f = |x: i64| -> i64 { if x >= 0 { SCALE } else { -SCALE } };
    let d = |_x: i64| -> i64 { SCALE };
    let stop = StopCriteria::Iterations(50);
    let info = newton(&f, &d, -SCALE, SCALE, &stop);
    assert_eq!((info.x, info.y, info.iterations), (-SCALE, -SCALE, 1));
}

#[test]
fn newton_range_guard() {
    // A huge residual over a tiny derivative would jump outside the
    // representable range: Newton stops instead of overflowing.
    let f = |_x: i64| -> i64 { i64::MAX };
    let d = |_x: i64| -> i64 { 2 };
    let stop = StopCriteria::Iterations(50);
    let info = newton(&f, &d, 0, 2 * SCALE, &stop);
    assert_eq!((info.x, info.y, info.iterations), (SCALE, i64::MAX, 0));
}

#[test]
fn equal_bounds_degenerate_run() {
    // left == right with an exact root there: the bracket test sees a zero
    // product, both solvers stop immediately, and every curve sample sits on
    // the single point.
    let f = |x: i64| -> i64 { x - SCALE };
    let d = |_x: i64| -> i64 { SCALE };
    let stop = StopCriteria::Iterations(5);
    let out = find_root(&f, &d, SCALE, SCALE, &stop).unwrap();
    assert_eq!((out.bisection.x, out.bisection.y, out.bisection.iterations), (SCALE, 0, 0));
    assert_eq!((out.newton.x, out.newton.y, out.newton.iterations), (SCALE, 0, 0));
    assert_eq!(out.values.len(), 10000);
    assert_eq!(out.values[0].0, SCALE);
    assert_eq!(out.values[9999].0, SCALE);
}

#[test]
fn stop_criteria_kind_and_equality() {
    let a = StopCriteria::Iterations(10);
    let b = StopCriteria::Iterations(100);
    let c = StopCriteria::Epsilon(1);
    let e = StopCriteria::Epsilon(4295);
    // Mode matching ignores the carried value...
    assert!(a.same_kind(&b));
    assert!(c.same_kind(&e));
    assert!(!a.same_kind(&c));
    // ...while genuine equality does not.
    assert_ne!(a, b);
    assert_eq!(a, StopCriteria::Iterations(10));
    assert_ne!(c, e);
}
