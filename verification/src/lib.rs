//! Verified root-finding engine: bisection and Newton-Raphson over a
//! fixed-point representation of the real line, with configurable
//! termination conditions.

pub mod arith;
pub mod laws;
pub mod methods;
