//! The fixed-point skill domain: scale, storage bound, and the truncating
//! division that skill averages use.

use vstd::prelude::*;

verus! {

/// Fixed-point scale: stored skill units per rating point.
pub const SCALE: i64 = 1000;

/// Bound on every stored skill value (estimate and true skill alike),
/// in fixed-point units; a billion rating points, far above any rating
/// the model produces, but small enough that sums over whole teams and
/// queues fit comfortably in 128-bit accumulators.
pub const SKILL_LIMIT: i64 = 1_000_000_000_000;

/// Division rounding toward zero, for positive divisors.
pub open spec fn div_trunc_spec(a: int, b: int) -> int
    recommends
        b > 0,
{
    if a >= 0 {
        a / b
    } else {
        -((-a) / b)
    }
}

/// Truncating division on wide accumulators, matching `div_trunc_spec`.
pub fn div_trunc(a: i128, b: i128) -> (q: i128)
    requires
        b > 0,
        a > i128::MIN,
    ensures
        q == div_trunc_spec(a as int, b as int),
        a >= 0 ==> 0 <= q <= a,
        a < 0 ==> a <= q <= 0,
{
    if a >= 0 {
        let na: u128 = a as u128;
        let nb: u128 = b as u128;
        let nq: u128 = na / nb;
        assert(na as int / nb as int <= na as int) by (nonlinear_arith)
            requires
                nb >= 1,
                na >= 0,
        ;
        nq as i128
    } else {
        let na: u128 = (-a) as u128;
        let nb: u128 = b as u128;
        let nq: u128 = na / nb;
        assert(na as int / nb as int <= na as int) by (nonlinear_arith)
            requires
                nb >= 1,
                na >= 0,
        ;
        -(nq as i128)
    }
}

} // verus!
