//! The Elo-style rating delta, computed exactly in fixed-point integers.
//!
//! For a winner mean `w` and a loser mean `l` (fixed-point skill units) the
//! classical update gives every winner `+K * (1 - E_w)` and every loser
//! `-K * E_l`, with expectations from base-10 exponentials over a divisor of
//! 400 points. Because `E_w + E_l == 1`, both magnitudes equal
//! `K / (1 + 10^((w - l) / 400))`, which is what `elo_delta` computes.
//!
//! The exponential is evaluated in Q60 binary fixed point: the fractional
//! exponent is quantized to 1/2^20, and `10^f` is a product of the table
//! constants `10^(2^-j)`, each rounded down to Q60. Every step of that
//! evaluation is pinned exactly by `elo_delta_spec`, so the executable code
//! computes the specified value bit for bit; the quantization error against
//! the real-valued formula stays far below one fixed-point unit of the
//! final delta.

use vstd::arithmetic::div_mod::{lemma_div_is_ordered, lemma_div_multiples_vanish};
use vstd::arithmetic::mul::{lemma_mul_inequality, lemma_mul_upper_bound};
use vstd::prelude::*;

use crate::skill::SKILL_LIMIT;

verus! {

/// The fixed update magnitude `K` (32 rating points), in fixed-point units.
pub const K_MILLI: i64 = 32_000;

/// Q60 fixed-point one: 2^60.
pub const Q60: u128 = 1152921504606846976;

/// The Elo divisor (400 rating points), in fixed-point skill units.
pub const ELO_DIVISOR: u64 = 400_000;

/// Mean differences at or beyond 6 divisors (2400 points) saturate the
/// delta to 0 or `K_MILLI`; the true value is below half a fixed-point unit
/// away from that.
pub const ELO_CLAMP: i64 = 2_400_000;

/// Fractional exponents are quantized to multiples of 2^-20.
pub const FRAC_ONE: u64 = 1048576;

/// `10^(2^(j - 20))` in Q60, rounded down, for `0 <= j < 20`.
pub open spec fn spec_fc(j: int) -> int {
    if j == 0 {
        1152924036328710390
    } else if j == 1 {
        1152926568056133259
    } else if j == 2 {
        1152931631527657413
    } else if j == 3 {
        1152941758537419722
    } else if j == 4 {
        1152962012823803078
    } else if j == 5 {
        1153002522464026623
    } else if j == 6 {
        1153083546014476069
    } else if j == 7 {
        1153245610196784689
    } else if j == 8 {
        1153569806898244748
    } else if j == 9 {
        1154218473738191015
    } else if j == 10 {
        1155516901883805269
    } else if j == 11 {
        1158118141784913018
    } else if j == 12 {
        1163338202099638887
    } else if j == 13 {
        1173849014921377966
    } else if j == 14 {
        1195156395579392703
    } else if j == 15 {
        1238938474290509675
    } else if j == 16 {
        1331372983281051052
    } else if j == 17 {
        1537445535995216957
    } else if j == 18 {
        2050216573033451056
    } else if j == 19 {
        3645857917945947428
    } else {
        0
    }
}

/// Upper bound on the fraction accumulator after `k` steps: the exact value
/// reached when every processed bit is set.
pub open spec fn spec_ub(k: int) -> int {
    if k == 0 {
        1152921504606846976
    } else if k == 1 {
        1152924036328710390
    } else if k == 2 {
        1152929099789115595
    } else if k == 3 {
        1152939226776639862
    } else if k == 4 {
        1152959481018546549
    } else if k == 5 {
        1152999990569814413
    } else if k == 6 {
        1153081013942343121
    } else if k == 7 {
        1153243077768772757
    } else if k == 8 {
        1153567273758324786
    } else if k == 9 {
        1154215939173854551
    } else if k == 10 {
        1155514364468232452
    } else if k == 11 {
        1158115598657241465
    } else if k == 12 {
        1163335647509164571
    } else if k == 13 {
        1173846437250064163
    } else if k == 14 {
        1195153771118906530
    } else if k == 15 {
        1238935753688350324
    } else if k == 16 {
        1331370059700672865
    } else if k == 17 {
        1537442159897265434
    } else if k == 18 {
        2050212070934475616
    } else if k == 19 {
        3645849911956037442
    } else if k == 20 {
        11529189728905429877
    } else {
        0
    }
}

/// `b` shifted right by `k` bits.
pub open spec fn spec_shr(b: int, k: nat) -> int
    decreases k,
{
    if k == 0 {
        b
    } else {
        spec_shr(b, (k - 1) as nat) / 2
    }
}

pub open spec fn bit_set(b: int, k: nat) -> bool {
    spec_shr(b, k) % 2 == 1
}

/// The Q60 fraction accumulator after processing bits `0 .. k` of `b`.
pub open spec fn spec_frac_partial(b: int, k: nat) -> int
    decreases k,
{
    if k == 0 {
        Q60 as int
    } else {
        let p = spec_frac_partial(b, (k - 1) as nat);
        if bit_set(b, (k - 1) as nat) {
            p * spec_fc(k - 1) / (Q60 as int)
        } else {
            p
        }
    }
}

/// `10^(b / 2^20)` in Q60, for `0 <= b < 2^20`, as the table product
/// computes it.
pub open spec fn spec_pow10_frac(b: int) -> int {
    spec_frac_partial(b, 20)
}

pub open spec fn spec_ten_pow(i: int) -> int {
    if i == 0 {
        1
    } else if i == 1 {
        10
    } else if i == 2 {
        100
    } else if i == 3 {
        1000
    } else if i == 4 {
        10000
    } else if i == 5 {
        100000
    } else {
        0
    }
}

/// `10^(n / ELO_DIVISOR)` in Q60 for `0 <= n < ELO_CLAMP`, split into an
/// integer power and a quantized fractional part.
pub open spec fn spec_ratio_q60(n: int) -> int {
    let i = n / (ELO_DIVISOR as int);
    let m = n % (ELO_DIVISOR as int);
    let b = m * (FRAC_ONE as int) / (ELO_DIVISOR as int);
    spec_pow10_frac(b) * spec_ten_pow(i)
}

/// The rating delta for winner mean `mean_w` and loser mean `mean_l`:
/// `K / (1 + 10^((mean_w - mean_l) / 400))`, rounded half-up, evaluated in
/// the quantized fixed-point arithmetic described above.
pub open spec fn elo_delta_spec(mean_w: int, mean_l: int) -> int {
    let d = mean_w - mean_l;
    if d >= ELO_CLAMP {
        0
    } else if d <= -(ELO_CLAMP as int) {
        K_MILLI as int
    } else if d >= 0 {
        let p = spec_ratio_q60(d);
        ((K_MILLI * Q60) + (Q60 + p) / 2) / (Q60 + p)
    } else {
        let p = spec_ratio_q60(-d);
        ((K_MILLI * p) + (Q60 + p) / 2) / (Q60 + p)
    }
}

/// One step of the accumulator bound table: multiplying the bound by the
/// next constant reproduces the next bound, and the bounds grow.
proof fn lemma_ub_step(k: int)
    requires
        0 <= k < 20,
    ensures
        spec_ub(k) * spec_fc(k) / (Q60 as int) == spec_ub(k + 1),
        spec_ub(k) <= spec_ub(k + 1),
        Q60 <= spec_fc(k) <= 3645857917945947428,
        Q60 <= spec_ub(k) <= 3645849911956037442,
        spec_ub(k + 1) <= 11529189728905429877,
{
}

fn frac_const(j: usize) -> (c: u64)
    requires
        j < 20,
    ensures
        c == spec_fc(j as int),
{
    match j {
        0 => 1152924036328710390,
        1 => 1152926568056133259,
        2 => 1152931631527657413,
        3 => 1152941758537419722,
        4 => 1152962012823803078,
        5 => 1153002522464026623,
        6 => 1153083546014476069,
        7 => 1153245610196784689,
        8 => 1153569806898244748,
        9 => 1154218473738191015,
        10 => 1155516901883805269,
        11 => 1158118141784913018,
        12 => 1163338202099638887,
        13 => 1173849014921377966,
        14 => 1195156395579392703,
        15 => 1238938474290509675,
        16 => 1331372983281051052,
        17 => 1537445535995216957,
        18 => 2050216573033451056,
        _ => 3645857917945947428,
    }
}

fn ten_pow(i: u64) -> (t: u64)
    requires
        i <= 5,
    ensures
        t == spec_ten_pow(i as int),
{
    match i {
        0 => 1,
        1 => 10,
        2 => 100,
        3 => 1000,
        4 => 10000,
        _ => 100000,
    }
}

/// Evaluates `10^(b / 2^20)` in Q60 by binary exponentiation over the
/// constant table.
fn pow10_frac(b: u64) -> (r: u128)
    requires
        b < FRAC_ONE,
    ensures
        r == spec_pow10_frac(b as int),
        Q60 <= r <= 11529189728905429877,
{
    let mut acc: u128 = Q60;
    let mut bm: u64 = b;
    let mut k: usize = 0;
    while k < 20
        invariant
            0 <= k <= 20,
            bm == spec_shr(b as int, k as nat),
            0 <= bm <= b,
            acc == spec_frac_partial(b as int, k as nat),
            Q60 <= acc <= spec_ub(k as int),
        decreases 20 - k,
    {
        let c = frac_const(k);
        proof {
            lemma_ub_step(k as int);
        }
        if bm % 2 == 1 {
            proof {
                lemma_mul_upper_bound(acc as int, spec_ub(k as int), c as int, spec_fc(k as int));
                lemma_div_is_ordered(
                    acc * c,
                    spec_ub(k as int) * spec_fc(k as int),
                    Q60 as int,
                );
                lemma_mul_inequality(Q60 as int, acc as int, Q60 as int);
                assert(acc * Q60 == Q60 * acc) by (nonlinear_arith);
                assert(acc * c >= acc * Q60) by (nonlinear_arith)
                    requires
                        c >= Q60,
                        acc >= 0,
                ;
                lemma_div_is_ordered(Q60 * acc, acc * c, Q60 as int);
                lemma_div_multiples_vanish(acc as int, Q60 as int);
            }
            acc = (acc * (c as u128)) / Q60;
        }
        bm = bm / 2;
        k = k + 1;
    }
    acc
}

/// The per-player rating delta of one match, in fixed-point units, exactly
/// as `elo_delta_spec` pins it; always between 0 and `K_MILLI`.
pub fn elo_delta(mean_w: i64, mean_l: i64) -> (r: i64)
    requires
        -SKILL_LIMIT <= mean_w <= SKILL_LIMIT,
        -SKILL_LIMIT <= mean_l <= SKILL_LIMIT,
    ensures
        r == elo_delta_spec(mean_w as int, mean_l as int),
        0 <= r <= K_MILLI,
{
    let d: i64 = mean_w - mean_l;
    if d >= ELO_CLAMP {
        return 0;
    }
    if d <= -ELO_CLAMP {
        return K_MILLI;
    }
    let n: u64 = if d >= 0 {
        d as u64
    } else {
        (-d) as u64
    };
    let i: u64 = n / ELO_DIVISOR;
    let m: u64 = n % ELO_DIVISOR;
    let b: u64 = (m * FRAC_ONE) / ELO_DIVISOR;
    proof {
        assert(((m as int) * (FRAC_ONE as int)) / (ELO_DIVISOR as int) < FRAC_ONE)
            by (nonlinear_arith)
            requires
                m < ELO_DIVISOR,
        ;
    }
    let f: u128 = pow10_frac(b);
    let t: u64 = ten_pow(i);
    proof {
        lemma_mul_upper_bound(f as int, 11529189728905429877, t as int, 100000);
        lemma_mul_inequality(1, t as int, f as int);
        assert(f * t >= f * 1 == f) by (nonlinear_arith)
            requires
                t >= 1,
                f >= 0,
        ;
    }
    let p: u128 = f * (t as u128);
    let den: u128 = Q60 + p;
    let num: u128 = if d >= 0 {
        (32_000u128 * Q60) + den / 2
    } else {
        (32_000u128 * p) + den / 2
    };
    proof {
        assert(num < 32001 * den) by (nonlinear_arith)
            requires
                den == Q60 + p,
                p >= Q60,
                num == if d >= 0 {
                    (32000 * Q60) + den / 2
                } else {
                    (32000 * p) + den / 2
                },
                den / 2 <= den,
        ;
        assert(num / den <= 32000) by (nonlinear_arith)
            requires
                num < 32001 * den,
                0 < den,
        ;
    }
    let r128: u128 = num / den;
    r128 as i64
}

} // verus!
