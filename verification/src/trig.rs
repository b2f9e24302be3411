//! Fixed-point sine and cosine.
//!
//! Angles are in nano-radians and results in nano-units, so `sin` maps
//! `[0, TAU_NANO)` onto roughly `[-NANO, NANO]`. The value is a truncated
//! Taylor polynomial after range reduction, exactly as `sin_spec` states it;
//! any accurate sine provider would serve the simulation equally well.

use crate::num::lemma_muldiv_bound;
use crate::num::NANO;
use vstd::arithmetic::div_mod::lemma_add_mod_noop;
use vstd::arithmetic::div_mod::lemma_div_is_ordered;
use vstd::arithmetic::div_mod::lemma_fundamental_div_mod;
use vstd::arithmetic::div_mod::lemma_fundamental_div_mod_converse;
use vstd::arithmetic::div_mod::lemma_mod_twice;
use vstd::arithmetic::mul::lemma_mul_upper_bound;
use vstd::prelude::*;

verus! {

/// One full turn (two pi) in nano-radians.
pub const TAU_NANO: u64 = 6_283_185_307;

/// Half a turn (pi) in nano-radians.
pub const HALF_NANO: u64 = 3_141_592_654;

/// A quarter turn (pi over two) in nano-radians.
pub const QUARTER_NANO: u64 = 1_570_796_327;

/// Every sine and cosine value lies in `[-SIN_BOUND, SIN_BOUND]`.
pub const SIN_BOUND: i64 = 2_000_000_000;

/// The Taylor polynomial of sine up to the ninth power, evaluated with
/// truncating fixed-point steps; `v` must lie in `[0, QUARTER_NANO]`.
pub open spec fn sin_poly(v: int) -> int {
    let n = NANO as int;
    let a1 = v * v / n;
    let p3 = a1 * v / n;
    let a2 = p3 * v / n;
    let p5 = a2 * v / n;
    let a3 = p5 * v / n;
    let p7 = a3 * v / n;
    let a4 = p7 * v / n;
    let p9 = a4 * v / n;
    v - p3 / 6 + p5 / 120 - p7 / 5040 + p9 / 362880
}

/// Sine on `[0, HALF_NANO]`: fold the second octant pair back onto the first.
pub open spec fn sin_half(q: int) -> int {
    if q > QUARTER_NANO {
        sin_poly(HALF_NANO - q)
    } else {
        sin_poly(q)
    }
}

/// Sine of any angle: reduce modulo a full turn, then use point symmetry
/// around half a turn.
pub open spec fn sin_spec(v: int) -> int {
    let m = v % (TAU_NANO as int);
    if m > HALF_NANO {
        -sin_half(m - HALF_NANO)
    } else {
        sin_half(m)
    }
}

/// Cosine as the sine shifted a quarter turn.
pub open spec fn cos_spec(v: int) -> int {
    sin_spec(v + QUARTER_NANO)
}

/// The bounds of every intermediate of `sin_poly` on `[0, QUARTER_NANO]`.
proof fn lemma_sin_poly_bound(v: int)
    requires
        0 <= v <= QUARTER_NANO,
    ensures
        -SIN_BOUND < sin_poly(v) <= SIN_BOUND,
        0 <= v * v / (NANO as int) <= 2_467_401_100,
        0 <= v * v / (NANO as int) * v / (NANO as int) <= 3_875_784_585,
        0 <= v * v / (NANO as int) * v / (NANO as int) * v / (NANO as int) <= 6_088_068_190,
        0 <= v * v / (NANO as int) * v / (NANO as int) * v / (NANO as int) * v / (NANO as int)
            <= 9_563_115_151,
        0 <= v * v / (NANO as int) * v / (NANO as int) * v / (NANO as int) * v / (NANO as int) * v
            / (NANO as int) <= 15_021_706_153,
        0 <= v * v / (NANO as int) * v / (NANO as int) * v / (NANO as int) * v / (NANO as int) * v
            / (NANO as int) * v / (NANO as int) <= 23_596_040_850,
        0 <= v * v / (NANO as int) * v / (NANO as int) * v / (NANO as int) * v / (NANO as int) * v
            / (NANO as int) * v / (NANO as int) * v / (NANO as int) <= 37_064_574_298,
        0 <= v * v / (NANO as int) * v / (NANO as int) * v / (NANO as int) * v / (NANO as int) * v
            / (NANO as int) * v / (NANO as int) * v / (NANO as int) * v / (NANO as int)
            <= 58_220_897_169,
{
    let n = NANO as int;
    let q = QUARTER_NANO as int;
    lemma_muldiv_bound(v, v, q, q);
    assert(q * q / n == 2_467_401_100int);
    let a1 = v * v / n;
    lemma_muldiv_bound(a1, v, 2_467_401_100, q);
    assert(2_467_401_100int * 1_570_796_327int / 1_000_000_000int == 3_875_784_585int);
    let p3 = a1 * v / n;
    lemma_muldiv_bound(p3, v, 3_875_784_585, q);
    assert(3_875_784_585int * 1_570_796_327int / 1_000_000_000int == 6_088_068_190int);
    let a2 = p3 * v / n;
    lemma_muldiv_bound(a2, v, 6_088_068_190, q);
    assert(6_088_068_190int * 1_570_796_327int / 1_000_000_000int == 9_563_115_151int);
    let p5 = a2 * v / n;
    lemma_muldiv_bound(p5, v, 9_563_115_151, q);
    assert(9_563_115_151int * 1_570_796_327int / 1_000_000_000int == 15_021_706_153int);
    let a3 = p5 * v / n;
    lemma_muldiv_bound(a3, v, 15_021_706_153, q);
    assert(15_021_706_153int * 1_570_796_327int / 1_000_000_000int == 23_596_040_850int);
    let p7 = a3 * v / n;
    lemma_muldiv_bound(p7, v, 23_596_040_850, q);
    assert(23_596_040_850int * 1_570_796_327int / 1_000_000_000int == 37_064_574_298int);
    let a4 = p7 * v / n;
    lemma_muldiv_bound(a4, v, 37_064_574_298, q);
    assert(37_064_574_298int * 1_570_796_327int / 1_000_000_000int == 58_220_897_169int);
    let p9 = a4 * v / n;
    lemma_div_is_ordered(0, p3, 6);
    lemma_div_is_ordered(p3, 3_875_784_585, 6);
    lemma_div_is_ordered(0, p5, 120);
    lemma_div_is_ordered(p5, 9_563_115_151, 120);
    lemma_div_is_ordered(0, p7, 5040);
    lemma_div_is_ordered(p7, 23_596_040_850, 5040);
    lemma_div_is_ordered(0, p9, 362880);
    lemma_div_is_ordered(p9, 58_220_897_169, 362880);
}

/// Every value of `sin_spec` lies strictly inside `[-SIN_BOUND, SIN_BOUND]`.
pub proof fn lemma_sin_spec_bound(v: int)
    ensures
        -SIN_BOUND <= sin_spec(v) <= SIN_BOUND,
{
    let m = v % (TAU_NANO as int);
    vstd::arithmetic::div_mod::lemma_mod_bound(v, TAU_NANO as int);
    if m > HALF_NANO {
        lemma_sin_half_bound(m - HALF_NANO);
    } else {
        lemma_sin_half_bound(m);
    }
}

proof fn lemma_sin_half_bound(q: int)
    requires
        0 <= q <= HALF_NANO,
    ensures
        -SIN_BOUND < sin_half(q) <= SIN_BOUND,
{
    if q > QUARTER_NANO {
        lemma_sin_poly_bound(HALF_NANO - q);
    } else {
        lemma_sin_poly_bound(q);
    }
}

/// Angles equal modulo a full turn have equal sines.
pub proof fn lemma_sin_spec_congruent(a: int, b: int)
    requires
        a % (TAU_NANO as int) == b % (TAU_NANO as int),
    ensures
        sin_spec(a) == sin_spec(b),
{
}

/// The reduction of an angle to `[0, TAU_NANO)`.
fn reduce(v: i64) -> (m: i64)
    ensures
        0 <= m < TAU_NANO,
        m == (v as int) % (TAU_NANO as int),
{
    if v >= 0 {
        let m = ((v as u64) % TAU_NANO) as i64;
        m
    } else {
        let a = (-(v as i128)) as u64;
        let rm = a % TAU_NANO;
        proof {
            lemma_fundamental_div_mod(a as int, TAU_NANO as int);
            if rm == 0 {
                lemma_fundamental_div_mod_converse(
                    v as int,
                    TAU_NANO as int,
                    -((a as int) / (TAU_NANO as int)),
                    0,
                );
            } else {
                lemma_fundamental_div_mod_converse(
                    v as int,
                    TAU_NANO as int,
                    -((a as int) / (TAU_NANO as int)) - 1,
                    TAU_NANO as int - rm as int,
                );
            }
        }
        if rm == 0 {
            0
        } else {
            (TAU_NANO - rm) as i64
        }
    }
}

/// The Taylor polynomial on the first quarter turn.
fn poly(arg: i64) -> (r: i64)
    requires
        0 <= arg <= QUARTER_NANO,
    ensures
        r == sin_poly(arg as int),
{
    proof {
        lemma_sin_poly_bound(arg as int);
    }
    let n: u128 = NANO as u128;
    let x = arg as u128;
    proof {
        lemma_mul_upper_bound(x as int, QUARTER_NANO as int, x as int, QUARTER_NANO as int);
    }
    let a1 = x * x / n;
    proof {
        lemma_mul_upper_bound(a1 as int, 2_467_401_100, x as int, QUARTER_NANO as int);
    }
    let p3 = a1 * x / n;
    proof {
        lemma_mul_upper_bound(p3 as int, 3_875_784_585, x as int, QUARTER_NANO as int);
    }
    let a2 = p3 * x / n;
    proof {
        lemma_mul_upper_bound(a2 as int, 6_088_068_190, x as int, QUARTER_NANO as int);
    }
    let p5 = a2 * x / n;
    proof {
        lemma_mul_upper_bound(p5 as int, 9_563_115_151, x as int, QUARTER_NANO as int);
    }
    let a3 = p5 * x / n;
    proof {
        lemma_mul_upper_bound(a3 as int, 15_021_706_153, x as int, QUARTER_NANO as int);
    }
    let p7 = a3 * x / n;
    proof {
        lemma_mul_upper_bound(p7 as int, 23_596_040_850, x as int, QUARTER_NANO as int);
    }
    let a4 = p7 * x / n;
    proof {
        lemma_mul_upper_bound(a4 as int, 37_064_574_298, x as int, QUARTER_NANO as int);
    }
    let p9 = a4 * x / n;
    let sum: i128 = x as i128 - (p3 / 6) as i128 + (p5 / 120) as i128 - (p7 / 5040) as i128 + (p9
        / 362880) as i128;
    sum as i64
}

/// Fixed-point sine: nano-radians in, nano-units out.
pub fn sin(v: i64) -> (r: i64)
    ensures
        r == sin_spec(v as int),
        -SIN_BOUND <= r <= SIN_BOUND,
{
    proof {
        lemma_sin_spec_bound(v as int);
    }
    let m = reduce(v);
    let (neg, q) = if m > HALF_NANO as i64 {
        (true, m - HALF_NANO as i64)
    } else {
        (false, m)
    };
    let arg = if q > QUARTER_NANO as i64 {
        HALF_NANO as i64 - q
    } else {
        q
    };
    let s = poly(arg);
    proof {
        lemma_sin_half_bound(q as int);
    }
    if neg {
        -s
    } else {
        s
    }
}

/// Fixed-point cosine: the sine a quarter turn ahead.
pub fn cos(v: i64) -> (r: i64)
    ensures
        r == cos_spec(v as int),
        -SIN_BOUND <= r <= SIN_BOUND,
{
    let m = reduce(v);
    let r = sin(m + QUARTER_NANO as i64);
    proof {
        let t = TAU_NANO as int;
        let q = QUARTER_NANO as int;
        lemma_mod_twice(v as int, t);
        lemma_add_mod_noop(v as int % t, q, t);
        lemma_add_mod_noop(v as int, q, t);
        lemma_mod_twice(q, t);
        assert((m as int + q) % t == (v as int + q) % t);
        lemma_sin_spec_congruent(m as int + q, v as int + q);
        lemma_sin_spec_bound(v as int + q);
    }
    r
}

} // verus!
