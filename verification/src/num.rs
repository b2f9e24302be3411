//! Fixed-point arithmetic helpers: integer square root and integer powers of
//! nano-scaled fractions.

use vstd::arithmetic::div_mod::lemma_div_is_ordered;
use vstd::arithmetic::mul::lemma_mul_nonnegative;
use vstd::arithmetic::mul::lemma_mul_upper_bound;
use vstd::prelude::*;

verus! {

/// One whole unit at nano scale.
pub const NANO: u64 = 1_000_000_000;

/// The floor of the square root of a non-negative integer, as a value.
pub open spec fn sqrt_floor(n: int) -> int {
    choose|r: int| 0 <= r && #[trigger] (r * r) <= n && n < (r + 1) * (r + 1)
}

proof fn lemma_sqrt_floor_exists(n: int) -> (r: int)
    requires
        0 <= n,
    ensures
        0 <= r,
        r * r <= n,
        n < (r + 1) * (r + 1),
    decreases n,
{
    if n == 0 {
        0
    } else {
        let r = lemma_sqrt_floor_exists(n - 1);
        if n < (r + 1) * (r + 1) {
            r
        } else {
            assert(n == (r + 1) * (r + 1));
            assert(n < ((r + 1) + 1) * ((r + 1) + 1)) by (nonlinear_arith)
                requires
                    n == (r + 1) * (r + 1),
                    0 <= r,
            ;
            r + 1
        }
    }
}

/// `sqrt_floor` is exactly characterized by its two defining inequalities.
pub proof fn lemma_sqrt_floor(n: int, r: int)
    requires
        0 <= r,
        r * r <= n,
        n < (r + 1) * (r + 1),
    ensures
        sqrt_floor(n) == r,
{
    assert(0 <= r && (r * r) <= n && n < (r + 1) * (r + 1));
    let s = sqrt_floor(n);
    assert(0 <= s && s * s <= n && n < (s + 1) * (s + 1));
    if s < r {
        assert((s + 1) * (s + 1) <= r * r) by (nonlinear_arith)
            requires
                0 <= s,
                s + 1 <= r,
        ;
    }
    if r < s {
        assert((r + 1) * (r + 1) <= s * s) by (nonlinear_arith)
            requires
                0 <= r,
                r + 1 <= s,
        ;
    }
}

/// The defining bounds of `sqrt_floor`, for any non-negative argument.
pub proof fn lemma_sqrt_floor_bounds(n: int)
    requires
        0 <= n,
    ensures
        0 <= sqrt_floor(n),
        sqrt_floor(n) * sqrt_floor(n) <= n,
        n < (sqrt_floor(n) + 1) * (sqrt_floor(n) + 1),
{
    let w = lemma_sqrt_floor_exists(n);
    lemma_sqrt_floor(n, w);
}

/// Integer square root: the unique `r` with `r * r <= n < (r + 1) * (r + 1)`.
pub fn isqrt(n: u128) -> (r: u64)
    ensures
        (r as int) * (r as int) <= n as int,
        (n as int) < (r as int + 1) * (r as int + 1),
        r == sqrt_floor(n as int),
{
    let mut lo: u128 = 0;
    let mut hi: u128 = 0x1_0000_0000_0000_0000;
    while lo + 1 < hi
        invariant
            lo < hi,
            hi <= 0x1_0000_0000_0000_0000,
            (lo as int) * (lo as int) <= n as int,
            (n as int) < (hi as int) * (hi as int),
        decreases hi - lo,
    {
        let mid = lo + (hi - lo) / 2;
        assert((mid as int) * (mid as int) < 0x1_0000_0000_0000_0000int * 0x1_0000_0000_0000_0000int)
            by (nonlinear_arith)
            requires
                mid < 0x1_0000_0000_0000_0000u128,
        ;
        if mid * mid <= n {
            lo = mid;
        } else {
            hi = mid;
        }
    }
    assert((n as int) < (lo as int + 1) * (lo as int + 1));
    proof {
        lemma_sqrt_floor(n as int, lo as int);
    }
    lo as u64
}

/// Bounds of a product of four non-negative bounded factors, with the
/// partial products bounded as well.
pub proof fn lemma_mul4_bound(a: int, ab: int, b: int, bb: int, c: int, cb: int, d: int, db: int)
    requires
        0 <= a <= ab,
        0 <= b <= bb,
        0 <= c <= cb,
        0 <= d <= db,
    ensures
        0 <= a * b <= ab * bb,
        0 <= a * b * c <= ab * bb * cb,
        0 <= a * b * c * d <= ab * bb * cb * db,
{
    lemma_mul_upper_bound(a, ab, b, bb);
    lemma_mul_nonnegative(a, b);
    lemma_mul_upper_bound(a * b, ab * bb, c, cb);
    lemma_mul_nonnegative(a * b, c);
    lemma_mul_upper_bound(a * b * c, ab * bb * cb, d, db);
    lemma_mul_nonnegative(a * b * c, d);
}

/// Truncating products and quotients of non-negative values keep their
/// bounds: `x * y / NANO` lies between `0` and `xb * yb / NANO`.
pub proof fn lemma_muldiv_bound(x: int, y: int, xb: int, yb: int)
    requires
        0 <= x <= xb,
        0 <= y <= yb,
    ensures
        0 <= x * y / (NANO as int) <= xb * yb / (NANO as int),
{
    lemma_mul_upper_bound(x, xb, y, yb);
    lemma_mul_nonnegative(x, y);
    lemma_div_is_ordered(0, x * y, NANO as int);
    lemma_div_is_ordered(x * y, xb * yb, NANO as int);
}

/// The fixed-point power: `e` truncating multiplications by `base / NANO`,
/// starting from one whole unit.
pub open spec fn pow_nano_spec(base: int, e: nat) -> int
    decreases e,
{
    if e == 0 {
        NANO as int
    } else {
        pow_nano_spec(base, (e - 1) as nat) * base / (NANO as int)
    }
}

/// A fixed-point power of a fraction of at most one stays in `[0, NANO]`.
pub proof fn lemma_pow_nano_bounds(base: int, e: nat)
    requires
        0 <= base <= NANO,
    ensures
        0 <= pow_nano_spec(base, e) <= NANO,
    decreases e,
{
    if e > 0 {
        lemma_pow_nano_bounds(base, (e - 1) as nat);
        let p = pow_nano_spec(base, (e - 1) as nat);
        lemma_muldiv_bound(p, base, NANO as int, NANO as int);
        assert(NANO as int * NANO as int / (NANO as int) == NANO as int);
    }
}

/// Once a fixed-point power reaches zero it stays zero.
proof fn lemma_pow_nano_zero(base: int, i: nat, e: nat)
    requires
        0 <= base <= NANO,
        i <= e,
        pow_nano_spec(base, i) == 0,
    ensures
        pow_nano_spec(base, e) == 0,
    decreases e - i,
{
    if i < e {
        assert(pow_nano_spec(base, i + 1) == 0 * base / (NANO as int));
        lemma_pow_nano_zero(base, i + 1, e);
    }
}

/// The `e`-th fixed-point power of a nano-scaled fraction, by repeated
/// truncating multiplication. Exponential decay laws (display-size easing,
/// the per-tick spawn probability) are expressed through this function, so
/// that a time delta of `0` is exactly a no-op.
pub fn pow_nano(base: u64, e: u64) -> (r: u64)
    requires
        base <= NANO,
    ensures
        r == pow_nano_spec(base as int, e as nat),
        r <= NANO,
{
    let mut p: u64 = NANO;
    let mut i: u64 = 0;
    while i < e && p > 0
        invariant
            base <= NANO,
            i <= e,
            p == pow_nano_spec(base as int, i as nat),
            p <= NANO,
        decreases e - i,
    {
        proof {
            lemma_pow_nano_bounds(base as int, (i + 1) as nat);
        }
        p = ((p as u128 * base as u128) / (NANO as u128)) as u64;
        i = i + 1;
    }
    proof {
        if p == 0 && i < e {
            lemma_pow_nano_zero(base as int, i as nat, e as nat);
        }
    }
    p
}

} // verus!
