//! Fixed-point scalar arithmetic for the simulator.
//!
//! Every scalar quantity of the simulation (coordinate, speed, range,
//! blending weight) is an `i64` holding `SCALE` sub-units per world unit.
//! The helpers here are the only places where products, quotients and
//! square roots are computed, and each comes with an exact specification.

use vstd::prelude::*;

verus! {

use vstd::arithmetic::div_mod::{
    lemma_div_is_ordered, lemma_div_pos_is_pos, lemma_fundamental_div_mod,
    lemma_div_multiples_vanish, lemma_div_of0, lemma_mod_bound,
};


/// Number of fixed-point sub-units in one world unit.
pub const SCALE: i64 = 1_000_000;

/// Largest magnitude a position coordinate may take (the world is a
/// bounded box; positions saturate here instead of running off to the
/// edge of the integer range).
pub const POS_LIMIT: i64 = 100_000_000_000;

/// Largest speed bound a parameter set may ask for.
pub const SPEED_LIMIT: i64 = 1_000_000_000;

/// Largest interaction range a parameter set may ask for.
pub const RANGE_LIMIT: i64 = 1_000_000_000_000;

/// Largest flock a simulation may hold.
pub const N_LIMIT: usize = 10_000;

pub open spec fn abs_i(x: int) -> int {
    if x >= 0 {
        x
    } else {
        -x
    }
}

/// Magnitude of a scalar, as an unsigned value.
pub fn abs64(x: i64) -> (r: u64)
    requires
        x > i64::MIN,
    ensures
        r == abs_i(x as int),
{
    if x >= 0 {
        x as u64
    } else {
        (-x) as u64
    }
}

/// `a * b / d` rounded toward zero: the product is exact, the quotient
/// drops the fractional part of the magnitude.
pub open spec fn mul_div_s(a: int, b: int, d: int) -> int {
    let p = a * b;
    if p >= 0 {
        p / d
    } else {
        -((-p) / d)
    }
}

/// Fixed-point multiply-divide. The full product is formed in 128 bits,
/// so the only requirement is that the final quotient fits.
pub fn mul_div(a: i64, b: i64, d: i64) -> (r: i64)
    requires
        0 < d,
        abs_i(mul_div_s(a as int, b as int, d as int)) <= i64::MAX,
    ensures
        r == mul_div_s(a as int, b as int, d as int),
{
    proof {
        assert(-170141183460469231731687303715884105728 < (a as int) * (b as int)
            < 170141183460469231731687303715884105728) by (nonlinear_arith)
            requires
                i64::MIN <= a <= i64::MAX,
                i64::MIN <= b <= i64::MAX,
        ;
    }
    let p: i128 = (a as i128) * (b as i128);
    if p >= 0 {
        proof {
            lemma_div_pos_is_pos(p as int, d as int);
        }
        let q: u128 = (p as u128) / (d as u128);
        q as i64
    } else {
        proof {
            lemma_div_pos_is_pos(-(p as int), d as int);
        }
        let q: u128 = ((-p) as u128) / (d as u128);
        -(q as i64)
    }
}

/// The magnitude of `mul_div_s(a, b, d)` is bounded by the product of
/// bounds on the magnitudes of `a` and `b`, divided by `d`.
pub proof fn lemma_mul_div_s_bound(a: int, b: int, d: int, ba: int, bb: int)
    requires
        0 < d,
        abs_i(a) <= ba,
        abs_i(b) <= bb,
    ensures
        abs_i(mul_div_s(a, b, d)) <= (ba * bb) / d,
        (ba * bb) / d >= 0,
{
    let p = a * b;
    assert(abs_i(p) <= ba * bb) by (nonlinear_arith)
        requires
            abs_i(a) <= ba,
            abs_i(b) <= bb,
            p == a * b,
    ;
    lemma_div_pos_is_pos(ba * bb, d);
    if p >= 0 {
        lemma_div_is_ordered(p, ba * bb, d);
        lemma_div_pos_is_pos(p, d);
    } else {
        lemma_div_is_ordered(-p, ba * bb, d);
        lemma_div_pos_is_pos(-p, d);
    }
}

/// Negating one factor negates the rounded quotient: rounding toward
/// zero is symmetric around zero.
pub proof fn lemma_mul_div_s_neg(a: int, b: int, d: int)
    requires
        0 < d,
    ensures
        mul_div_s(-a, b, d) == -mul_div_s(a, b, d),
{
    assert((-a) * b == -(a * b)) by (nonlinear_arith);
    if a * b == 0 {
        lemma_div_of0(d);
    }
}

/// Both factors nonnegative: the quotient is nonnegative and bounded by
/// the quotient of the product bounds.
pub proof fn lemma_mul_div_s_nonneg(a: int, b: int, d: int)
    requires
        0 < d,
        0 <= a,
        0 <= b,
    ensures
        0 <= mul_div_s(a, b, d),
{
    assert(a * b >= 0) by (nonlinear_arith)
        requires
            0 <= a,
            0 <= b,
    ;
    lemma_div_pos_is_pos(a * b, d);
}

/// Integer square root, defined by halving the argument's bit width.
pub open spec fn isqrt_s(n: nat) -> nat
    decreases n,
{
    if n == 0 {
        0
    } else {
        let r = 2 * isqrt_s(n / 4);
        if (r + 1) * (r + 1) <= n {
            r + 1
        } else {
            r
        }
    }
}

/// `isqrt_s(n)` is the unique `r` with `r^2 <= n < (r+1)^2`.
pub proof fn lemma_isqrt_s_bounds(n: nat)
    ensures
        isqrt_s(n) * isqrt_s(n) <= n,
        n < (isqrt_s(n) + 1) * (isqrt_s(n) + 1),
    decreases n,
{
    if n == 0 {
        assert(isqrt_s(0) == 0);
        assert((0nat + 1) * (0nat + 1) == 1) by (nonlinear_arith);
        assert(isqrt_s(n) * isqrt_s(n) <= n);
    } else {
        lemma_isqrt_s_bounds(n / 4);
        let r0 = isqrt_s(n / 4);
        let r = 2 * r0;
        lemma_fundamental_div_mod(n as int, 4);
        lemma_mod_bound(n as int, 4);
        assert((2 * r0) * (2 * r0) == 4 * (r0 * r0)) by (nonlinear_arith);
        assert((2 * r0 + 2) * (2 * r0 + 2) == 4 * ((r0 + 1) * (r0 + 1))) by (nonlinear_arith);
        assert(r * r <= n);
        assert(n < (r + 2) * (r + 2));
        if (r + 1) * (r + 1) <= n {
            assert(isqrt_s(n) == r + 1);
        } else {
            assert(isqrt_s(n) == r);
        }
    }
}

pub proof fn lemma_isqrt_unique(n: nat, r: nat)
    requires
        r * r <= n,
        n < (r + 1) * (r + 1),
    ensures
        r == isqrt_s(n),
{
    lemma_isqrt_s_bounds(n);
    let s = isqrt_s(n);
    if r < s {
        assert((r + 1) * (r + 1) <= s * s) by (nonlinear_arith)
            requires
                r + 1 <= s,
        ;
    }
    if s < r {
        assert((s + 1) * (s + 1) <= r * r) by (nonlinear_arith)
            requires
                s + 1 <= r,
        ;
    }
}

/// Square-root monotonicity: a smaller argument has a root no larger.
pub proof fn lemma_isqrt_le(a: nat, b: nat)
    requires
        a <= b,
    ensures
        isqrt_s(a) <= isqrt_s(b),
{
    lemma_isqrt_s_bounds(a);
    lemma_isqrt_s_bounds(b);
    let ra = isqrt_s(a);
    let rb = isqrt_s(b);
    if rb < ra {
        assert((rb + 1) * (rb + 1) <= ra * ra) by (nonlinear_arith)
            requires
                rb + 1 <= ra,
        ;
    }
}

/// Largest argument `isqrt64` accepts: `2^126`, so every candidate root
/// stays below `2^63`.
pub const ISQRT_ARG_MAX: u128 = 85070591730234615865843651857942052864;

/// The square of a 64-bit value, formed in 128 bits.
pub fn sq_u64(x: u64) -> (r: u128)
    ensures
        r == (x as int) * (x as int),
{
    proof {
        assert((x as int) * (x as int) <= u128::MAX) by (nonlinear_arith)
            requires
                0 <= x <= u64::MAX,
        ;
    }
    (x as u128) * (x as u128)
}

/// Executable integer square root by doubling then bisection.
pub fn isqrt64(n: u128) -> (r: u64)
    requires
        n < ISQRT_ARG_MAX,
    ensures
        r == isqrt_s(n as nat),
        (r as int) * (r as int) <= n,
        n < (r as int + 1) * (r as int + 1),
{
    if n == 0 {
        proof {
            assert((0nat + 1) * (0nat + 1) == 1) by (nonlinear_arith);
            lemma_isqrt_unique(0, 0);
        }
        return 0;
    }
    let mut lo: u64 = 0;
    let mut hi: u64 = 1;
    while sq_u64(hi) <= n
        invariant
            n < ISQRT_ARG_MAX,
            (lo as int) * (lo as int) <= n,
            lo <= n,
            lo < hi,
        decreases n - lo,
    {
        proof {
            assert(hi < 9223372036854775808) by (nonlinear_arith)
                requires
                    (hi as int) * (hi as int) <= n,
                    n < ISQRT_ARG_MAX,
            ;
            assert(hi <= (hi as int) * (hi as int)) by (nonlinear_arith)
                requires
                    hi >= 1,
            ;
        }
        lo = hi;
        hi = hi * 2;
    }
    while lo + 1 < hi
        invariant
            (lo as int) * (lo as int) <= n,
            n < (hi as int) * (hi as int),
            lo < hi,
        decreases hi - lo,
    {
        let mid: u64 = lo + (hi - lo) / 2;
        if sq_u64(mid) <= n {
            lo = mid;
        } else {
            hi = mid;
        }
    }
    proof {
        lemma_isqrt_unique(n as nat, lo as nat);
    }
    lo
}

/// Any value whose square is at most `n` is at most `isqrt_s(n)`.
pub proof fn lemma_le_isqrt(n: nat, x: nat)
    requires
        x * x <= n,
    ensures
        x <= isqrt_s(n),
{
    lemma_isqrt_s_bounds(n);
    let r = isqrt_s(n);
    if r < x {
        assert((r + 1) * (r + 1) <= x * x) by (nonlinear_arith)
            requires
                r + 1 <= x,
        ;
    }
}

} // verus!
