//! Three-dimensional fixed-point vectors.
//!
//! A `Vec3` holds three `i64` coordinates in `SCALE` sub-units per world
//! unit. Every executable operation has an exact specification mirror
//! (`..._s`), so contracts further up can state precisely which vector a
//! computation produces.

use vstd::prelude::*;

verus! {

use crate::math::{
    abs_i, abs64, isqrt_s, isqrt64, lemma_isqrt_s_bounds, lemma_le_isqrt,
    lemma_mul_div_s_bound, mul_div, mul_div_s, ISQRT_ARG_MAX, SCALE, SPEED_LIMIT,
};
use vstd::arithmetic::div_mod::lemma_div_multiples_vanish;

/// Largest coordinate magnitude `vnorm` accepts; three squares of it
/// still fit below `ISQRT_ARG_MAX`.
pub const VEC_NORM_LIMIT: i64 = 3_000_000_000_000_000_000;

#[derive(Clone, Copy, PartialEq, Eq, Structural, Debug)]
pub struct Vec3 {
    pub x: i64,
    pub y: i64,
    pub z: i64,
}

/// All three coordinates have magnitude at most `lim`.
pub open spec fn in_box(v: Vec3, lim: int) -> bool {
    abs_i(v.x as int) <= lim && abs_i(v.y as int) <= lim && abs_i(v.z as int) <= lim
}

pub open spec fn norm2_s(v: Vec3) -> int {
    (v.x as int) * (v.x as int) + (v.y as int) * (v.y as int) + (v.z as int) * (v.z as int)
}

pub open spec fn vadd_s(a: Vec3, b: Vec3) -> Vec3 {
    Vec3 { x: (a.x + b.x) as i64, y: (a.y + b.y) as i64, z: (a.z + b.z) as i64 }
}

pub open spec fn vsub_s(a: Vec3, b: Vec3) -> Vec3 {
    Vec3 { x: (a.x - b.x) as i64, y: (a.y - b.y) as i64, z: (a.z - b.z) as i64 }
}

pub open spec fn vneg_s(a: Vec3) -> Vec3 {
    Vec3 { x: (-a.x) as i64, y: (-a.y) as i64, z: (-a.z) as i64 }
}

/// Each coordinate multiplied by `m` and divided by `d`, rounding toward
/// zero.
pub open spec fn vmuldiv_s(v: Vec3, m: int, d: int) -> Vec3 {
    Vec3 {
        x: mul_div_s(v.x as int, m, d) as i64,
        y: mul_div_s(v.y as int, m, d) as i64,
        z: mul_div_s(v.z as int, m, d) as i64,
    }
}

/// Fixed-point Euclidean norm: the integer square root of the sum of
/// squared coordinates.
pub open spec fn norm_s(v: Vec3) -> int {
    isqrt_s(norm2_s(v) as nat) as int
}

/// The unit vector along `v`, scaled to `SCALE`.
pub open spec fn normalize_s(v: Vec3) -> Vec3 {
    vmuldiv_s(v, SCALE as int, norm_s(v))
}

pub open spec fn dist2_s(a: Vec3, b: Vec3) -> int {
    norm2_s(vsub_s(b, a))
}

/// Spherical interpolation between two unit vectors, realised as a
/// normalised linear blend; the endpoints are returned exactly. When the
/// blend cancels to zero (antiparallel inputs at the midpoint) the first
/// argument is returned unchanged.
pub open spec fn slerp_s(u: Vec3, v: Vec3, t: int) -> Vec3 {
    if t <= 0 {
        u
    } else if t >= SCALE {
        v
    } else {
        let w = vadd_s(vmuldiv_s(u, SCALE - t, SCALE as int), vmuldiv_s(v, t, SCALE as int));
        if norm2_s(w) == 0 {
            u
        } else {
            normalize_s(w)
        }
    }
}

pub proof fn lemma_norm2_nonneg(v: Vec3)
    ensures
        norm2_s(v) >= 0,
        (v.x as int) * (v.x as int) >= 0,
        (v.y as int) * (v.y as int) >= 0,
        (v.z as int) * (v.z as int) >= 0,
{
    assert((v.x as int) * (v.x as int) >= 0) by (nonlinear_arith);
    assert((v.y as int) * (v.y as int) >= 0) by (nonlinear_arith);
    assert((v.z as int) * (v.z as int) >= 0) by (nonlinear_arith);
}

/// No coordinate magnitude exceeds the norm.
pub proof fn lemma_comp_le_norm(v: Vec3)
    ensures
        abs_i(v.x as int) <= norm_s(v),
        abs_i(v.y as int) <= norm_s(v),
        abs_i(v.z as int) <= norm_s(v),
        norm_s(v) >= 0,
{
    lemma_norm2_nonneg(v);
    let n2 = norm2_s(v) as nat;
    assert(abs_i(v.x as int) * abs_i(v.x as int) == (v.x as int) * (v.x as int))
        by (nonlinear_arith);
    assert(abs_i(v.y as int) * abs_i(v.y as int) == (v.y as int) * (v.y as int))
        by (nonlinear_arith);
    assert(abs_i(v.z as int) * abs_i(v.z as int) == (v.z as int) * (v.z as int))
        by (nonlinear_arith);
    lemma_le_isqrt(n2, abs_i(v.x as int) as nat);
    lemma_le_isqrt(n2, abs_i(v.y as int) as nat);
    lemma_le_isqrt(n2, abs_i(v.z as int) as nat);
}

/// The norm is bounded by twice any common coordinate bound.
pub proof fn lemma_norm_le(v: Vec3, lim: int)
    requires
        in_box(v, lim),
        0 <= lim,
    ensures
        norm_s(v) <= 2 * lim,
        norm2_s(v) <= 3 * lim * lim,
{
    lemma_norm2_nonneg(v);
    assert(norm2_s(v) <= 3 * lim * lim) by (nonlinear_arith)
        requires
            abs_i(v.x as int) <= lim,
            abs_i(v.y as int) <= lim,
            abs_i(v.z as int) <= lim,
    ;
    lemma_isqrt_s_bounds(norm2_s(v) as nat);
    let r = norm_s(v);
    if r > 2 * lim {
        assert((2 * lim + 1) * (2 * lim + 1) > 3 * lim * lim) by (nonlinear_arith)
            requires
                lim >= 0,
        ;
        assert((2 * lim + 1) * (2 * lim + 1) <= r * r) by (nonlinear_arith)
            requires
                0 <= 2 * lim + 1 <= r,
        ;
    }
}

impl Vec3 {
    pub fn zero() -> (r: Vec3)
        ensures
            r == (Vec3 { x: 0i64, y: 0i64, z: 0i64 }),
    {
        Vec3 { x: 0, y: 0, z: 0 }
    }

    pub fn new(x: i64, y: i64, z: i64) -> (r: Vec3)
        ensures
            r == (Vec3 { x, y, z }),
    {
        Vec3 { x, y, z }
    }
}

pub fn vadd(a: Vec3, b: Vec3) -> (r: Vec3)
    requires
        abs_i(a.x + b.x) <= i64::MAX,
        abs_i(a.y + b.y) <= i64::MAX,
        abs_i(a.z + b.z) <= i64::MAX,
    ensures
        r == vadd_s(a, b),
{
    Vec3 { x: a.x + b.x, y: a.y + b.y, z: a.z + b.z }
}

pub fn vsub(a: Vec3, b: Vec3) -> (r: Vec3)
    requires
        abs_i(a.x - b.x) <= i64::MAX,
        abs_i(a.y - b.y) <= i64::MAX,
        abs_i(a.z - b.z) <= i64::MAX,
    ensures
        r == vsub_s(a, b),
{
    Vec3 { x: a.x - b.x, y: a.y - b.y, z: a.z - b.z }
}

pub fn vneg(a: Vec3) -> (r: Vec3)
    requires
        a.x > i64::MIN,
        a.y > i64::MIN,
        a.z > i64::MIN,
    ensures
        r == vneg_s(a),
{
    Vec3 { x: -a.x, y: -a.y, z: -a.z }
}

pub fn vmuldiv(v: Vec3, m: i64, d: i64) -> (r: Vec3)
    requires
        0 < d,
        abs_i(mul_div_s(v.x as int, m as int, d as int)) <= i64::MAX,
        abs_i(mul_div_s(v.y as int, m as int, d as int)) <= i64::MAX,
        abs_i(mul_div_s(v.z as int, m as int, d as int)) <= i64::MAX,
    ensures
        r == vmuldiv_s(v, m as int, d as int),
{
    Vec3 { x: mul_div(v.x, m, d), y: mul_div(v.y, m, d), z: mul_div(v.z, m, d) }
}

/// Coordinate bound for a `vmuldiv_s` result, from bounds on the inputs.
pub proof fn lemma_vmuldiv_bound(v: Vec3, m: int, d: int, bv: int, bm: int)
    requires
        0 < d,
        in_box(v, bv),
        abs_i(m) <= bm,
    ensures
        abs_i(mul_div_s(v.x as int, m, d)) <= (bv * bm) / d,
        abs_i(mul_div_s(v.y as int, m, d)) <= (bv * bm) / d,
        abs_i(mul_div_s(v.z as int, m, d)) <= (bv * bm) / d,
        (bv * bm) / d >= 0,
{
    lemma_mul_div_s_bound(v.x as int, m, d, bv, bm);
    lemma_mul_div_s_bound(v.y as int, m, d, bv, bm);
    lemma_mul_div_s_bound(v.z as int, m, d, bv, bm);
}

pub fn norm2(v: Vec3) -> (r: u128)
    requires
        v.x > i64::MIN,
        v.y > i64::MIN,
        v.z > i64::MIN,
    ensures
        r == norm2_s(v),
{
    proof {
        lemma_norm2_nonneg(v);
        assert(abs_i(v.x as int) * abs_i(v.x as int) == (v.x as int) * (v.x as int))
            by (nonlinear_arith);
        assert(abs_i(v.y as int) * abs_i(v.y as int) == (v.y as int) * (v.y as int))
            by (nonlinear_arith);
        assert(abs_i(v.z as int) * abs_i(v.z as int) == (v.z as int) * (v.z as int))
            by (nonlinear_arith);
    }
    let ax = abs64(v.x);
    let ay = abs64(v.y);
    let az = abs64(v.z);
    proof {
        assert((ax as int) * (ax as int) <= 85070591730234615865843651857942052864)
            by (nonlinear_arith)
            requires
                0 <= ax <= i64::MAX,
        ;
        assert((ay as int) * (ay as int) <= 85070591730234615865843651857942052864)
            by (nonlinear_arith)
            requires
                0 <= ay <= i64::MAX,
        ;
        assert((az as int) * (az as int) <= 85070591730234615865843651857942052864)
            by (nonlinear_arith)
            requires
                0 <= az <= i64::MAX,
        ;
    }
    (ax as u128) * (ax as u128) + (ay as u128) * (ay as u128) + (az as u128) * (az as u128)
}

pub fn vnorm(v: Vec3) -> (r: i64)
    requires
        in_box(v, VEC_NORM_LIMIT as int),
    ensures
        r == norm_s(v),
        0 <= r,
        r * r <= norm2_s(v),
        norm2_s(v) < (r + 1) * (r + 1),
{
    proof {
        lemma_norm_le(v, VEC_NORM_LIMIT as int);
        assert(3 * (VEC_NORM_LIMIT as int) * (VEC_NORM_LIMIT as int) < ISQRT_ARG_MAX)
            by (nonlinear_arith);
        lemma_isqrt_s_bounds(norm2_s(v) as nat);
    }
    let n2 = norm2(v);
    let r = isqrt64(n2);
    r as i64
}

/// The unit vector along `v`: every coordinate of the result is at most
/// `SCALE` in magnitude, the norm never falls more than four sub-units
/// short of `SCALE`, and it overshoots by at most four sub-units
/// whenever `v` is at least a quarter unit long.
pub fn vnormalize(v: Vec3) -> (r: Vec3)
    requires
        in_box(v, VEC_NORM_LIMIT as int),
        norm2_s(v) > 0,
    ensures
        r == normalize_s(v),
        in_box(r, SCALE as int),
        norm_s(r) >= SCALE - 4,
        4 * norm_s(v) >= SCALE ==> norm_s(r) <= SCALE + 4,
        norm_s(v) >= SCALE ==> norm_s(r) <= SCALE,
{
    let n = vnorm(v);
    proof {
        if n == 0 {
            assert((n as int + 1) * (n as int + 1) == 1) by (nonlinear_arith)
                requires
                    n == 0,
            ;
            assert(norm2_s(v) < 1);
        }
        lemma_comp_le_norm(v);
        lemma_vmuldiv_bound(v, SCALE as int, n as int, n as int, SCALE as int);
        lemma_div_multiples_vanish(SCALE as int, n as int);
        assert(SCALE <= SCALE * (n as int)) by (nonlinear_arith)
            requires
                n >= 1,
        ;
        lemma_scaled_norm(v, SCALE as int, n as int, SCALE as int);
        if 4 * (n as int) >= SCALE {
            lemma_scaled_norm(v, SCALE as int, n as int, 4);
        }
    }
    vmuldiv(v, SCALE, n)
}

pub fn vdist2(a: Vec3, b: Vec3) -> (r: u128)
    requires
        in_box(a, VEC_NORM_LIMIT as int),
        in_box(b, VEC_NORM_LIMIT as int),
    ensures
        r == dist2_s(a, b),
{
    let d = vsub(b, a);
    norm2(d)
}

/// Squared distance does not depend on the order of its arguments.
pub proof fn lemma_dist2_symmetric(a: Vec3, b: Vec3)
    requires
        in_box(a, VEC_NORM_LIMIT as int),
        in_box(b, VEC_NORM_LIMIT as int),
    ensures
        dist2_s(a, b) == dist2_s(b, a),
{
    let d = vsub_s(b, a);
    let e = vsub_s(a, b);
    assert(d.x == -(e.x as int) && d.y == -(e.y as int) && d.z == -(e.z as int));
    assert((d.x as int) * (d.x as int) == (e.x as int) * (e.x as int)) by (nonlinear_arith)
        requires
            d.x == -(e.x as int),
    ;
    assert((d.y as int) * (d.y as int) == (e.y as int) * (e.y as int)) by (nonlinear_arith)
        requires
            d.y == -(e.y as int),
    ;
    assert((d.z as int) * (d.z as int) == (e.z as int) * (e.z as int)) by (nonlinear_arith)
        requires
            d.z == -(e.z as int),
    ;
}

/// Spherical-linear interpolation of unit vectors. `t` ranges over
/// `[0, SCALE]`; `0` returns `u` and `SCALE` returns `v` exactly.
pub fn vslerp(u: Vec3, v: Vec3, t: i64) -> (r: Vec3)
    requires
        in_box(u, SCALE as int),
        in_box(v, SCALE as int),
        0 <= t <= SCALE,
    ensures
        r == slerp_s(u, v, t as int),
        in_box(r, SCALE as int),
        t == 0 ==> r == u,
        t == SCALE ==> r == v,
{
    if t == 0 {
        return u;
    }
    if t == SCALE {
        return v;
    }
    proof {
        lemma_vmuldiv_bound(u, (SCALE - t) as int, SCALE as int, SCALE as int, SCALE as int);
        lemma_vmuldiv_bound(v, t as int, SCALE as int, SCALE as int, SCALE as int);
        lemma_div_multiples_vanish(SCALE as int, SCALE as int);
    }
    let wu = vmuldiv(u, SCALE - t, SCALE);
    let wv = vmuldiv(v, t, SCALE);
    let w = vadd(wu, wv);
    let n2 = norm2(w);
    if n2 == 0 {
        u
    } else {
        vnormalize(w)
    }
}

/// One coordinate scaled by `s / r`, rounding toward zero: its
/// magnitude is the floored scaled magnitude, at most `s`.
proof fn lemma_scaled_comp(a: int, s: int, r: int)
    requires
        1 <= r,
        0 <= s,
        abs_i(a) <= r,
    ensures
        abs_i(mul_div_s(a, s, r)) == (abs_i(a) * s) / r,
        abs_i(mul_div_s(a, s, r)) <= s,
        abs_i(mul_div_s(a, s, r)) * r <= abs_i(a) * s,
        abs_i(a) * s < abs_i(mul_div_s(a, s, r)) * r + r,
{
    let b = abs_i(a);
    let m = b * s;
    assert(m >= 0) by (nonlinear_arith)
        requires
            b >= 0,
            s >= 0,
            m == b * s,
    ;
    assert(m <= r * s) by (nonlinear_arith)
        requires
            0 <= b <= r,
            s >= 0,
            m == b * s,
    ;
    if a >= 0 {
        assert(a * s == m) by (nonlinear_arith)
            requires
                b == a,
                m == b * s,
        ;
        vstd::arithmetic::div_mod::lemma_div_pos_is_pos(m, r);
    } else {
        assert(b == -a);
        assert(a * s == -m) by (nonlinear_arith)
            requires
                b == -a,
                m == b * s,
        ;
        vstd::arithmetic::div_mod::lemma_div_pos_is_pos(m, r);
        if a * s == 0 {
            vstd::arithmetic::div_mod::lemma_div_of0(r);
        }
    }
    let q = m / r;
    vstd::arithmetic::div_mod::lemma_fundamental_div_mod(m, r);
    vstd::arithmetic::div_mod::lemma_mod_bound(m, r);
    assert(q * r <= m && m < q * r + r);
    assert(q <= s) by (nonlinear_arith)
        requires
            q * r <= m,
            m <= r * s,
            r >= 1,
            q >= 0,
    ;
}

/// The norm of a vector rescaled by `s / r`, where `r` is its own norm,
/// lands within a few units of `s`: at most `s` when scaling down, at
/// most `s + c` whenever `s <= c * r`, and at least `s - 4` for
/// `s >= 8`.
pub proof fn lemma_scaled_norm(v: Vec3, s: int, r: int, c: int)
    requires
        in_box(v, VEC_NORM_LIMIT as int),
        r == norm_s(v),
        1 <= r,
        0 <= s <= SPEED_LIMIT,
        1 <= c,
        s <= c * r,
    ensures
        s <= r ==> norm_s(vmuldiv_s(v, s, r)) <= s,
        norm_s(vmuldiv_s(v, s, r)) <= s + c,
        s >= 8 ==> norm_s(vmuldiv_s(v, s, r)) >= s - 4,
{
    let n2 = norm2_s(v);
    lemma_norm2_nonneg(v);
    lemma_isqrt_s_bounds(n2 as nat);
    lemma_comp_le_norm(v);
    if s == 0 {
        assert((v.x as int) * 0 == 0);
        assert((v.y as int) * 0 == 0);
        assert((v.z as int) * 0 == 0);
        vstd::arithmetic::div_mod::lemma_div_of0(r);
        let w = vmuldiv_s(v, 0, r);
        assert(w.x == 0 && w.y == 0 && w.z == 0);
        assert(norm2_s(w) == 0) by (nonlinear_arith)
            requires
                w.x == 0 && w.y == 0 && w.z == 0,
        ;
        assert(isqrt_s(0) == 0);
        return;
    }
    let ax = abs_i(v.x as int);
    let ay = abs_i(v.y as int);
    let az = abs_i(v.z as int);
    lemma_scaled_comp(v.x as int, s, r);
    lemma_scaled_comp(v.y as int, s, r);
    lemma_scaled_comp(v.z as int, s, r);
    let qx = abs_i(mul_div_s(v.x as int, s, r));
    let qy = abs_i(mul_div_s(v.y as int, s, r));
    let qz = abs_i(mul_div_s(v.z as int, s, r));
    let w = vmuldiv_s(v, s, r);
    assert(w.x as int == mul_div_s(v.x as int, s, r) && w.y as int == mul_div_s(v.y as int, s, r)
        && w.z as int == mul_div_s(v.z as int, s, r));
    let w2 = norm2_s(w);
    assert(w2 == qx * qx + qy * qy + qz * qz) by (nonlinear_arith)
        requires
            qx == abs_i(w.x as int),
            qy == abs_i(w.y as int),
            qz == abs_i(w.z as int),
            w2 == (w.x as int) * (w.x as int) + (w.y as int) * (w.y as int) + (w.z as int) * (
            w.z as int),
    ;
    assert(n2 == ax * ax + ay * ay + az * az) by (nonlinear_arith)
        requires
            ax == abs_i(v.x as int),
            ay == abs_i(v.y as int),
            az == abs_i(v.z as int),
            n2 == (v.x as int) * (v.x as int) + (v.y as int) * (v.y as int) + (v.z as int) * (
            v.z as int),
    ;

    // Per-coordinate bounds on the scaled squares.
    assert((qx * qx) * (r * r) <= (s * s) * (ax * ax)) by (nonlinear_arith)
        requires
            0 <= qx,
            0 <= r,
            0 <= ax,
            0 <= s,
            qx * r <= ax * s,
    ;
    assert((qy * qy) * (r * r) <= (s * s) * (ay * ay)) by (nonlinear_arith)
        requires
            0 <= qy,
            0 <= r,
            0 <= ay,
            0 <= s,
            qy * r <= ay * s,
    ;
    assert((qz * qz) * (r * r) <= (s * s) * (az * az)) by (nonlinear_arith)
        requires
            0 <= qz,
            0 <= r,
            0 <= az,
            0 <= s,
            qz * r <= az * s,
    ;
    assert((qx * qx) * (r * r) >= (s * s) * (ax * ax) - 2 * ((r * s) * ax)) by (nonlinear_arith)
        requires
            0 <= qx,
            1 <= r,
            0 <= ax,
            0 <= s,
            ax * s < qx * r + r,
    ;
    assert((qy * qy) * (r * r) >= (s * s) * (ay * ay) - 2 * ((r * s) * ay)) by (nonlinear_arith)
        requires
            0 <= qy,
            1 <= r,
            0 <= ay,
            0 <= s,
            ay * s < qy * r + r,
    ;
    assert((qz * qz) * (r * r) >= (s * s) * (az * az) - 2 * ((r * s) * az)) by (nonlinear_arith)
        requires
            0 <= qz,
            1 <= r,
            0 <= az,
            0 <= s,
            az * s < qz * r + r,
    ;

    // Distribute the sums, then add the per-coordinate bounds.
    vstd::arithmetic::mul::lemma_mul_is_distributive_add_other_way(r * r, qx * qx + qy * qy,
        qz * qz);
    vstd::arithmetic::mul::lemma_mul_is_distributive_add_other_way(r * r, qx * qx, qy * qy);
    vstd::arithmetic::mul::lemma_mul_is_distributive_add(s * s, ax * ax + ay * ay, az * az);
    vstd::arithmetic::mul::lemma_mul_is_distributive_add(s * s, ax * ax, ay * ay);
    vstd::arithmetic::mul::lemma_mul_is_distributive_add(r * s, ax + ay, az);
    vstd::arithmetic::mul::lemma_mul_is_distributive_add(r * s, ax, ay);
    assert(w2 * (r * r) == (qx * qx) * (r * r) + (qy * qy) * (r * r) + (qz * qz) * (r * r));
    assert((s * s) * n2 == (s * s) * (ax * ax) + (s * s) * (ay * ay) + (s * s) * (az * az));
    assert((r * s) * (ax + ay + az) == (r * s) * ax + (r * s) * ay + (r * s) * az);
    assert(w2 * (r * r) <= (s * s) * n2);
    assert(w2 * (r * r) >= (s * s) * n2 - 2 * ((r * s) * (ax + ay + az)));

    // The components are bounded by the norm, and the norm squares
    // bracket `n2`.
    assert(r * r <= n2 && n2 < (r + 1) * (r + 1));
    assert(ax <= r && ay <= r && az <= r);

    if s <= r {
        assert((s * s) * n2 < ((s + 1) * (s + 1)) * (r * r)) by (nonlinear_arith)
            requires
                n2 < (r + 1) * (r + 1),
                1 <= s <= r,
        ;
        assert(w2 < (s + 1) * (s + 1)) by (nonlinear_arith)
            requires
                w2 * (r * r) <= (s * s) * n2,
                (s * s) * n2 < ((s + 1) * (s + 1)) * (r * r),
                1 <= r,
        ;
        assert(norm_s(w) <= s) by {
            lemma_isqrt_s_bounds(w2 as nat);
            if norm_s(w) > s {
                assert((s + 1) * (s + 1) <= isqrt_s(w2 as nat) * isqrt_s(w2 as nat))
                    by (nonlinear_arith)
                    requires
                        s + 1 <= isqrt_s(w2 as nat),
                        s >= 0,
                ;
            }
        }
    }

    // Scaling overshoots the target by at most the slack `c`.
    assert(s * (r + 1) <= (s + c) * r) by (nonlinear_arith)
        requires
            s <= c * r,
            0 <= s,
            1 <= r,
    ;
    assert((s * s) * n2 < ((s + c) * (s + c)) * (r * r)) by (nonlinear_arith)
        requires
            n2 < (r + 1) * (r + 1),
            0 <= s,
            1 <= r,
            1 <= c,
            s * (r + 1) <= (s + c) * r,
    ;
    assert(w2 < (s + c) * (s + c)) by (nonlinear_arith)
        requires
            w2 * (r * r) <= (s * s) * n2,
            (s * s) * n2 < ((s + c) * (s + c)) * (r * r),
            1 <= r,
    ;
    assert(norm_s(w) <= s + c) by {
        lemma_isqrt_s_bounds(w2 as nat);
        if norm_s(w) > s + c {
            assert((s + c + 1) * (s + c + 1) <= isqrt_s(w2 as nat) * isqrt_s(w2 as nat))
                by (nonlinear_arith)
                requires
                    s + c + 1 <= isqrt_s(w2 as nat),
                    s + c >= 0,
            ;
            assert((s + c) * (s + c) < (s + c + 1) * (s + c + 1)) by (nonlinear_arith)
                requires
                    s + c >= 0,
            ;
        }
    }

    // The lower bound: `w2 >= s^2 - 6 s`, so the norm is at least
    // `s - 4`.
    if s >= 8 {
        assert(w2 * (r * r) >= ((s * s) - 6 * s) * (r * r)) by (nonlinear_arith)
            requires
                w2 * (r * r) >= (s * s) * n2 - 2 * ((r * s) * (ax + ay + az)),
                n2 >= r * r,
                ax <= r,
                ay <= r,
                az <= r,
                0 <= ax,
                0 <= ay,
                0 <= az,
                1 <= r,
                0 <= s,
        ;
        assert(w2 >= (s * s) - 6 * s) by (nonlinear_arith)
            requires
                w2 * (r * r) >= ((s * s) - 6 * s) * (r * r),
                1 <= r,
        ;
        assert((s - 4) * (s - 4) <= w2) by (nonlinear_arith)
            requires
                w2 >= (s * s) - 6 * s,
                s >= 8,
        ;
        lemma_le_isqrt(w2 as nat, (s - 4) as nat);
    }
}

} // verus!
