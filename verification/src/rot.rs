//! The shortest-arc rotation between two unit directions, as a unit
//! quaternion: what the render adapter applies to point a mesh along an
//! agent's velocity.
//!
//! For antiparallel directions the arc is ambiguous; the tie-break here
//! is a half-turn about the first axis.

use vstd::prelude::*;

verus! {

use crate::math::{
    abs_i, abs64, isqrt_s, isqrt64, lemma_isqrt_s_bounds, lemma_isqrt_unique, lemma_le_isqrt,
    lemma_mul_div_s_bound, mul_div, mul_div_s, SCALE,
};
use crate::vec3::{in_box, Vec3};
use vstd::arithmetic::div_mod::lemma_div_multiples_vanish;

/// One squared unit: the scale of a dot product of two unit vectors.
pub const SCALE_SQ: i64 = 1_000_000_000_000;

/// A rotation, stored as quaternion coordinates in `SCALE` sub-units.
#[derive(Clone, Copy, PartialEq, Eq, Structural, Debug)]
pub struct Quat {
    pub w: i64,
    pub x: i64,
    pub y: i64,
    pub z: i64,
}

/// All four coordinates have magnitude at most `lim`.
pub open spec fn q_in_box(q: Quat, lim: int) -> bool {
    abs_i(q.w as int) <= lim && abs_i(q.x as int) <= lim && abs_i(q.y as int) <= lim && abs_i(
        q.z as int,
    ) <= lim
}

/// The dot product of two vectors, in `SCALE_SQ` sub-units.
pub open spec fn dot_s(a: Vec3, b: Vec3) -> int {
    (a.x as int) * (b.x as int) + (a.y as int) * (b.y as int) + (a.z as int) * (b.z as int)
}

/// The cross product of two vectors, in `SCALE_SQ` sub-units.
pub open spec fn cross_s(a: Vec3, b: Vec3) -> Vec3 {
    Vec3 {
        x: ((a.y as int) * (b.z as int) - (a.z as int) * (b.y as int)) as i64,
        y: ((a.z as int) * (b.x as int) - (a.x as int) * (b.z as int)) as i64,
        z: ((a.x as int) * (b.y as int) - (a.y as int) * (b.x as int)) as i64,
    }
}

pub open spec fn qnorm2_s(q: Quat) -> int {
    (q.w as int) * (q.w as int) + (q.x as int) * (q.x as int) + (q.y as int) * (q.y as int) + (
    q.z as int) * (q.z as int)
}

pub open spec fn qnorm_s(q: Quat) -> int {
    isqrt_s(qnorm2_s(q) as nat) as int
}

/// The quaternion rescaled to unit length at `SCALE`.
pub open spec fn qnormalize_s(q: Quat) -> Quat {
    let n = qnorm_s(q);
    Quat {
        w: mul_div_s(q.w as int, SCALE as int, n) as i64,
        x: mul_div_s(q.x as int, SCALE as int, n) as i64,
        y: mul_div_s(q.y as int, SCALE as int, n) as i64,
        z: mul_div_s(q.z as int, SCALE as int, n) as i64,
    }
}

/// The shortest-arc rotation from direction `a` to direction `b`: the
/// normalized quaternion with scalar part one unit plus the cosine and
/// vector part the cross product. Antiparallel directions cancel the
/// raw quaternion to zero, and the tie-break is the half-turn about the
/// first axis.
pub open spec fn rotation_between_s(a: Vec3, b: Vec3) -> Quat {
    let d = dot_s(a, b);
    let c = cross_s(a, b);
    let q = Quat {
        w: mul_div_s(SCALE_SQ + d, 1, SCALE as int) as i64,
        x: mul_div_s(c.x as int, 1, SCALE as int) as i64,
        y: mul_div_s(c.y as int, 1, SCALE as int) as i64,
        z: mul_div_s(c.z as int, 1, SCALE as int) as i64,
    };
    if qnorm2_s(q) == 0 {
        Quat { w: 0i64, x: SCALE, y: 0i64, z: 0i64 }
    } else {
        qnormalize_s(q)
    }
}

/// No quaternion coordinate magnitude exceeds the quaternion norm.
proof fn lemma_qcomp_le_norm(q: Quat)
    ensures
        abs_i(q.w as int) <= qnorm_s(q),
        abs_i(q.x as int) <= qnorm_s(q),
        abs_i(q.y as int) <= qnorm_s(q),
        abs_i(q.z as int) <= qnorm_s(q),
        qnorm2_s(q) >= 0,
{
    assert((q.w as int) * (q.w as int) >= 0) by (nonlinear_arith);
    assert((q.x as int) * (q.x as int) >= 0) by (nonlinear_arith);
    assert((q.y as int) * (q.y as int) >= 0) by (nonlinear_arith);
    assert((q.z as int) * (q.z as int) >= 0) by (nonlinear_arith);
    assert(abs_i(q.w as int) * abs_i(q.w as int) == (q.w as int) * (q.w as int))
        by (nonlinear_arith);
    assert(abs_i(q.x as int) * abs_i(q.x as int) == (q.x as int) * (q.x as int))
        by (nonlinear_arith);
    assert(abs_i(q.y as int) * abs_i(q.y as int) == (q.y as int) * (q.y as int))
        by (nonlinear_arith);
    assert(abs_i(q.z as int) * abs_i(q.z as int) == (q.z as int) * (q.z as int))
        by (nonlinear_arith);
    let n2 = qnorm2_s(q) as nat;
    lemma_le_isqrt(n2, abs_i(q.w as int) as nat);
    lemma_le_isqrt(n2, abs_i(q.x as int) as nat);
    lemma_le_isqrt(n2, abs_i(q.y as int) as nat);
    lemma_le_isqrt(n2, abs_i(q.z as int) as nat);
}

/// One signed product of two direction coordinates, exact in 64 bits.
fn dir_prod(a: i64, b: i64) -> (r: i64)
    requires
        abs_i(a as int) <= 2 * SCALE,
        abs_i(b as int) <= 2 * SCALE,
    ensures
        r == (a as int) * (b as int),
        abs_i(r as int) <= 4 * SCALE_SQ,
{
    proof {
        assert(abs_i((a as int) * (b as int)) <= 4 * SCALE_SQ) by (nonlinear_arith)
            requires
                abs_i(a as int) <= 2 * SCALE,
                abs_i(b as int) <= 2 * SCALE,
                SCALE == 1_000_000,
                SCALE_SQ == 1_000_000_000_000,
        ;
    }
    let p: i128 = (a as i128) * (b as i128);
    p as i64
}

/// The shortest-arc rotation from `a` to `b`, both unit directions up
/// to the fixed-point slack. Equal directions give the identity
/// rotation; antiparallel ones give the documented half-turn about the
/// first axis.
pub fn rotation_between(a: Vec3, b: Vec3) -> (r: Quat)
    requires
        in_box(a, 2 * SCALE as int),
        in_box(b, 2 * SCALE as int),
    ensures
        r == rotation_between_s(a, b),
        q_in_box(r, SCALE as int),
{
    let dxx = dir_prod(a.x, b.x);
    let dyy = dir_prod(a.y, b.y);
    let dzz = dir_prod(a.z, b.z);
    let d = dxx + dyy + dzz;
    let cx = dir_prod(a.y, b.z) - dir_prod(a.z, b.y);
    let cy = dir_prod(a.z, b.x) - dir_prod(a.x, b.z);
    let cz = dir_prod(a.x, b.y) - dir_prod(a.y, b.x);
    proof {
        lemma_mul_div_s_bound(SCALE_SQ + d, 1, SCALE as int, 13 * SCALE_SQ as int, 1);
        lemma_mul_div_s_bound(cx as int, 1, SCALE as int, 13 * SCALE_SQ as int, 1);
        lemma_mul_div_s_bound(cy as int, 1, SCALE as int, 13 * SCALE_SQ as int, 1);
        lemma_mul_div_s_bound(cz as int, 1, SCALE as int, 13 * SCALE_SQ as int, 1);
    }
    let q = Quat {
        w: mul_div(SCALE_SQ + d, 1, SCALE),
        x: mul_div(cx, 1, SCALE),
        y: mul_div(cy, 1, SCALE),
        z: mul_div(cz, 1, SCALE),
    };
    let n2 = qnorm2(q);
    if n2 == 0 {
        Quat { w: 0, x: SCALE, y: 0, z: 0 }
    } else {
        proof {
            lemma_qcomp_le_norm(q);
            lemma_isqrt_s_bounds(qnorm2_s(q) as nat);
            if qnorm_s(q) == 0 {
                assert((0int + 1) * (0int + 1) == 1) by (nonlinear_arith);
                assert(qnorm2_s(q) < 1);
            }
        }
        let nu = isqrt64(n2);
        proof {
            assert(nu < 9223372036854775808u64) by (nonlinear_arith)
                requires
                    (nu as int) * (nu as int) <= n2,
                    n2 < crate::math::ISQRT_ARG_MAX,
                    crate::math::ISQRT_ARG_MAX
                        == 85070591730234615865843651857942052864u128,
            ;
        }
        let n = nu as i64;
        proof {
            lemma_mul_div_s_bound(q.w as int, SCALE as int, n as int, n as int, SCALE as int);
            lemma_mul_div_s_bound(q.x as int, SCALE as int, n as int, n as int, SCALE as int);
            lemma_mul_div_s_bound(q.y as int, SCALE as int, n as int, n as int, SCALE as int);
            lemma_mul_div_s_bound(q.z as int, SCALE as int, n as int, n as int, SCALE as int);
            lemma_div_multiples_vanish(SCALE as int, n as int);
        }
        Quat {
            w: mul_div(q.w, SCALE, n),
            x: mul_div(q.x, SCALE, n),
            y: mul_div(q.y, SCALE, n),
            z: mul_div(q.z, SCALE, n),
        }
    }
}

/// The squared quaternion norm, exact.
fn qnorm2(q: Quat) -> (r: u128)
    requires
        q_in_box(q, 13 * SCALE_SQ as int),
    ensures
        r == qnorm2_s(q),
        r < crate::math::ISQRT_ARG_MAX,
{
    let aw = abs64(q.w);
    let ax = abs64(q.x);
    let ay = abs64(q.y);
    let az = abs64(q.z);
    proof {
        lemma_qcomp_le_norm(q);
        assert(abs_i(q.w as int) * abs_i(q.w as int) == (q.w as int) * (q.w as int))
            by (nonlinear_arith);
        assert(abs_i(q.x as int) * abs_i(q.x as int) == (q.x as int) * (q.x as int))
            by (nonlinear_arith);
        assert(abs_i(q.y as int) * abs_i(q.y as int) == (q.y as int) * (q.y as int))
            by (nonlinear_arith);
        assert(abs_i(q.z as int) * abs_i(q.z as int) == (q.z as int) * (q.z as int))
            by (nonlinear_arith);
        assert((aw as int) * (aw as int) + (ax as int) * (ax as int) + (ay as int) * (ay as int)
            + (az as int) * (az as int) < crate::math::ISQRT_ARG_MAX) by (nonlinear_arith)
            requires
                0 <= aw <= 13 * SCALE_SQ,
                0 <= ax <= 13 * SCALE_SQ,
                0 <= ay <= 13 * SCALE_SQ,
                0 <= az <= 13 * SCALE_SQ,
                SCALE_SQ == 1_000_000_000_000,
        ;
    }
    (aw as u128) * (aw as u128) + (ax as u128) * (ax as u128) + (ay as u128) * (ay as u128) + (
    az as u128) * (az as u128)
}

/// The rotation from a direction to itself is the identity quaternion.
pub proof fn lemma_rotation_identity(a: Vec3)
    requires
        in_box(a, 2 * SCALE as int),
        crate::vec3::norm2_s(a) >= 1,
    ensures
        rotation_between_s(a, a) == (Quat { w: SCALE, x: 0i64, y: 0i64, z: 0i64 }),
{
    let d = dot_s(a, a);
    let c = cross_s(a, a);
    assert(c.x == 0 && c.y == 0 && c.z == 0);
    assert(d == crate::vec3::norm2_s(a));
    assert(d >= 1);
    assert(abs_i(d) <= 12 * SCALE_SQ) by (nonlinear_arith)
        requires
            abs_i(a.x as int) <= 2 * SCALE,
            abs_i(a.y as int) <= 2 * SCALE,
            abs_i(a.z as int) <= 2 * SCALE,
            d == (a.x as int) * (a.x as int) + (a.y as int) * (a.y as int) + (a.z as int) * (
            a.z as int),
    ;
    let wr = SCALE_SQ + d;
    assert(mul_div_s(wr, 1, SCALE as int) == wr / (SCALE as int)) by {
        assert(wr * 1 == wr) by (nonlinear_arith);
        vstd::arithmetic::div_mod::lemma_div_pos_is_pos(wr, SCALE as int);
    }
    assert(mul_div_s(0, 1, SCALE as int) == 0) by {
        assert(0int * 1 == 0) by (nonlinear_arith);
        vstd::arithmetic::div_mod::lemma_div_of0(SCALE as int);
    }
    let w0 = wr / (SCALE as int);
    vstd::arithmetic::div_mod::lemma_div_pos_is_pos(wr, SCALE as int);
    assert(w0 >= 1) by {
        vstd::arithmetic::div_mod::lemma_div_is_ordered(SCALE as int, wr, SCALE as int);
        lemma_div_multiples_vanish(1, SCALE as int);
        assert((SCALE as int) * 1 == SCALE as int) by (nonlinear_arith);
    }
    vstd::arithmetic::div_mod::lemma_div_is_ordered(wr, 13 * SCALE_SQ as int, SCALE as int);
    let q = Quat { w: w0 as i64, x: 0i64, y: 0i64, z: 0i64 };
    assert(qnorm2_s(q) == w0 * w0) by (nonlinear_arith)
        requires
            q.w == w0,
            q.x == 0 && q.y == 0 && q.z == 0,
            1 <= w0 <= 13 * SCALE_SQ,
    ;
    assert(qnorm2_s(q) > 0) by (nonlinear_arith)
        requires
            qnorm2_s(q) == w0 * w0,
            w0 >= 1,
    ;
    assert(w0 * w0 < (w0 + 1) * (w0 + 1)) by (nonlinear_arith)
        requires
            w0 >= 1,
    ;
    lemma_isqrt_unique((w0 * w0) as nat, w0 as nat);
    assert(qnorm_s(q) == w0);
    assert(mul_div_s(w0, SCALE as int, w0) == SCALE) by {
        crate::math::lemma_mul_div_s_bound(w0, SCALE as int, w0, w0, SCALE as int);
        lemma_div_multiples_vanish(SCALE as int, w0);
        assert(w0 * (SCALE as int) >= 0) by (nonlinear_arith)
            requires
                w0 >= 1,
        ;
        assert(mul_div_s(w0, SCALE as int, w0) == (w0 * (SCALE as int)) / w0);
    }
}

} // verus!
