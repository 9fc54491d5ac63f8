//! The static distribution scenes: they only place points, to show a
//! sampling distribution. The host draws one small sphere per point.

use vstd::prelude::*;

verus! {

use crate::gen::{sample_ball, sample_unit};
use crate::math::{
    lemma_mul_div_s_bound, lemma_mul_div_s_neg, lemma_mul_div_s_nonneg, mul_div, mul_div_s, SCALE,
};
use crate::rng::{rng_below, rng_sym};
use crate::vec3::{in_box, lemma_vmuldiv_bound, norm2, norm2_s, vmuldiv, vnormalize, Vec3};
use vstd::arithmetic::div_mod::lemma_div_multiples_vanish;

/// Number of points each demonstration scene places.
pub const DEMO_POINTS: usize = 1000;

/// Half-side of the cube scene (`0.25` world units).
pub const CUBE_HALF: i64 = 250_000;

/// Radius of the sphere and disk scenes (`0.5` world units).
pub const DEMO_RADIUS: i64 = 500_000;

/// The scene that shows a single agent mesh and places no points.
pub struct BoidSim();

impl BoidSim {
    pub fn init() -> (r: Self) {
        BoidSim()
    }
}

/// Points uniform in a cube.
pub struct CubeSim {
    pub points: Vec<Vec3>,
}

impl CubeSim {
    pub fn init(rng: &mut rand::rngs::StdRng) -> (r: Self)
        ensures
            r.points@.len() == DEMO_POINTS,
            forall|k: int|
                0 <= k < r.points@.len() ==> in_box(#[trigger] r.points@[k], CUBE_HALF as int),
    {
        let mut points: Vec<Vec3> = Vec::new();
        let mut i: usize = 0;
        while i < DEMO_POINTS
            invariant
                i <= DEMO_POINTS,
                points@.len() == i,
                forall|k: int|
                    0 <= k < points@.len() ==> in_box(#[trigger] points@[k], CUBE_HALF as int),
            decreases DEMO_POINTS - i,
        {
            let x = rng_sym(rng, CUBE_HALF);
            let y = rng_sym(rng, CUBE_HALF);
            let z = rng_sym(rng, CUBE_HALF);
            points.push(Vec3 { x, y, z });
            i += 1;
        }
        CubeSim { points }
    }
}

/// Points uniform in a ball.
pub struct SphereSim {
    pub points: Vec<Vec3>,
}

impl SphereSim {
    pub fn init(rng: &mut rand::rngs::StdRng) -> (r: Self)
        ensures
            r.points@.len() == DEMO_POINTS,
            forall|k: int|
                0 <= k < r.points@.len() ==> norm2_s(#[trigger] r.points@[k]) <= (
                DEMO_RADIUS as int) * (DEMO_RADIUS as int),
    {
        let mut points: Vec<Vec3> = Vec::new();
        let mut i: usize = 0;
        while i < DEMO_POINTS
            invariant
                i <= DEMO_POINTS,
                points@.len() == i,
                forall|k: int|
                    0 <= k < points@.len() ==> norm2_s(#[trigger] points@[k]) <= (
                    DEMO_RADIUS as int) * (DEMO_RADIUS as int),
            decreases DEMO_POINTS - i,
        {
            let p = sample_ball(rng, DEMO_RADIUS);
            points.push(p);
            i += 1;
        }
        SphereSim { points }
    }
}

/// A point at distance at most `radius`, with a radius drawn linearly
/// (so the cloud is denser near the center) and a direction drawn by
/// normalizing a nonzero ball sample.
fn biased_radius_point(rng: &mut rand::rngs::StdRng, radius: i64, dir: Vec3) -> (r: Vec3)
    requires
        0 < radius <= DEMO_RADIUS,
        in_box(dir, SCALE as int),
    ensures
        in_box(r, radius as int),
{
    let u = rng_below(rng, (SCALE as u64) + 1) as i64;
    proof {
        lemma_mul_div_s_bound(radius as int, u as int, SCALE as int, radius as int, SCALE as int);
        lemma_div_multiples_vanish(radius as int, SCALE as int);
        lemma_mul_div_s_nonneg(radius as int, u as int, SCALE as int);
    }
    let rr = mul_div(radius, u, SCALE);
    proof {
        lemma_vmuldiv_bound(dir, rr as int, SCALE as int, SCALE as int, radius as int);
        lemma_div_multiples_vanish(radius as int, SCALE as int);
    }
    vmuldiv(dir, rr, SCALE)
}

/// Points with a linearly drawn radius and a direction taken from a
/// cube sample without rejection, so the cloud is denser both near the
/// center and toward the cube's corners.
pub struct SphereBiased1Sim {
    pub points: Vec<Vec3>,
}

impl SphereBiased1Sim {
    pub fn init(rng: &mut rand::rngs::StdRng) -> (r: Self)
        ensures
            r.points@.len() == DEMO_POINTS,
            forall|k: int|
                0 <= k < r.points@.len() ==> in_box(#[trigger] r.points@[k], DEMO_RADIUS as int),
    {
        let mut points: Vec<Vec3> = Vec::new();
        let mut i: usize = 0;
        while i < DEMO_POINTS
            invariant
                i <= DEMO_POINTS,
                points@.len() == i,
                forall|k: int|
                    0 <= k < points@.len() ==> in_box(#[trigger] points@[k], DEMO_RADIUS as int),
            decreases DEMO_POINTS - i,
        {
            let q = Vec3 {
                x: rng_sym(rng, SCALE / 2),
                y: rng_sym(rng, SCALE / 2),
                z: rng_sym(rng, SCALE / 2),
            };
            let n2 = norm2(q);
            let dir = if n2 > 0 {
                vnormalize(q)
            } else {
                Vec3 { x: SCALE, y: 0, z: 0 }
            };
            let p = biased_radius_point(rng, DEMO_RADIUS, dir);
            points.push(p);
            i += 1;
        }
        SphereBiased1Sim { points }
    }
}

/// Points with a linearly drawn radius and a uniform direction, so the
/// cloud is denser near the center only.
pub struct SphereBiased2Sim {
    pub points: Vec<Vec3>,
}

impl SphereBiased2Sim {
    pub fn init(rng: &mut rand::rngs::StdRng) -> (r: Self)
        ensures
            r.points@.len() == DEMO_POINTS,
            forall|k: int|
                0 <= k < r.points@.len() ==> in_box(#[trigger] r.points@[k], DEMO_RADIUS as int),
    {
        let mut points: Vec<Vec3> = Vec::new();
        let mut i: usize = 0;
        while i < DEMO_POINTS
            invariant
                i <= DEMO_POINTS,
                points@.len() == i,
                forall|k: int|
                    0 <= k < points@.len() ==> in_box(#[trigger] points@[k], DEMO_RADIUS as int),
            decreases DEMO_POINTS - i,
        {
            let dir = sample_unit(rng);
            let p = biased_radius_point(rng, DEMO_RADIUS, dir);
            points.push(p);
            i += 1;
        }
        SphereBiased2Sim { points }
    }
}

/// The planar comparison scene: one batch uniform in the upper half
/// disk, one batch radius-biased in the lower half disk, all in the
/// `z = 0` plane.
pub struct DistributionSim {
    pub upper: Vec<Vec3>,
    pub lower: Vec<Vec3>,
}

/// A point uniform in the upper half disk, by rejection; the center is
/// returned after a bounded number of rejections.
fn sample_half_disk(rng: &mut rand::rngs::StdRng, radius: i64) -> (r: Vec3)
    requires
        0 < radius <= DEMO_RADIUS,
    ensures
        in_box(r, radius as int),
        r.y >= 0,
        r.z == 0,
{
    proof {
        assert(0 <= (radius as int) * (radius as int) <= (DEMO_RADIUS as int) * (
        DEMO_RADIUS as int)) by (nonlinear_arith)
            requires
                0 < radius <= DEMO_RADIUS,
        ;
    }
    let limit: u128 = (radius as u128) * (radius as u128);
    let mut tries: usize = 0;
    while tries < 64
        invariant
            0 < radius <= DEMO_RADIUS,
            limit == (radius as int) * (radius as int),
        decreases 64 - tries,
    {
        let x = rng_sym(rng, radius);
        let yraw = rng_sym(rng, radius);
        let y = if yraw >= 0 {
            yraw
        } else {
            -yraw
        };
        let q = Vec3 { x, y, z: 0 };
        let n2 = norm2(q);
        if n2 <= limit {
            proof {
                crate::vec3::lemma_comp_le_norm(q);
            }
            return q;
        }
        tries += 1;
    }
    Vec3 { x: 0, y: 0, z: 0 }
}

impl DistributionSim {
    pub fn init(rng: &mut rand::rngs::StdRng) -> (r: Self)
        ensures
            r.upper@.len() == DEMO_POINTS,
            r.lower@.len() == DEMO_POINTS,
            forall|k: int|
                0 <= k < r.upper@.len() ==> in_box(#[trigger] r.upper@[k], DEMO_RADIUS as int)
                    && r.upper@[k].y >= 0 && r.upper@[k].z == 0,
            forall|k: int|
                0 <= k < r.lower@.len() ==> in_box(#[trigger] r.lower@[k], DEMO_RADIUS as int)
                    && r.lower@[k].z == 0,
    {
        let mut upper: Vec<Vec3> = Vec::new();
        let mut i: usize = 0;
        while i < DEMO_POINTS
            invariant
                i <= DEMO_POINTS,
                upper@.len() == i,
                forall|k: int|
                    0 <= k < upper@.len() ==> in_box(#[trigger] upper@[k], DEMO_RADIUS as int)
                        && upper@[k].y >= 0 && upper@[k].z == 0,
            decreases DEMO_POINTS - i,
        {
            let p = sample_half_disk(rng, DEMO_RADIUS);
            upper.push(p);
            i += 1;
        }
        let mut lower: Vec<Vec3> = Vec::new();
        let mut j: usize = 0;
        while j < DEMO_POINTS
            invariant
                j <= DEMO_POINTS,
                lower@.len() == j,
                forall|k: int|
                    0 <= k < lower@.len() ==> in_box(#[trigger] lower@[k], DEMO_RADIUS as int)
                        && lower@[k].z == 0,
            decreases DEMO_POINTS - j,
        {
            let h = sample_half_disk(rng, DEMO_RADIUS);
            let dir = Vec3 { x: h.x, y: if h.y > 0 {
                -h.y
            } else {
                h.y
            }, z: 0 };
            proof {
                assert(in_box(dir, DEMO_RADIUS as int));
            }
            let scaled = biased_radius_point_dirbox(rng, DEMO_RADIUS, dir);
            lower.push(scaled);
            j += 1;
        }
        DistributionSim { upper, lower }
    }
}

/// Like `biased_radius_point`, for a direction given at the demo radius
/// instead of unit length: the result stays inside the radius box.
fn biased_radius_point_dirbox(rng: &mut rand::rngs::StdRng, radius: i64, dir: Vec3) -> (r: Vec3)
    requires
        0 < radius <= DEMO_RADIUS,
        in_box(dir, radius as int),
    ensures
        in_box(r, radius as int),
        dir.z == 0 ==> r.z == 0,
{
    let u = rng_below(rng, (SCALE as u64) + 1) as i64;
    proof {
        lemma_vmuldiv_bound(dir, u as int, SCALE as int, radius as int, SCALE as int);
        lemma_div_multiples_vanish(radius as int, SCALE as int);
        if dir.z == 0 {
            lemma_mul_div_s_nonneg(0, u as int, SCALE as int);
            lemma_mul_div_s_neg(0, u as int, SCALE as int);
        }
    }
    vmuldiv(dir, u, SCALE)
}

} // verus!
