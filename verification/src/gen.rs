//! Flock generation: agents placed uniformly inside a ball, with
//! uniformly directed initial velocities whose speeds lie inside the
//! configured band.

use vstd::prelude::*;

verus! {

use crate::boid::{zero_v, Boid};
use crate::math::{mul_div, lemma_le_isqrt, lemma_mul_div_s_bound,
    lemma_mul_div_s_nonneg, N_LIMIT, POS_LIMIT, SCALE, SPEED_LIMIT};
use crate::rng::{rng_below, rng_sym};
use crate::sim::boids_wf;
use crate::vec3::{in_box, lemma_comp_le_norm, lemma_scaled_norm, lemma_vmuldiv_bound, norm_s,
    norm2, norm2_s, vmuldiv, vnorm, vnormalize, Vec3};
use vstd::arithmetic::div_mod::{lemma_div_is_ordered, lemma_div_multiples_vanish,
    lemma_div_pos_is_pos, lemma_fundamental_div_mod, lemma_mod_bound};

/// Smallest norm a direction draw is accepted at: a quarter unit, so
/// scaling to a target speed loses little precision.
pub const UNIT_FLOOR: i64 = 250_000;

/// A point drawn uniformly from the ball of the given radius, by
/// rejection from the enclosing cube. After a bounded number of
/// rejections the center is returned, so the function is total; the
/// fallback is reached with vanishing probability.
pub(crate) fn sample_ball(rng: &mut rand::rngs::StdRng, radius: i64) -> (r: Vec3)
    requires
        0 <= radius <= POS_LIMIT,
    ensures
        in_box(r, radius as int),
        norm2_s(r) <= (radius as int) * (radius as int),
{
    proof {
        assert(0 <= (radius as int) * (radius as int) <= (POS_LIMIT as int) * (POS_LIMIT as int))
            by (nonlinear_arith)
            requires
                0 <= radius <= POS_LIMIT,
        ;
    }
    let limit: u128 = (radius as u128) * (radius as u128);
    let mut tries: usize = 0;
    while tries < 64
        invariant
            0 <= radius <= POS_LIMIT,
            limit == (radius as int) * (radius as int),
        decreases 64 - tries,
    {
        let x = rng_sym(rng, radius);
        let y = rng_sym(rng, radius);
        let z = rng_sym(rng, radius);
        let q = Vec3 { x, y, z };
        let n2 = norm2(q);
        if n2 <= limit {
            return q;
        }
        tries += 1;
    }
    proof {
        crate::vec3::lemma_norm2_nonneg(Vec3 { x: 0i64, y: 0i64, z: 0i64 });
    }
    Vec3 { x: 0, y: 0, z: 0 }
}

/// A draw from the spherical shell between a quarter and a half unit:
/// its direction is uniform and its norm is at least `UNIT_FLOOR`.
/// After a bounded number of rejections a fixed axis point is returned.
fn shell_sample(rng: &mut rand::rngs::StdRng) -> (q: Vec3)
    ensures
        in_box(q, SCALE as int),
        (UNIT_FLOOR as int) * (UNIT_FLOOR as int) <= norm2_s(q),
        UNIT_FLOOR <= norm_s(q),
        norm_s(q) <= SCALE,
{
    let half: i64 = SCALE / 2;
    let floor_sq: u128 = (UNIT_FLOOR as u128) * (UNIT_FLOOR as u128);
    let half_sq: u128 = (half as u128) * (half as u128);
    let mut tries: usize = 0;
    while tries < 64
        invariant
            half == SCALE / 2,
            floor_sq == (UNIT_FLOOR as int) * (UNIT_FLOOR as int),
            half_sq == (half as int) * (half as int),
        decreases 64 - tries,
    {
        let x = rng_sym(rng, half);
        let y = rng_sym(rng, half);
        let z = rng_sym(rng, half);
        let q = Vec3 { x, y, z };
        let n2 = norm2(q);
        if n2 >= floor_sq && n2 <= half_sq {
            proof {
                lemma_floor_and_ceiling(norm2_s(q));
            }
            return q;
        }
        tries += 1;
    }
    let q = Vec3 { x: UNIT_FLOOR, y: 0, z: 0 };
    proof {
        crate::vec3::lemma_norm2_nonneg(q);
        lemma_floor_and_ceiling(norm2_s(q));
    }
    q
}

/// Norm bounds of a shell draw, from its squared-norm bounds.
proof fn lemma_floor_and_ceiling(n2: int)
    requires
        (UNIT_FLOOR as int) * (UNIT_FLOOR as int) <= n2,
        n2 <= (SCALE as int / 2) * (SCALE as int / 2),
    ensures
        UNIT_FLOOR <= crate::math::isqrt_s(n2 as nat),
        crate::math::isqrt_s(n2 as nat) <= SCALE,
{
    lemma_le_isqrt(n2 as nat, UNIT_FLOOR as nat);
    assert((SCALE as int) * (SCALE as int) <= (SCALE as int + 1) * (SCALE as int + 1))
        by (nonlinear_arith);
    crate::math::lemma_isqrt_le(n2 as nat, ((SCALE as int / 2) * (SCALE as int / 2)) as nat);
    assert((SCALE as int / 2) * (SCALE as int / 2) < (SCALE as int + 1) * (SCALE as int + 1))
        by (nonlinear_arith);
    crate::math::lemma_isqrt_s_bounds(((SCALE as int / 2) * (SCALE as int / 2)) as nat);
    let rh = crate::math::isqrt_s(((SCALE as int / 2) * (SCALE as int / 2)) as nat);
    if rh > SCALE {
        assert((SCALE as int + 1) * (SCALE as int + 1) <= rh * rh) by (nonlinear_arith)
            requires
                SCALE as int + 1 <= rh,
        ;
    }
}

/// A unit direction drawn uniformly, by normalizing a shell draw: the
/// result's norm is within four sub-units of one unit.
pub(crate) fn sample_unit(rng: &mut rand::rngs::StdRng) -> (r: Vec3)
    ensures
        in_box(r, SCALE as int),
        SCALE - 4 <= norm_s(r) <= SCALE + 4,
{
    let q = shell_sample(rng);
    proof {
        assert(norm2_s(q) > 0);
        assert(4 * norm_s(q) >= SCALE);
        assert(in_box(q, crate::vec3::VEC_NORM_LIMIT as int));
    }
    vnormalize(q)
}

/// A vector of uniform direction whose norm lies within the slack of a
/// target speed `s`: between `s - 4` (for `s` of at least eight
/// sub-units) and `s + s / UNIT_FLOOR + 1`.
fn scaled_direction(rng: &mut rand::rngs::StdRng, s: i64) -> (r: Vec3)
    requires
        0 <= s <= SPEED_LIMIT,
    ensures
        in_box(r, s as int),
        norm_s(r) <= s + s as int / (UNIT_FLOOR as int) + 1,
        s >= 8 ==> norm_s(r) >= s - 4,
{
    let q = shell_sample(rng);
    let nq = vnorm(q);
    let ghost c = s as int / (UNIT_FLOOR as int) + 1;
    proof {
        lemma_div_pos_is_pos(s as int, UNIT_FLOOR as int);
        lemma_fundamental_div_mod(s as int, UNIT_FLOOR as int);
        lemma_mod_bound(s as int, UNIT_FLOOR as int);
        assert(c * (UNIT_FLOOR as int) > s) by (nonlinear_arith)
            requires
                c == s as int / (UNIT_FLOOR as int) + 1,
                (s as int / (UNIT_FLOOR as int)) * (UNIT_FLOOR as int) > s - UNIT_FLOOR,
        ;
        assert(c * (nq as int) >= c * (UNIT_FLOOR as int)) by (nonlinear_arith)
            requires
                c >= 1,
                nq >= UNIT_FLOOR,
        ;
        lemma_comp_le_norm(q);
        lemma_vmuldiv_bound(q, s as int, nq as int, nq as int, s as int);
        lemma_div_multiples_vanish(s as int, nq as int);
        lemma_scaled_norm(q, s as int, nq as int, c);
    }
    vmuldiv(q, s, nq)
}

/// Every agent a fresh flock holds: identity equals index, position
/// inside the generation ball, accumulators zero, and the speed inside
/// the requested band up to the stated fixed-point slack.
pub open spec fn spawn_ok(b: Boid, k: int, radius: int, min_s: int, max_s: int) -> bool {
    &&& b.id == k
    &&& norm2_s(b.translation) <= radius * radius
    &&& in_box(b.translation, radius)
    &&& b.acceleration == zero_v()
    &&& b.neighbor_velocity == zero_v()
    &&& in_box(b.velocity, max_s)
    &&& norm_s(b.velocity) <= max_s + max_s / (UNIT_FLOOR as int) + 1
    &&& (min_s >= 8 ==> norm_s(b.velocity) >= min_s - 4)
}

/// A freshly generated flock of `n` agents inside the ball of the given
/// radius, with speeds inside the band.
pub open spec fn spawned(bs: Seq<Boid>, n: int, radius: int, min_s: int, max_s: int) -> bool {
    &&& bs.len() == n
    &&& forall|k: int| 0 <= k < n ==> spawn_ok(#[trigger] bs[k], k, radius, min_s, max_s)
}

impl Boid {
    /// A fresh flock of `n` agents: ids equal indices, positions inside
    /// the ball of the given radius, both accumulators zero, and every
    /// speed inside the requested band up to the fixed-point slack
    /// stated by `spawn_ok`.
    pub fn generate_sphere(
        n: usize,
        sphere_radius: i64,
        min_speed: i64,
        max_speed: i64,
        rng: &mut rand::rngs::StdRng,
    ) -> (flock: Vec<Boid>)
        requires
            n <= N_LIMIT,
            0 <= sphere_radius <= POS_LIMIT,
            0 <= min_speed <= max_speed <= SPEED_LIMIT,
        ensures
            flock@.len() == n,
            boids_wf(flock@),
            spawned(flock@, n as int, sphere_radius as int, min_speed as int, max_speed as int),
    {
        let mut flock: Vec<Boid> = Vec::new();
        let mut i: usize = 0;
        while i < n
            invariant
                n <= N_LIMIT,
                0 <= sphere_radius <= POS_LIMIT,
                0 <= min_speed <= max_speed <= SPEED_LIMIT,
                i <= n,
                flock@.len() == i,
                forall|k: int|
                    0 <= k < i ==> spawn_ok(
                        #[trigger] flock@[k],
                        k,
                        sphere_radius as int,
                        min_speed as int,
                        max_speed as int,
                    ),
            decreases n - i,
        {
            let t = sample_ball(rng, sphere_radius);
            let us = rng_below(rng, (SCALE as u64) + 1);
            proof {
                lemma_mul_div_s_bound(
                    us as int,
                    (max_speed - min_speed) as int,
                    SCALE as int,
                    SCALE as int,
                    (max_speed - min_speed) as int,
                );
                lemma_div_multiples_vanish((max_speed - min_speed) as int, SCALE as int);
                lemma_mul_div_s_nonneg(us as int, (max_speed - min_speed) as int, SCALE as int);
            }
            let s = min_speed + mul_div(us as i64, max_speed - min_speed, SCALE);
            let vel = scaled_direction(rng, s);
            proof {
                lemma_div_is_ordered(s as int, max_speed as int, UNIT_FLOOR as int);
            }
            let b = Boid::new(i, t, vel, Vec3::zero());
            flock.push(b);
            i += 1;
        }
        flock
    }
}

} // verus!
