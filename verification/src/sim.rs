//! The update engine: per-tick reset, pair scoring and per-agent
//! self-rules, each with an exact functional specification.

use vstd::prelude::*;

verus! {

use crate::boid::{boid_reset_s, zero_v, Boid};
use crate::math::{
    abs_i, lemma_mul_div_s_bound, lemma_mul_div_s_nonneg, mul_div,
    mul_div_s, isqrt64, lemma_isqrt_unique, lemma_isqrt_le, lemma_isqrt_s_bounds, N_LIMIT, POS_LIMIT, RANGE_LIMIT,
    SCALE, SPEED_LIMIT,
};
use crate::params::SimParams;
use crate::spatial::{distinct_seq, in_range_s, nd2, nearest_neighbors, positions_boxed};
use crate::vec3::{
    in_box, lemma_comp_le_norm, lemma_norm_le, lemma_norm2_nonneg, lemma_vmuldiv_bound,
    norm_s, norm2_s, norm2, normalize_s, slerp_s, vadd, vadd_s, vmuldiv, vmuldiv_s, vneg, vneg_s,
    vnorm, vnormalize, vslerp, vsub, vsub_s, Vec3, VEC_NORM_LIMIT,
};
use vstd::arithmetic::div_mod::lemma_div_multiples_vanish;

/// Quadratic shaping coefficient of the separation rule (`1e-2`).
pub const C_SEPARATION: i64 = 10_000;

/// Quadratic shaping coefficient of the cohesion rule (`1e-4`).
pub const C_COHESION: i64 = 100;

/// Quadratic shaping coefficient of the alignment accumulation (`1e-2`).
pub const C_ALIGNMENT: i64 = 10_000;

/// Quadratic shaping coefficient of the attraction rule (`1e-3`).
pub const C_ATTRACTION: i64 = 1_000;

/// Bound on one coordinate of a single pairwise force.
pub const PAIR_ACCEL_STEP: i64 = 10_000_000_000;

/// Bound on one coordinate of a single alignment contribution.
pub const PAIR_NVEL_STEP: i64 = 10_000_000;

/// Bound on an acceleration coordinate during a tick.
pub const ACCEL_PHASE_MAX: i64 = 1_000_000_000_000_000_000;

/// Bound on a neighbor-velocity coordinate during a tick.
pub const NVEL_PHASE_MAX: i64 = 1_000_000_000_000_000;

/// A well-formed flock: ids equal indices, positions inside the world
/// box, velocities inside the speed box.
pub open spec fn boids_wf(bs: Seq<Boid>) -> bool {
    &&& bs.len() <= N_LIMIT
    &&& forall|k: int|
        0 <= k < bs.len() ==> (#[trigger] bs[k]).id == k && in_box(bs[k].translation, POS_LIMIT as int)
            && in_box(bs[k].velocity, SPEED_LIMIT as int)
}

/// The flock and its rule set, updated together once per tick.
pub struct BoidsSimulation {
    pub boids: Vec<Boid>,
    pub params: SimParams,
}

impl BoidsSimulation {
    pub open spec fn wf(self) -> bool {
        self.params.wf() && boids_wf(self.boids@)
    }
}

/// Saturating coordinate: values beyond the world box stick to its wall.
pub open spec fn sat_pos_s(a: int) -> int {
    if a > POS_LIMIT {
        POS_LIMIT as int
    } else if a < -(POS_LIMIT as int) {
        -(POS_LIMIT as int)
    } else {
        a
    }
}

/// Position after one step of motion, held inside the world box.
pub open spec fn translate_s(pos: Vec3, v: Vec3) -> Vec3 {
    Vec3 {
        x: sat_pos_s(pos.x + v.x) as i64,
        y: sat_pos_s(pos.y + v.y) as i64,
        z: sat_pos_s(pos.z + v.z) as i64,
    }
}

/// Velocity rescaled so its norm is clamped to `[min_s, max_s]`; a
/// velocity already inside the band, or one of norm zero, is returned
/// unchanged.
pub open spec fn clamp_speed_s(v: Vec3, min_s: int, max_s: int) -> Vec3 {
    let r = norm_s(v);
    if r == 0 {
        v
    } else if r < min_s {
        vmuldiv_s(v, min_s, r)
    } else if r > max_s {
        vmuldiv_s(v, max_s, r)
    } else {
        v
    }
}

/// The attraction self-rule: beyond the minimum range, a pull toward
/// the attraction center that grows quadratically with the overshoot.
/// Disabled entirely when `attraction_min_range` is `None`; an agent
/// exactly at the center receives no pull.
pub open spec fn attract_s(b: Boid, p: SimParams) -> Boid {
    match p.attraction_min_range {
        Option::None => b,
        Option::Some(amr) => {
            let delta = vsub_s(p.attraction_center, b.translation);
            let dd = norm_s(delta);
            if dd >= amr && dd > 0 {
                let m1 = mul_div_s(dd - amr, dd - amr, SCALE as int);
                let f = mul_div_s(m1, C_ATTRACTION as int, SCALE as int);
                Boid {
                    acceleration: vadd_s(
                        b.acceleration,
                        vmuldiv_s(normalize_s(delta), f, SCALE as int),
                    ),
                    ..b
                }
            } else {
                b
            }
        },
    }
}

/// The alignment self-rule: steer toward the accumulated neighbor
/// direction while keeping the current speed. A no-op when either the
/// velocity or the accumulated neighbor velocity is zero.
pub open spec fn align_s(b: Boid, p: SimParams) -> Boid {
    if norm2_s(b.neighbor_velocity) > 0 && norm2_s(b.velocity) > 0 {
        let rv = norm_s(b.velocity);
        let u = slerp_s(
            normalize_s(b.velocity),
            normalize_s(b.neighbor_velocity),
            p.alignment_strength as int,
        );
        let vstar = vmuldiv_s(u, rv, SCALE as int);
        Boid { acceleration: vadd_s(b.acceleration, vsub_s(vstar, b.velocity)), ..b }
    } else {
        b
    }
}

/// The coherence self-rule: bend the accumulated acceleration toward
/// the current heading, keeping its magnitude. A no-op when either the
/// acceleration or the velocity is zero.
pub open spec fn coherence_s(b: Boid, p: SimParams) -> Boid {
    if norm2_s(b.acceleration) > 0 && norm2_s(b.velocity) > 0 {
        let ra = norm_s(b.acceleration);
        let nu = slerp_s(
            normalize_s(b.acceleration),
            normalize_s(b.velocity),
            p.coherence_strength as int,
        );
        Boid { acceleration: vmuldiv_s(nu, ra, SCALE as int), ..b }
    } else {
        b
    }
}

/// Integration, speed clamp and motion, after the blends.
pub open spec fn finish_s(b: Boid, p: SimParams) -> Boid {
    let v1 = vadd_s(b.velocity, b.acceleration);
    let v2 = clamp_speed_s(v1, p.min_speed as int, p.max_speed as int);
    Boid { velocity: v2, translation: translate_s(b.translation, v2), ..b }
}

/// All self-rules of one agent, in order: attraction, alignment blend,
/// coherence blend, integration, speed clamp, motion.
pub open spec fn self_rules_s(b: Boid, p: SimParams) -> Boid {
    finish_s(coherence_s(align_s(attract_s(b, p), p), p), p)
}

/// Saturating coordinate addition for positions.
fn sat_add(a: i64, b: i64) -> (r: i64)
    requires
        abs_i(a as int) <= 2 * POS_LIMIT,
        abs_i(b as int) <= VEC_NORM_LIMIT,
    ensures
        r == sat_pos_s(a + b),
{
    let s = a + b;
    if s > POS_LIMIT {
        POS_LIMIT
    } else if s < -POS_LIMIT {
        -POS_LIMIT
    } else {
        s
    }
}

/// The per-tick speed band, up to fixed-point rounding: a clamped
/// velocity is zero, or no slower than four sub-units below the
/// minimum and no faster than the maximum — unless it was boosted from
/// a near-cancelled integration, in which case it stays within twice
/// the minimum.
pub open spec fn speed_banded(v: Vec3, min_s: int, max_s: int) -> bool {
    ||| v == zero_v()
    ||| (min_s - 4 <= norm_s(v) && (norm_s(v) <= max_s || norm_s(v) <= 2 * min_s))
}

/// Executable speed clamp; the result's coordinates never exceed
/// `max_s` in magnitude, and its norm lands inside the band.
pub fn clamp_speed(v: Vec3, min_s: i64, max_s: i64) -> (r: Vec3)
    requires
        in_box(v, VEC_NORM_LIMIT as int),
        0 <= min_s <= max_s,
    ensures
        r == clamp_speed_s(v, min_s as int, max_s as int),
        in_box(r, max_s as int),
        min_s >= 8 && max_s <= SPEED_LIMIT ==> speed_banded(r, min_s as int, max_s as int),
{
    let r = vnorm(v);
    if r == 0 {
        proof {
            lemma_norm2_nonneg(v);
            assert((0int + 1) * (0int + 1) == 1) by (nonlinear_arith);
            assert(norm2_s(v) == 0);
            assert(v.x == 0 && v.y == 0 && v.z == 0) by (nonlinear_arith)
                requires
                    (v.x as int) * (v.x as int) + (v.y as int) * (v.y as int) + (v.z as int) * (
                    v.z as int) == 0,
            ;
            assert(v == zero_v());
        }
        v
    } else if r < min_s {
        proof {
            lemma_comp_le_norm(v);
            lemma_vmuldiv_bound(v, min_s as int, r as int, r as int, min_s as int);
            lemma_div_multiples_vanish(min_s as int, r as int);
            if min_s >= 8 && max_s <= SPEED_LIMIT {
                assert(min_s <= min_s * (r as int)) by (nonlinear_arith)
                    requires
                        1 <= r,
                        0 <= min_s,
                ;
                crate::vec3::lemma_scaled_norm(v, min_s as int, r as int, min_s as int);
            }
        }
        vmuldiv(v, min_s, r)
    } else if r > max_s {
        proof {
            lemma_comp_le_norm(v);
            lemma_vmuldiv_bound(v, max_s as int, r as int, r as int, max_s as int);
            lemma_div_multiples_vanish(max_s as int, r as int);
            if min_s >= 8 && max_s <= SPEED_LIMIT {
                assert(max_s <= 1 * (r as int)) by (nonlinear_arith)
                    requires
                        max_s <= r,
                ;
                crate::vec3::lemma_scaled_norm(v, max_s as int, r as int, 1);
            }
        }
        vmuldiv(v, max_s, r)
    } else {
        proof {
            lemma_comp_le_norm(v);
        }
        v
    }
}

/// One agent's self-rules, executed exactly as `self_rules_s` states.
pub fn apply_self_rules_one(b: Boid, p: &SimParams) -> (r: Boid)
    requires
        p.wf(),
        in_box(b.translation, POS_LIMIT as int),
        in_box(b.velocity, SPEED_LIMIT as int),
        in_box(b.acceleration, ACCEL_PHASE_MAX as int),
        in_box(b.neighbor_velocity, NVEL_PHASE_MAX as int),
    ensures
        r == self_rules_s(b, *p),
        r.id == b.id,
        in_box(r.translation, POS_LIMIT as int),
        in_box(r.velocity, p.max_speed as int),
        p.min_speed >= 8 ==> speed_banded(r.velocity, p.min_speed as int, p.max_speed as int),
{
    // Attraction.
    let b1 = attract_exec(b, p);
    // Alignment blend.
    let b2 = align_exec(b1, p);
    // Coherence blend.
    let b3 = coherence_exec(b2, p);
    // Integrate, clamp, move.
    proof {
        lemma_comp_le_norm(b3.velocity);
    }
    let v1 = vadd(b3.velocity, b3.acceleration);
    let v2 = clamp_speed(v1, p.min_speed, p.max_speed);
    let tx = sat_add(b3.translation.x, v2.x);
    let ty = sat_add(b3.translation.y, v2.y);
    let tz = sat_add(b3.translation.z, v2.z);
    Boid { velocity: v2, translation: Vec3 { x: tx, y: ty, z: tz }, ..b3 }
}

/// Attraction step; keeps every field but the acceleration, and adds at
/// most `ATTRACT_MAX` to each of its coordinates.
pub const ATTRACT_MAX: i64 = 200_000_000_000_000;

fn attract_exec(b: Boid, p: &SimParams) -> (r: Boid)
    requires
        p.wf(),
        in_box(b.translation, POS_LIMIT as int),
        in_box(b.acceleration, ACCEL_PHASE_MAX as int),
    ensures
        r == attract_s(b, *p),
        r.id == b.id && r.translation == b.translation && r.velocity == b.velocity
            && r.neighbor_velocity == b.neighbor_velocity,
        in_box(r.acceleration, ACCEL_PHASE_MAX as int + ATTRACT_MAX),
{
    match p.attraction_min_range {
        Option::None => b,
        Option::Some(amr) => {
            let delta = vsub(p.attraction_center, b.translation);
            let dd = vnorm(delta);
            if dd >= amr && dd > 0 {
                proof {
                    lemma_norm_le(delta, 2 * POS_LIMIT as int);
                    lemma_mul_div_s_bound(
                        (dd - amr) as int,
                        (dd - amr) as int,
                        SCALE as int,
                        4 * POS_LIMIT as int,
                        4 * POS_LIMIT as int,
                    );
                    lemma_mul_div_s_nonneg((dd - amr) as int, (dd - amr) as int, SCALE as int);
                }
                let m1 = mul_div(dd - amr, dd - amr, SCALE);
                proof {
                    lemma_mul_div_s_bound(
                        m1 as int,
                        C_ATTRACTION as int,
                        SCALE as int,
                        16 * (POS_LIMIT as int) * (POS_LIMIT as int) / (SCALE as int),
                        C_ATTRACTION as int,
                    );
                    lemma_mul_div_s_nonneg(m1 as int, C_ATTRACTION as int, SCALE as int);
                }
                let f = mul_div(m1, C_ATTRACTION, SCALE);
                let u = vnormalize(delta);
                proof {
                    lemma_vmuldiv_bound(u, f as int, SCALE as int, SCALE as int, ATTRACT_MAX as int);
                    lemma_div_multiples_vanish(ATTRACT_MAX as int, SCALE as int);
                }
                let pull = vmuldiv(u, f, SCALE);
                Boid { acceleration: vadd(b.acceleration, pull), ..b }
            } else {
                b
            }
        },
    }
}

/// Alignment-blend step; adds at most `ALIGN_MAX` to each acceleration
/// coordinate.
pub const ALIGN_MAX: i64 = 6_000_000_000;

fn align_exec(b: Boid, p: &SimParams) -> (r: Boid)
    requires
        p.wf(),
        in_box(b.velocity, SPEED_LIMIT as int),
        in_box(b.acceleration, ACCEL_PHASE_MAX as int + ATTRACT_MAX),
        in_box(b.neighbor_velocity, NVEL_PHASE_MAX as int),
    ensures
        r == align_s(b, *p),
        r.id == b.id && r.translation == b.translation && r.velocity == b.velocity
            && r.neighbor_velocity == b.neighbor_velocity,
        in_box(r.acceleration, ACCEL_PHASE_MAX as int + ATTRACT_MAX + ALIGN_MAX),
{
    let n2n = norm2(b.neighbor_velocity);
    let n2v = norm2(b.velocity);
    if n2n > 0 && n2v > 0 {
        let rv = vnorm(b.velocity);
        let uv = vnormalize(b.velocity);
        let un = vnormalize(b.neighbor_velocity);
        let u = vslerp(uv, un, p.alignment_strength);
        proof {
            lemma_norm_le(b.velocity, SPEED_LIMIT as int);
            lemma_vmuldiv_bound(u, rv as int, SCALE as int, SCALE as int, 2 * SPEED_LIMIT as int);
            lemma_div_multiples_vanish(2 * SPEED_LIMIT as int, SCALE as int);
        }
        let vstar = vmuldiv(u, rv, SCALE);
        let dv = vsub(vstar, b.velocity);
        Boid { acceleration: vadd(b.acceleration, dv), ..b }
    } else {
        b
    }
}

/// Coherence-blend step; the rescaled acceleration keeps each
/// coordinate within the norm of the accumulated one.
pub const ACCEL_TICK_MAX: i64 = 2_500_000_000_000_000_000;

fn coherence_exec(b: Boid, p: &SimParams) -> (r: Boid)
    requires
        p.wf(),
        in_box(b.velocity, SPEED_LIMIT as int),
        in_box(b.acceleration, ACCEL_PHASE_MAX as int + ATTRACT_MAX + ALIGN_MAX),
    ensures
        r == coherence_s(b, *p),
        r.id == b.id && r.translation == b.translation && r.velocity == b.velocity
            && r.neighbor_velocity == b.neighbor_velocity,
        in_box(r.acceleration, ACCEL_TICK_MAX as int),
{
    let n2a = norm2(b.acceleration);
    let n2v = norm2(b.velocity);
    if n2a > 0 && n2v > 0 {
        proof {
            lemma_norm_le(b.acceleration, ACCEL_PHASE_MAX as int + ATTRACT_MAX + ALIGN_MAX);
        }
        let ra = vnorm(b.acceleration);
        let ua = vnormalize(b.acceleration);
        let uv = vnormalize(b.velocity);
        let nu = vslerp(ua, uv, p.coherence_strength);
        proof {
            lemma_vmuldiv_bound(nu, ra as int, SCALE as int, SCALE as int, ra as int);
            lemma_div_multiples_vanish(ra as int, SCALE as int);
        }
        let na = vmuldiv(nu, ra, SCALE);
        Boid { acceleration: na, ..b }
    } else {
        b
    }
}

/// Each coordinate of `b` differs from the matching coordinate of `a`
/// by at most `step` in magnitude.
pub open spec fn stepped(a: Vec3, b: Vec3, step: int) -> bool {
    &&& abs_i(b.x as int) <= abs_i(a.x as int) + step
    &&& abs_i(b.y as int) <= abs_i(a.y as int) + step
    &&& abs_i(b.z as int) <= abs_i(a.z as int) + step
}

/// The separation force on the first agent of a pair at displacement
/// `d` and distance `r`: a push away from the neighbor, shaped by the
/// squared closeness ratio.
pub open spec fn sep_force_s(d: Vec3, r: int, sep: int) -> Vec3 {
    let t = mul_div_s(sep - r, SCALE as int, sep);
    let c1 = mul_div_s(t, t, SCALE as int);
    let fc = mul_div_s(c1, C_SEPARATION as int, SCALE as int);
    vneg_s(vmuldiv_s(d, fc, SCALE as int))
}

/// The cohesion force on the first agent of a pair: a pull toward the
/// neighbor, shaped by the squared farness ratio.
pub open spec fn coh_force_s(d: Vec3, r: int, sep: int, coh: int) -> Vec3 {
    let t = mul_div_s(coh - r, SCALE as int, coh - sep);
    let c1 = mul_div_s(t, t, SCALE as int);
    let fc = mul_div_s(c1, C_COHESION as int, SCALE as int);
    vmuldiv_s(d, fc, SCALE as int)
}

/// The alignment weight of a cohesion-range pair.
pub open spec fn align_factor_s(r: int, sep: int, coh: int) -> int {
    let t = mul_div_s(coh - r, SCALE as int, coh - sep);
    let c1 = mul_div_s(t, t, SCALE as int);
    mul_div_s(c1, C_ALIGNMENT as int, SCALE as int)
}

/// One pairwise scoring: both agents of the pair receive opposite
/// forces, and within the cohesion band each accumulates the other's
/// weighted velocity. Out-of-range pairs are left untouched.
pub open spec fn score_pair_s(bi: Boid, bj: Boid, p: SimParams) -> (Boid, Boid) {
    let d = vsub_s(bj.translation, bi.translation);
    let coh = p.cohesion_range as int;
    if !(coh > 0 && norm2_s(d) <= coh * coh) {
        (bi, bj)
    } else {
        let r = norm_s(d);
        if p.separation_range > 0 && r <= p.separation_range {
            let f = sep_force_s(d, r, p.separation_range as int);
            (
                Boid { acceleration: vadd_s(bi.acceleration, f), ..bi },
                Boid { acceleration: vadd_s(bj.acceleration, vneg_s(f)), ..bj },
            )
        } else {
            let f = coh_force_s(d, r, p.separation_range as int, coh);
            let a = align_factor_s(r, p.separation_range as int, coh);
            (
                Boid {
                    acceleration: vadd_s(bi.acceleration, f),
                    neighbor_velocity: vadd_s(
                        bi.neighbor_velocity,
                        vmuldiv_s(bj.velocity, a, SCALE as int),
                    ),
                    ..bi
                },
                Boid {
                    acceleration: vadd_s(bj.acceleration, vneg_s(f)),
                    neighbor_velocity: vadd_s(
                        bj.neighbor_velocity,
                        vmuldiv_s(bi.velocity, a, SCALE as int),
                    ),
                    ..bj
                },
            )
        }
    }
}

/// The force a pair scoring adds to the first agent's acceleration; the
/// second agent receives its exact negation. Zero for an out-of-range
/// pair.
pub open spec fn pair_force_s(bi: Boid, bj: Boid, p: SimParams) -> Vec3 {
    let d = vsub_s(bj.translation, bi.translation);
    let coh = p.cohesion_range as int;
    if !(coh > 0 && norm2_s(d) <= coh * coh) {
        zero_v()
    } else {
        let r = norm_s(d);
        if p.separation_range > 0 && r <= p.separation_range {
            sep_force_s(d, r, p.separation_range as int)
        } else {
            coh_force_s(d, r, p.separation_range as int, coh)
        }
    }
}

/// Every coordinate of a pairwise force is bounded by
/// `PAIR_ACCEL_STEP`, and the scoring adds exactly that force to the
/// first agent and its negation to the second.
pub proof fn lemma_pair_force(bi: Boid, bj: Boid, p: SimParams)
    requires
        p.wf(),
        in_box(bi.translation, POS_LIMIT as int),
        in_box(bj.translation, POS_LIMIT as int),
    ensures
        in_box(pair_force_s(bi, bj, p), PAIR_ACCEL_STEP as int),
        score_pair_s(bi, bj, p).0.acceleration == vadd_s(
            bi.acceleration,
            pair_force_s(bi, bj, p),
        ),
        score_pair_s(bi, bj, p).1.acceleration == vadd_s(
            bj.acceleration,
            vneg_s(pair_force_s(bi, bj, p)),
        ),
{
    let d = vsub_s(bj.translation, bi.translation);
    let coh = p.cohesion_range as int;
    let sep = p.separation_range as int;
    if !(coh > 0 && norm2_s(d) <= coh * coh) {
        assert(vadd_s(bi.acceleration, zero_v()) == bi.acceleration);
        assert(vneg_s(zero_v()) == zero_v());
        assert(vadd_s(bj.acceleration, zero_v()) == bj.acceleration);
    } else {
        let r = norm_s(d);
        lemma_norm2_nonneg(d);
        lemma_isqrt_s_bounds(norm2_s(d) as nat);
        lemma_comp_le_norm(d);
        assert(coh * coh < (coh + 1) * (coh + 1)) by (nonlinear_arith)
            requires
                coh >= 0,
        ;
        lemma_isqrt_unique((coh * coh) as nat, coh as nat);
        lemma_isqrt_le(norm2_s(d) as nat, (coh * coh) as nat);
        assert(r <= coh);
        if p.separation_range > 0 && r <= p.separation_range {
            lemma_mul_div_s_bound(sep - r, SCALE as int, sep, sep, SCALE as int);
            lemma_div_multiples_vanish(SCALE as int, sep);
            let t = mul_div_s(sep - r, SCALE as int, sep);
            lemma_mul_div_s_bound(t, t, SCALE as int, SCALE as int, SCALE as int);
            lemma_div_multiples_vanish(SCALE as int, SCALE as int);
            let c1 = mul_div_s(t, t, SCALE as int);
            lemma_mul_div_s_bound(
                c1,
                C_SEPARATION as int,
                SCALE as int,
                SCALE as int,
                C_SEPARATION as int,
            );
            lemma_div_multiples_vanish(C_SEPARATION as int, SCALE as int);
            let fc = mul_div_s(c1, C_SEPARATION as int, SCALE as int);
            lemma_vmuldiv_bound(d, fc, SCALE as int, r, C_SEPARATION as int);
            lemma_mul_div_s_bound(r, C_SEPARATION as int, SCALE as int, RANGE_LIMIT as int,
                C_SEPARATION as int);
        } else {
            let den = coh - sep;
            lemma_mul_div_s_bound(coh - r, SCALE as int, den, den, SCALE as int);
            lemma_div_multiples_vanish(SCALE as int, den);
            let t = mul_div_s(coh - r, SCALE as int, den);
            lemma_mul_div_s_bound(t, t, SCALE as int, SCALE as int, SCALE as int);
            lemma_div_multiples_vanish(SCALE as int, SCALE as int);
            let c1 = mul_div_s(t, t, SCALE as int);
            lemma_mul_div_s_bound(
                c1,
                C_COHESION as int,
                SCALE as int,
                SCALE as int,
                C_COHESION as int,
            );
            lemma_div_multiples_vanish(C_COHESION as int, SCALE as int);
            let fc = mul_div_s(c1, C_COHESION as int, SCALE as int);
            lemma_vmuldiv_bound(d, fc, SCALE as int, r, C_COHESION as int);
            lemma_mul_div_s_bound(r, C_COHESION as int, SCALE as int, RANGE_LIMIT as int,
                C_COHESION as int);
        }
    }
}

/// Executable pairwise scoring, exactly as `score_pair_s` states.
#[verifier::rlimit(100)]
fn score_pair_exec(bi: Boid, bj: Boid, p: &SimParams) -> (r: (Boid, Boid))
    requires
        p.wf(),
        in_box(bi.translation, POS_LIMIT as int),
        in_box(bj.translation, POS_LIMIT as int),
        in_box(bi.velocity, SPEED_LIMIT as int),
        in_box(bj.velocity, SPEED_LIMIT as int),
        in_box(bi.acceleration, ACCEL_PHASE_MAX - PAIR_ACCEL_STEP),
        in_box(bj.acceleration, ACCEL_PHASE_MAX - PAIR_ACCEL_STEP),
        in_box(bi.neighbor_velocity, NVEL_PHASE_MAX - PAIR_NVEL_STEP),
        in_box(bj.neighbor_velocity, NVEL_PHASE_MAX - PAIR_NVEL_STEP),
    ensures
        r == score_pair_s(bi, bj, *p),
        r.0.id == bi.id && r.0.translation == bi.translation && r.0.velocity == bi.velocity,
        r.1.id == bj.id && r.1.translation == bj.translation && r.1.velocity == bj.velocity,
        stepped(bi.acceleration, r.0.acceleration, PAIR_ACCEL_STEP as int),
        stepped(bj.acceleration, r.1.acceleration, PAIR_ACCEL_STEP as int),
        stepped(bi.neighbor_velocity, r.0.neighbor_velocity, PAIR_NVEL_STEP as int),
        stepped(bj.neighbor_velocity, r.1.neighbor_velocity, PAIR_NVEL_STEP as int),
{
    let coh = p.cohesion_range;
    let sep = p.separation_range;
    let d = vsub(bj.translation, bi.translation);
    let n2 = norm2(d);
    proof {
        assert((coh as int) * (coh as int) <= (RANGE_LIMIT as int) * (RANGE_LIMIT as int))
            by (nonlinear_arith)
            requires
                0 <= coh <= RANGE_LIMIT,
        ;
    }
    let limit: u128 = (coh as u128) * (coh as u128);
    if coh > 0 && n2 <= limit {
        proof {
            assert((coh as int) * (coh as int) < (coh as int + 1) * (coh as int + 1))
                by (nonlinear_arith)
                requires
                    coh >= 0,
            ;
            lemma_isqrt_unique(((coh as int) * (coh as int)) as nat, coh as nat);
            lemma_isqrt_le(n2 as nat, ((coh as int) * (coh as int)) as nat);
        }
        let rd = isqrt64(n2) as i64;
        proof {
            lemma_comp_le_norm(d);
            assert(rd == norm_s(d));
        }
        if sep > 0 && rd <= sep {
            proof {
                lemma_mul_div_s_bound(
                    (sep - rd) as int,
                    SCALE as int,
                    sep as int,
                    sep as int,
                    SCALE as int,
                );
                lemma_div_multiples_vanish(SCALE as int, sep as int);
                lemma_mul_div_s_nonneg((sep - rd) as int, SCALE as int, sep as int);
            }
            let t = mul_div(sep - rd, SCALE, sep);
            proof {
                lemma_mul_div_s_bound(t as int, t as int, SCALE as int, SCALE as int, SCALE as int);
                lemma_div_multiples_vanish(SCALE as int, SCALE as int);
                lemma_mul_div_s_nonneg(t as int, t as int, SCALE as int);
            }
            let c1 = mul_div(t, t, SCALE);
            proof {
                lemma_mul_div_s_bound(
                    c1 as int,
                    C_SEPARATION as int,
                    SCALE as int,
                    SCALE as int,
                    C_SEPARATION as int,
                );
                lemma_div_multiples_vanish(C_SEPARATION as int, SCALE as int);
                lemma_mul_div_s_nonneg(c1 as int, C_SEPARATION as int, SCALE as int);
            }
            let fc = mul_div(c1, C_SEPARATION, SCALE);
            proof {
                lemma_vmuldiv_bound(d, fc as int, SCALE as int, rd as int, C_SEPARATION as int);
                lemma_mul_div_s_bound(
                    rd as int,
                    C_SEPARATION as int,
                    SCALE as int,
                    RANGE_LIMIT as int,
                    C_SEPARATION as int,
                );
            }
            let fv = vmuldiv(d, fc, SCALE);
            let f = vneg(fv);
            let nf = vneg(f);
            (
                Boid { acceleration: vadd(bi.acceleration, f), ..bi },
                Boid { acceleration: vadd(bj.acceleration, nf), ..bj },
            )
        } else {
            let den = coh - sep;
            proof {
                assert(den > 0);
                lemma_mul_div_s_bound(
                    (coh - rd) as int,
                    SCALE as int,
                    den as int,
                    den as int,
                    SCALE as int,
                );
                lemma_div_multiples_vanish(SCALE as int, den as int);
                lemma_mul_div_s_nonneg((coh - rd) as int, SCALE as int, den as int);
            }
            let t = mul_div(coh - rd, SCALE, den);
            proof {
                lemma_mul_div_s_bound(t as int, t as int, SCALE as int, SCALE as int, SCALE as int);
                lemma_div_multiples_vanish(SCALE as int, SCALE as int);
                lemma_mul_div_s_nonneg(t as int, t as int, SCALE as int);
            }
            let c1 = mul_div(t, t, SCALE);
            proof {
                lemma_mul_div_s_bound(
                    c1 as int,
                    C_COHESION as int,
                    SCALE as int,
                    SCALE as int,
                    C_COHESION as int,
                );
                lemma_div_multiples_vanish(C_COHESION as int, SCALE as int);
                lemma_mul_div_s_nonneg(c1 as int, C_COHESION as int, SCALE as int);
                lemma_mul_div_s_bound(
                    c1 as int,
                    C_ALIGNMENT as int,
                    SCALE as int,
                    SCALE as int,
                    C_ALIGNMENT as int,
                );
                lemma_div_multiples_vanish(C_ALIGNMENT as int, SCALE as int);
                lemma_mul_div_s_nonneg(c1 as int, C_ALIGNMENT as int, SCALE as int);
            }
            let fc = mul_div(c1, C_COHESION, SCALE);
            let af = mul_div(c1, C_ALIGNMENT, SCALE);
            proof {
                lemma_vmuldiv_bound(d, fc as int, SCALE as int, rd as int, C_COHESION as int);
                lemma_mul_div_s_bound(
                    rd as int,
                    C_COHESION as int,
                    SCALE as int,
                    RANGE_LIMIT as int,
                    C_COHESION as int,
                );
                lemma_vmuldiv_bound(
                    bj.velocity,
                    af as int,
                    SCALE as int,
                    SPEED_LIMIT as int,
                    C_ALIGNMENT as int,
                );
                lemma_vmuldiv_bound(
                    bi.velocity,
                    af as int,
                    SCALE as int,
                    SPEED_LIMIT as int,
                    C_ALIGNMENT as int,
                );
            }
            let f = vmuldiv(d, fc, SCALE);
            let nf = vneg(f);
            let nvi = vmuldiv(bj.velocity, af, SCALE);
            let nvj = vmuldiv(bi.velocity, af, SCALE);
            (
                Boid {
                    acceleration: vadd(bi.acceleration, f),
                    neighbor_velocity: vadd(bi.neighbor_velocity, nvi),
                    ..bi
                },
                Boid {
                    acceleration: vadd(bj.acceleration, nf),
                    neighbor_velocity: vadd(bj.neighbor_velocity, nvj),
                    ..bj
                },
            )
        }
    } else {
        (bi, bj)
    }
}

/// The flock after scoring one pair key; a malformed key changes
/// nothing.
pub open spec fn apply_pair_one_s(bs: Seq<Boid>, q: (usize, usize), p: SimParams) -> Seq<Boid> {
    if q.0 < q.1 && (q.1 as int) < bs.len() {
        let s = score_pair_s(bs[q.0 as int], bs[q.1 as int], p);
        bs.update(q.0 as int, s.0).update(q.1 as int, s.1)
    } else {
        bs
    }
}

/// The flock after scoring a whole list of pair keys, front to back.
pub open spec fn apply_pairs_s(bs: Seq<Boid>, ps: Seq<(usize, usize)>, p: SimParams) -> Seq<Boid>
    decreases ps.len(),
{
    if ps.len() == 0 {
        bs
    } else {
        apply_pairs_s(apply_pair_one_s(bs, ps[0], p), ps.drop_first(), p)
    }
}

/// Scoring one more pair after a list is the same as appending it to
/// the list.
pub proof fn lemma_apply_pairs_push(
    bs: Seq<Boid>,
    ps: Seq<(usize, usize)>,
    q: (usize, usize),
    p: SimParams,
)
    ensures
        apply_pairs_s(bs, ps.push(q), p) == apply_pair_one_s(apply_pairs_s(bs, ps, p), q, p),
    decreases ps.len(),
{
    let single = ps.push(q);
    if ps.len() == 0 {
        assert(single[0] == q);
        assert(single.drop_first() =~= Seq::<(usize, usize)>::empty());
        assert(apply_pairs_s(bs, single, p) == apply_pairs_s(
            apply_pair_one_s(bs, q, p),
            single.drop_first(),
            p,
        ));
        assert(apply_pairs_s(apply_pair_one_s(bs, q, p), single.drop_first(), p)
            == apply_pair_one_s(bs, q, p));
        assert(apply_pairs_s(bs, ps, p) == bs);
    } else {
        assert(single[0] == ps[0]);
        assert(single.drop_first() =~= ps.drop_first().push(q));
        let mid = apply_pair_one_s(bs, ps[0], p);
        assert(apply_pairs_s(bs, single, p) == apply_pairs_s(mid, single.drop_first(), p));
        lemma_apply_pairs_push(mid, ps.drop_first(), q, p);
        assert(apply_pairs_s(bs, ps, p) == apply_pairs_s(mid, ps.drop_first(), p));
    }
}

/// Pair scoring never moves an agent, never changes its velocity, and
/// never renames it; only the two accumulators change.
pub proof fn lemma_apply_pairs_preserves(bs: Seq<Boid>, ps: Seq<(usize, usize)>, p: SimParams)
    ensures
        apply_pairs_s(bs, ps, p).len() == bs.len(),
        forall|i: int|
            0 <= i < bs.len() ==> (#[trigger] apply_pairs_s(bs, ps, p)[i]).id == bs[i].id
                && apply_pairs_s(bs, ps, p)[i].translation == bs[i].translation && apply_pairs_s(
                bs,
                ps,
                p,
            )[i].velocity == bs[i].velocity,
    decreases ps.len(),
{
    if ps.len() == 0 {
    } else {
        let mid = apply_pair_one_s(bs, ps[0], p);
        assert(mid.len() == bs.len());
        assert forall|i: int|
            0 <= i < bs.len() implies (#[trigger] mid[i]).id == bs[i].id && mid[i].translation
            == bs[i].translation && mid[i].velocity == bs[i].velocity by {}
        lemma_apply_pairs_preserves(mid, ps.drop_first(), p);
    }
}

/// A well-formed pair list for a flock: keys are ordered, point at
/// distinct in-range agents, and no key repeats.
pub open spec fn pairs_wf(bs: Seq<Boid>, ps: Seq<(usize, usize)>, p: SimParams) -> bool {
    &&& forall|k: int|
        0 <= k < ps.len() ==> (#[trigger] ps[k]).0 < ps[k].1 && (ps[k].1 as int) < bs.len()
            && in_range_s(bs, ps[k].0 as int, ps[k].1 as int, p.cohesion_range as int)
    &&& forall|k: int, l: int| 0 <= k < l < ps.len() ==> ps[k] != ps[l]
}

/// The normalized key of an unordered pair of agent ids.
pub open spec fn key_s(i: usize, j: usize) -> (usize, usize) {
    if i < j {
        (i, j)
    } else {
        (j, i)
    }
}

/// Agent `j` was kept out of agent `i`'s neighborhood by a full cap:
/// `cap` distinct other agents, none of them `j`, all within range of
/// `i` and none farther from `i` than `j` is.
pub open spec fn cap_blocked(bs: Seq<Boid>, i: int, j: int, cap: int, coh: int) -> bool {
    exists|ws: Seq<usize>|
        {
            &&& (#[trigger] ws.len()) == cap
            &&& distinct_seq(ws)
            &&& forall|m: int|
                0 <= m < ws.len() ==> (#[trigger] ws[m] as int) < bs.len() && (ws[m] as int) != i
                    && (ws[m] as int) != j && in_range_s(bs, i, ws[m] as int, coh) && nd2(
                    bs,
                    i,
                    ws[m] as int,
                ) <= nd2(bs, i, j)
        }
}

/// No in-range pair is silently dropped: a pair of agents within the
/// cohesion range is either in the scored list, or both of its agents
/// had their neighbor caps filled by agents at no greater distance.
pub open spec fn pairs_complete(
    bs: Seq<Boid>,
    ps: Seq<(usize, usize)>,
    cap: int,
    coh: int,
) -> bool {
    forall|a: int, b: int|
        0 <= a < b < bs.len() && #[trigger] in_range_s(bs, a, b, coh) && !ps.contains(
            (a as usize, b as usize),
        ) ==> cap_blocked(bs, a, b, cap, coh) && cap_blocked(bs, b, a, cap, coh)
}

/// Whether a pair key has already been scored this tick.
fn pair_seen(ps: &Vec<(usize, usize)>, key: (usize, usize)) -> (r: bool)
    ensures
        r == ps@.contains(key),
{
    let mut k: usize = 0;
    while k < ps.len()
        invariant
            k <= ps@.len(),
            forall|m: int| 0 <= m < k ==> ps@[m] != key,
        decreases ps@.len() - k,
    {
        let q = ps[k];
        if q.0 == key.0 && q.1 == key.1 {
            return true;
        }
        k += 1;
    }
    proof {
        if ps@.contains(key) {
            let w = choose|w: int| 0 <= w < ps@.len() && ps@[w] == key;
        }
    }
    false
}

impl BoidsSimulation {
    /// Pair enumeration with deduplication: every agent walks its
    /// nearest in-range neighbors, each unordered pair is scored at most
    /// once, and the scored flock is exactly the fold of the returned
    /// pair list over the flock it started from.
    #[verifier::rlimit(100)]
    pub fn accumulate_pairs(&mut self) -> (pairs: Vec<(usize, usize)>)
        requires
            old(self).wf(),
            forall|k: int|
                0 <= k < old(self).boids@.len() ==> (#[trigger] old(self).boids@[k]).acceleration
                    == zero_v() && old(self).boids@[k].neighbor_velocity == zero_v(),
        ensures
            final(self).params == old(self).params,
            final(self).boids@.len() == old(self).boids@.len(),
            final(self).boids@ == apply_pairs_s(old(self).boids@, pairs@, old(self).params),
            pairs_wf(old(self).boids@, pairs@, old(self).params),
            pairs_complete(
                old(self).boids@,
                pairs@,
                old(self).params.max_neighbors as int,
                old(self).params.cohesion_range as int,
            ),
            pairs@.len() <= old(self).boids@.len() * (old(self).params.max_neighbors as int),
            pairs@.len() <= old(self).boids@.len() * old(self).boids@.len(),
            old(self).params.cohesion_range == 0 ==> pairs@.len() == 0,
            forall|k: int|
                0 <= k < final(self).boids@.len() ==> in_box(
                    (#[trigger] final(self).boids@[k]).acceleration,
                    ACCEL_PHASE_MAX as int,
                ) && in_box(final(self).boids@[k].neighbor_velocity, NVEL_PHASE_MAX as int),
            forall|k: int|
                0 <= k < final(self).boids@.len() ==> (#[trigger] final(self).boids@[k]).id == old(
                    self,
                ).boids@[k].id && final(self).boids@[k].translation
                    == old(self).boids@[k].translation && final(self).boids@[k].velocity == old(
                    self,
                ).boids@[k].velocity,
    {
        let ghost orig = self.boids@;
        let ghost p = self.params;
        let n = self.boids.len();
        let mut pairs: Vec<(usize, usize)> = Vec::new();
        let mut i: usize = 0;
        while i < n
            invariant
                self.params == p,
                p.wf(),
                n == self.boids@.len(),
                n == orig.len(),
                boids_wf(orig),
                i <= n,
                self.boids@ == apply_pairs_s(orig, pairs@, p),
                pairs_wf(orig, pairs@, p),
                forall|a: int, bb: int|
                    0 <= a < i && 0 <= bb < n && bb != a && #[trigger] in_range_s(
                        orig,
                        a,
                        bb,
                        p.cohesion_range as int,
                    ) ==> pairs@.contains(key_s(a as usize, bb as usize)) || cap_blocked(
                        orig,
                        a,
                        bb,
                        p.max_neighbors as int,
                        p.cohesion_range as int,
                    ),
                pairs@.len() <= i * (p.max_neighbors as int),
                pairs@.len() <= i * (n as int),
                p.cohesion_range == 0 ==> pairs@.len() == 0,
                forall|k: int|
                    0 <= k < n ==> (#[trigger] self.boids@[k]).id == orig[k].id
                        && self.boids@[k].translation == orig[k].translation
                        && self.boids@[k].velocity == orig[k].velocity,
                forall|k: int|
                    0 <= k < n ==> in_box(
                        (#[trigger] self.boids@[k]).acceleration,
                        pairs@.len() * (PAIR_ACCEL_STEP as int),
                    ) && in_box(
                        self.boids@[k].neighbor_velocity,
                        pairs@.len() * (PAIR_NVEL_STEP as int),
                    ),
            decreases n - i,
        {
            proof {
                assert(positions_boxed(self.boids@));
            }
            let ghost cur = self.boids@;
            let ns = nearest_neighbors(&self.boids, i, self.params.cohesion_range,
                self.params.max_neighbors);
            proof {
                assert(forall|k: int|
                    0 <= k < n ==> (#[trigger] cur[k]).translation == orig[k].translation);
            }
            let mut jj: usize = 0;
            while jj < ns.len()
                invariant
                    self.params == p,
                    p.wf(),
                    n == self.boids@.len(),
                    n == orig.len(),
                    boids_wf(orig),
                    i < n,
                    jj <= ns@.len(),
                    ns@.len() <= p.max_neighbors,
                    ns@.len() <= n,
                    forall|m: int|
                        0 <= m < ns@.len() ==> (ns@[m] as int) < n && ns@[m] != i && in_range_s(
                            orig,
                            i as int,
                            #[trigger] ns@[m] as int,
                            p.cohesion_range as int,
                        ),
                    self.boids@ == apply_pairs_s(orig, pairs@, p),
                    pairs_wf(orig, pairs@, p),
                    forall|a: int, bb: int|
                        0 <= a < i && 0 <= bb < n && bb != a && #[trigger] in_range_s(
                            orig,
                            a,
                            bb,
                            p.cohesion_range as int,
                        ) ==> pairs@.contains(key_s(a as usize, bb as usize)) || cap_blocked(
                            orig,
                            a,
                            bb,
                            p.max_neighbors as int,
                            p.cohesion_range as int,
                        ),
                    forall|m: int| 0 <= m < jj ==> pairs@.contains(#[trigger] key_s(i, ns@[m])),
                    pairs@.len() <= i * (p.max_neighbors as int) + jj,
                    pairs@.len() <= i * (n as int) + jj,
                    p.cohesion_range == 0 ==> pairs@.len() == 0,
                    forall|k: int|
                        0 <= k < n ==> (#[trigger] self.boids@[k]).id == orig[k].id
                            && self.boids@[k].translation == orig[k].translation
                            && self.boids@[k].velocity == orig[k].velocity,
                    forall|k: int|
                        0 <= k < n ==> in_box(
                            (#[trigger] self.boids@[k]).acceleration,
                            pairs@.len() * (PAIR_ACCEL_STEP as int),
                        ) && in_box(
                            self.boids@[k].neighbor_velocity,
                            pairs@.len() * (PAIR_NVEL_STEP as int),
                        ),
                decreases ns@.len() - jj,
            {
                let j = ns[jj];
                let key: (usize, usize) = if i < j {
                    (i, j)
                } else {
                    (j, i)
                };
                if !pair_seen(&pairs, key) {
                    let a = key.0;
                    let b = key.1;
                    proof {
                        assert(pairs@.len() < (n as int) * (n as int)) by (nonlinear_arith)
                            requires
                                pairs@.len() <= i * (n as int) + jj,
                                0 <= i <= n - 1,
                                0 <= jj <= n - 1,
                        ;
                        assert((n as int) * (n as int) <= (N_LIMIT as int) * (N_LIMIT as int))
                            by (nonlinear_arith)
                            requires
                                0 <= n <= N_LIMIT,
                        ;
                        assert(pairs@.len() * (PAIR_ACCEL_STEP as int) <= ((N_LIMIT as int) * (
                        N_LIMIT as int) - 1) * (PAIR_ACCEL_STEP as int)) by (nonlinear_arith)
                            requires
                                pairs@.len() <= (N_LIMIT as int) * (N_LIMIT as int) - 1,
                        ;
                        assert(pairs@.len() * (PAIR_NVEL_STEP as int) <= ((N_LIMIT as int) * (
                        N_LIMIT as int) - 1) * (PAIR_NVEL_STEP as int)) by (nonlinear_arith)
                            requires
                                pairs@.len() <= (N_LIMIT as int) * (N_LIMIT as int) - 1,
                        ;
                    }
                    let bi = self.boids[a];
                    let bj = self.boids[b];
                    let sc = score_pair_exec(bi, bj, &self.params);
                    let ghost pre = self.boids@;
                    let ghost pairs_pre = pairs@;
                    self.boids[a] = sc.0;
                    self.boids[b] = sc.1;
                    pairs.push(key);
                    proof {
                        assert(self.boids@ == apply_pair_one_s(pre, key, p));
                        lemma_apply_pairs_push(orig, pairs_pre, key, p);
                        assert(self.boids@ == apply_pairs_s(orig, pairs@, p));
                        if i < j {
                        } else {
                            crate::vec3::lemma_dist2_symmetric(
                                orig[j as int].translation,
                                orig[i as int].translation,
                            );
                        }
                        assert(in_range_s(orig, key.0 as int, key.1 as int,
                            p.cohesion_range as int));
                        assert forall|k: int| 0 <= k < pairs_pre.len() implies pairs_pre[k]
                            != key by {
                            if pairs_pre[k] == key {
                                assert(pairs_pre.contains(key));
                            }
                        }
                        assert(pairs_wf(orig, pairs@, p));
                        assert forall|x: (usize, usize)| pairs_pre.contains(x)
                            implies pairs@.contains(x) by {
                            let w = choose|w: int| 0 <= w < pairs_pre.len() && pairs_pre[w] == x;
                            assert(pairs@[w] == x);
                        }
                        assert(pairs@[pairs@.len() - 1] == key);
                        assert(pairs@.contains(key));
                        assert forall|k: int|
                            0 <= k < n implies in_box(
                            (#[trigger] self.boids@[k]).acceleration,
                            pairs@.len() * (PAIR_ACCEL_STEP as int),
                        ) && in_box(
                            self.boids@[k].neighbor_velocity,
                            pairs@.len() * (PAIR_NVEL_STEP as int),
                        ) by {
                            assert(pairs@.len() * (PAIR_ACCEL_STEP as int) == pairs_pre.len() * (
                            PAIR_ACCEL_STEP as int) + PAIR_ACCEL_STEP) by (nonlinear_arith)
                                requires
                                    pairs@.len() == pairs_pre.len() + 1,
                            ;
                            assert(pairs@.len() * (PAIR_NVEL_STEP as int) == pairs_pre.len() * (
                            PAIR_NVEL_STEP as int) + PAIR_NVEL_STEP) by (nonlinear_arith)
                                requires
                                    pairs@.len() == pairs_pre.len() + 1,
                            ;
                            assert(in_box(pre[k].acceleration, pairs_pre.len() * (
                            PAIR_ACCEL_STEP as int)));
                        }
                    }
                } else {
                    proof {
                        assert(pairs@.contains(key));
                    }
                }
                jj += 1;
            }
            proof {
                // Every in-range agent is either keyed with `i` in the
                // list, or blocked by `i`'s full neighbor cap.
                assert forall|bb: int|
                    0 <= bb < n && bb != i && in_range_s(orig, i as int, bb,
                        p.cohesion_range as int) implies pairs@.contains(
                    key_s(i, bb as usize),
                ) || cap_blocked(orig, i as int, bb, p.max_neighbors as int,
                    p.cohesion_range as int) by {
                    if ns@.contains(bb as usize) {
                        let m = choose|m: int| 0 <= m < ns@.len() && ns@[m] == bb as usize;
                        assert(pairs@.contains(key_s(i, ns@[m])));
                    } else {
                        assert(cur[i as int].translation == orig[i as int].translation);
                        assert(cur[bb].translation == orig[bb].translation);
                        assert(nd2(cur, i as int, bb) == nd2(orig, i as int, bb));
                        assert(in_range_s(cur, i as int, bb, p.cohesion_range as int));
                        assert(ns@.len() == p.max_neighbors);
                        assert forall|m: int|
                            0 <= m < ns@.len() implies (#[trigger] ns@[m] as int) < n && (
                        ns@[m] as int) != i as int && (ns@[m] as int) != bb && in_range_s(
                            orig,
                            i as int,
                            ns@[m] as int,
                            p.cohesion_range as int,
                        ) && nd2(orig, i as int, ns@[m] as int) <= nd2(orig, i as int, bb) by {
                            if ns@[m] == bb as usize {
                                assert(ns@.contains(bb as usize));
                            }
                            assert(cur[ns@[m] as int].translation == orig[ns@[m] as int].translation);
                            assert(nd2(cur, i as int, ns@[m] as int) == nd2(
                                orig,
                                i as int,
                                ns@[m] as int,
                            ));
                            assert(nd2(cur, i as int, ns@[m] as int) <= nd2(cur, i as int, bb));
                        }
                        assert((ns@.len()) == p.max_neighbors as int);
                        assert(cap_blocked(orig, i as int, bb, p.max_neighbors as int,
                            p.cohesion_range as int));
                    }
                }
            }
            i += 1;
            proof {
                assert(pairs@.len() <= (i - 1) * (p.max_neighbors as int) + (
                p.max_neighbors as int));
                assert((i - 1) * (p.max_neighbors as int) + (p.max_neighbors as int) == i * (
                p.max_neighbors as int)) by (nonlinear_arith);
                assert((i - 1) * (n as int) + (n as int) == i * (n as int)) by (nonlinear_arith);
            }
        }
        proof {
            assert(pairs@.len() <= (n as int) * (n as int));
            assert((n as int) * (n as int) <= (N_LIMIT as int) * (N_LIMIT as int))
                by (nonlinear_arith)
                requires
                    0 <= n <= N_LIMIT,
            ;
            assert(pairs@.len() * (PAIR_ACCEL_STEP as int) <= ACCEL_PHASE_MAX as int)
                by (nonlinear_arith)
                requires
                    0 <= pairs@.len() <= (N_LIMIT as int) * (N_LIMIT as int),
            ;
            assert(pairs@.len() * (PAIR_NVEL_STEP as int) <= NVEL_PHASE_MAX as int)
                by (nonlinear_arith)
                requires
                    0 <= pairs@.len() <= (N_LIMIT as int) * (N_LIMIT as int),
            ;
            assert forall|k: int|
                0 <= k < self.boids@.len() implies in_box(
                (#[trigger] self.boids@[k]).acceleration,
                ACCEL_PHASE_MAX as int,
            ) && in_box(self.boids@[k].neighbor_velocity, NVEL_PHASE_MAX as int) by {
                assert(in_box(self.boids@[k].acceleration, pairs@.len() * (
                PAIR_ACCEL_STEP as int)));
            }
            assert forall|a: int, b: int|
                0 <= a < b < n && #[trigger] in_range_s(orig, a, b, p.cohesion_range as int)
                    && !pairs@.contains((a as usize, b as usize)) implies cap_blocked(
                orig,
                a,
                b,
                p.max_neighbors as int,
                p.cohesion_range as int,
            ) && cap_blocked(orig, b, a, p.max_neighbors as int, p.cohesion_range as int) by {
                assert(key_s(a as usize, b as usize) == (a as usize, b as usize));
                crate::vec3::lemma_dist2_symmetric(
                    orig[a].translation,
                    orig[b].translation,
                );
                assert(nd2(orig, b, a) == nd2(orig, a, b));
                assert(in_range_s(orig, b, a, p.cohesion_range as int));
                assert(key_s(b as usize, a as usize) == (a as usize, b as usize));
            }
            assert(pairs_complete(orig, pairs@, p.max_neighbors as int,
                p.cohesion_range as int));
        }
        pairs
    }
}

/// The flock with every agent's accumulators cleared.
pub open spec fn reset_all_s(bs: Seq<Boid>) -> Seq<Boid> {
    Seq::new(bs.len(), |k: int| boid_reset_s(bs[k]))
}

/// What one tick does: there is a well-formed, deduplicated and
/// complete pair list — each key in range, no key twice, at most
/// `max_neighbors` keys per agent, and no in-range pair missing unless
/// both of its agents had their caps filled by closer neighbors — such
/// that the new flock is exactly the old one with both accumulators
/// reset, the pair list scored, and every agent's self-rules
/// (attraction, alignment, coherence, integration, speed clamp,
/// motion) applied.
pub open spec fn tick_rel(pre: Seq<Boid>, post: Seq<Boid>, p: SimParams) -> bool {
    exists|ps: Seq<(usize, usize)>|
        {
            let start = reset_all_s(pre);
            let mid = apply_pairs_s(start, ps, p);
            &&& #[trigger] pairs_wf(reset_all_s(pre), ps, p)
            &&& pairs_complete(reset_all_s(pre), ps, p.max_neighbors as int,
                p.cohesion_range as int)
            &&& ps.len() <= pre.len() * (p.max_neighbors as int)
            &&& ps.len() <= pre.len() * pre.len()
            &&& (p.cohesion_range == 0 ==> ps.len() == 0)
            &&& post.len() == pre.len()
            &&& (forall|k: int| 0 <= k < pre.len() ==> post[k] == self_rules_s(#[trigger] mid[k], p))
        }
}

impl BoidsSimulation {
    /// One tick of the update engine. The rule set never changes, the
    /// flock keeps its size and stays well-formed, every agent's speed
    /// lands inside the configured band up to fixed-point rounding, and
    /// the new state is related to the old one exactly as `tick_rel`
    /// states.
    pub fn update(&mut self)
        requires
            old(self).wf(),
        ensures
            final(self).wf(),
            final(self).params == old(self).params,
            final(self).boids@.len() == old(self).boids@.len(),
            tick_rel(old(self).boids@, final(self).boids@, old(self).params),
            old(self).params.min_speed >= 8 ==> forall|k: int|
                0 <= k < final(self).boids@.len() ==> speed_banded(
                    (#[trigger] final(self).boids@[k]).velocity,
                    old(self).params.min_speed as int,
                    old(self).params.max_speed as int,
                ),
    {
        let ghost pre = self.boids@;
        let ghost p = self.params;
        let n = self.boids.len();

        // Reset both accumulators of every agent.
        let mut i: usize = 0;
        while i < n
            invariant
                self.params == p,
                n == self.boids@.len(),
                n == pre.len(),
                i <= n,
                forall|k: int| 0 <= k < i ==> self.boids@[k] == boid_reset_s(#[trigger] pre[k]),
                forall|k: int| i <= k < n ==> self.boids@[k] == #[trigger] pre[k],
            decreases n - i,
        {
            let mut b = self.boids[i];
            b.reset();
            self.boids[i] = b;
            i += 1;
        }
        proof {
            assert(self.boids@ =~= reset_all_s(pre));
            assert(boids_wf(self.boids@));
        }

        // Score every in-range pair exactly once.
        let ghost start = self.boids@;
        let pairs = self.accumulate_pairs();
        let ghost mid = self.boids@;
        proof {
            assert forall|k: int|
                0 <= k < n implies in_box((#[trigger] mid[k]).translation, POS_LIMIT as int)
                && in_box(mid[k].velocity, SPEED_LIMIT as int) && in_box(
                mid[k].acceleration,
                ACCEL_PHASE_MAX as int,
            ) && in_box(mid[k].neighbor_velocity, NVEL_PHASE_MAX as int) && mid[k].id == k by {
                assert(mid[k].translation == start[k].translation);
                assert(start[k] == boid_reset_s(pre[k]));
            }
        }

        // Per-agent self-rules, in id order.
        let mut i2: usize = 0;
        while i2 < n
            invariant
                self.params == p,
                p.wf(),
                n == self.boids@.len(),
                n == mid.len(),
                i2 <= n,
                forall|k: int|
                    0 <= k < n ==> in_box((#[trigger] mid[k]).translation, POS_LIMIT as int)
                        && in_box(mid[k].velocity, SPEED_LIMIT as int) && in_box(
                        mid[k].acceleration,
                        ACCEL_PHASE_MAX as int,
                    ) && in_box(mid[k].neighbor_velocity, NVEL_PHASE_MAX as int) && mid[k].id == k,
                forall|k: int| 0 <= k < i2 ==> self.boids@[k] == self_rules_s(#[trigger] mid[k], p),
                forall|k: int| i2 <= k < n ==> self.boids@[k] == #[trigger] mid[k],
                forall|k: int|
                    0 <= k < i2 ==> in_box((#[trigger] self.boids@[k]).translation, POS_LIMIT as int)
                        && in_box(self.boids@[k].velocity, SPEED_LIMIT as int)
                        && self.boids@[k].id == k,
                p.min_speed >= 8 ==> forall|k: int|
                    0 <= k < i2 ==> speed_banded(
                        (#[trigger] self.boids@[k]).velocity,
                        p.min_speed as int,
                        p.max_speed as int,
                    ),
            decreases n - i2,
        {
            proof {
                assert(self.boids@[i2 as int] == mid[i2 as int]);
                assert(in_box(mid[i2 as int].translation, POS_LIMIT as int));
            }
            let b = self.boids[i2];
            let nb = apply_self_rules_one(b, &self.params);
            self.boids[i2] = nb;
            i2 += 1;
            proof {
                assert(self.boids@[i2 - 1] == nb);
                assert(in_box(nb.velocity, p.max_speed as int));
                assert(in_box(nb.velocity, SPEED_LIMIT as int));
            }
        }
        proof {
            assert(boids_wf(self.boids@));
            let ghost ps = pairs@;
            assert(pairs_wf(reset_all_s(pre), ps, p));
            assert(tick_rel(pre, self.boids@, p));
        }
    }
}

} // verus!
