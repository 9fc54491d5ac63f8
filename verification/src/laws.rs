//! The laws of the update engine, stated and proved over the same
//! specification functions the executable contracts use.

use vstd::prelude::*;

verus! {

use crate::boid::Boid;
use crate::params::SimParams;
use crate::sim::{
    apply_pairs_s, attract_s, clamp_speed_s, pairs_wf, score_pair_s, ACCEL_PHASE_MAX,
    PAIR_ACCEL_STEP,
};
use crate::vec3::{
    dist2_s, in_box, lemma_scaled_norm, norm_s, slerp_s, vadd_s, vneg_s, vsub_s, Vec3,
    VEC_NORM_LIMIT,
};
use crate::math::{POS_LIMIT, SCALE, SPEED_LIMIT};

/// Pairwise symmetry: within one scoring of a pair, the force added to
/// the first agent's acceleration is the exact negation of the force
/// added to the second agent's.
pub proof fn lemma_pair_force_symmetric(bi: Boid, bj: Boid, p: SimParams)
    requires
        p.wf(),
        in_box(bi.translation, POS_LIMIT as int),
        in_box(bj.translation, POS_LIMIT as int),
        in_box(bi.acceleration, ACCEL_PHASE_MAX - PAIR_ACCEL_STEP),
        in_box(bj.acceleration, ACCEL_PHASE_MAX - PAIR_ACCEL_STEP),
    ensures
        vsub_s(score_pair_s(bi, bj, p).0.acceleration, bi.acceleration) == vneg_s(
            vsub_s(score_pair_s(bi, bj, p).1.acceleration, bj.acceleration),
        ),
{
    crate::sim::lemma_pair_force(bi, bj, p);
    let f = crate::sim::pair_force_s(bi, bj, p);
    assert(vsub_s(vadd_s(bi.acceleration, f), bi.acceleration) == f);
    assert(vsub_s(vadd_s(bj.acceleration, vneg_s(f)), bj.acceleration) == vneg_s(f));
    assert(vneg_s(vneg_s(f)) == f);
}

/// Cutoff: a pair farther apart than the cohesion range, or any pair
/// when the cohesion range is zero, is never scored.
pub proof fn lemma_pair_cutoff(bi: Boid, bj: Boid, p: SimParams)
    requires
        p.cohesion_range == 0 || dist2_s(bi.translation, bj.translation) > (
        p.cohesion_range as int) * (p.cohesion_range as int),
    ensures
        score_pair_s(bi, bj, p) == (bi, bj),
{
}

/// A disabled attraction rule contributes exactly nothing.
pub proof fn lemma_attraction_disabled(b: Boid, p: SimParams)
    requires
        p.attraction_min_range is None,
    ensures
        attract_s(b, p) == b,
{
}

/// Slerp endpoints: interpolating by `0` returns the first vector, by
/// `SCALE` the second, exactly.
pub proof fn lemma_slerp_endpoints(u: Vec3, v: Vec3)
    ensures
        slerp_s(u, v, 0) == u,
        slerp_s(u, v, SCALE as int) == v,
{
}

/// With a zero cohesion range no pairwise rule ever fires: a
/// well-formed pair list is empty, and scoring it leaves every agent
/// untouched.
pub proof fn lemma_cohesion_zero_no_pairs(bs: Seq<Boid>, ps: Seq<(usize, usize)>, p: SimParams)
    requires
        pairs_wf(bs, ps, p),
        p.cohesion_range == 0,
    ensures
        ps.len() == 0,
        apply_pairs_s(bs, ps, p) == bs,
{
    if ps.len() > 0 {
        assert(crate::spatial::in_range_s(bs, ps[0].0 as int, ps[0].1 as int,
            p.cohesion_range as int));
    }
}

/// A velocity whose norm already lies inside the speed band is left
/// unchanged by the clamp.
pub proof fn lemma_clamp_inside_band(v: Vec3, min_s: int, max_s: int)
    requires
        min_s <= norm_s(v) <= max_s,
    ensures
        clamp_speed_s(v, min_s, max_s) == v,
{
}

/// The speed clamp lands the norm inside the band, up to a rounding
/// slack of four sub-units: a velocity at or above the minimum speed
/// comes out between `min_s - 4` and `max_s`; a slower nonzero one is
/// boosted to between `min_s - 4` and `2 min_s`; the zero velocity is
/// left alone.
pub proof fn lemma_clamp_speed_norm(v: Vec3, min_s: int, max_s: int)
    requires
        in_box(v, VEC_NORM_LIMIT as int),
        8 <= min_s <= max_s <= SPEED_LIMIT,
    ensures
        norm_s(v) >= min_s ==> min_s - 4 <= norm_s(clamp_speed_s(v, min_s, max_s)) <= max_s,
        1 <= norm_s(v) < min_s ==> min_s - 4 <= norm_s(clamp_speed_s(v, min_s, max_s)) <= 2
            * min_s,
        norm_s(v) == 0 ==> clamp_speed_s(v, min_s, max_s) == v,
{
    let r = norm_s(v);
    if r >= min_s {
        if r > max_s {
            assert(max_s <= 1 * r) by (nonlinear_arith)
                requires
                    max_s <= r,
            ;
            lemma_scaled_norm(v, max_s, r, 1);
        }
    } else if r >= 1 {
        assert(min_s <= min_s * r) by (nonlinear_arith)
            requires
                1 <= r,
                0 <= min_s,
        ;
        lemma_scaled_norm(v, min_s, r, min_s);
    }
}

} // verus!
