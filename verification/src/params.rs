//! The tunable rule set of a simulation.

use vstd::prelude::*;

verus! {

use crate::math::{POS_LIMIT, RANGE_LIMIT, SCALE, SPEED_LIMIT};
use crate::vec3::{in_box, Vec3};

/// The parameter bundle that drives every rule of the update engine.
/// `attraction_min_range` is `None` when attraction is switched off
/// (an unbounded minimum range).
#[derive(Clone, Copy, Debug)]
pub struct SimParams {
    pub attraction_center: Vec3,
    pub attraction_min_range: Option<i64>,
    pub separation_range: i64,
    pub cohesion_range: i64,
    pub alignment_strength: i64,
    pub coherence_strength: i64,
    pub max_speed: i64,
    pub min_speed: i64,
    pub max_neighbors: usize,
}

impl SimParams {
    /// A valid rule set: ranges ordered and bounded, blending weights
    /// inside `[0, SCALE]`, speed bounds ordered.
    pub open spec fn wf(self) -> bool {
        &&& in_box(self.attraction_center, POS_LIMIT as int)
        &&& (match self.attraction_min_range {
            Option::Some(a) => 0 <= a <= POS_LIMIT,
            Option::None => true,
        })
        &&& 0 <= self.separation_range <= self.cohesion_range <= RANGE_LIMIT
        &&& 0 <= self.alignment_strength <= SCALE
        &&& 0 <= self.coherence_strength <= SCALE
        &&& 0 <= self.min_speed <= self.max_speed <= SPEED_LIMIT
    }

    /// Build a rule set, rejecting exactly the invalid combinations:
    /// a separation range above the cohesion range, a minimum speed
    /// above the maximum, or any magnitude outside its limit.
    pub fn new(
        attraction_center: Vec3,
        attraction_min_range: Option<i64>,
        separation_range: i64,
        cohesion_range: i64,
        alignment_strength: i64,
        coherence_strength: i64,
        max_speed: i64,
        min_speed: i64,
        max_neighbors: usize,
    ) -> (r: Option<SimParams>)
        ensures
            r is Some <==> (SimParams {
                attraction_center,
                attraction_min_range,
                separation_range,
                cohesion_range,
                alignment_strength,
                coherence_strength,
                max_speed,
                min_speed,
                max_neighbors,
            }).wf(),
            r is Some ==> r->Some_0 == (SimParams {
                attraction_center,
                attraction_min_range,
                separation_range,
                cohesion_range,
                alignment_strength,
                coherence_strength,
                max_speed,
                min_speed,
                max_neighbors,
            }),
    {
        let center_ok = attraction_center.x >= -POS_LIMIT && attraction_center.x <= POS_LIMIT
            && attraction_center.y >= -POS_LIMIT && attraction_center.y <= POS_LIMIT
            && attraction_center.z >= -POS_LIMIT && attraction_center.z <= POS_LIMIT;
        let amr_ok = match attraction_min_range {
            Option::Some(a) => 0 <= a && a <= POS_LIMIT,
            Option::None => true,
        };
        let ranges_ok = 0 <= separation_range && separation_range <= cohesion_range
            && cohesion_range <= RANGE_LIMIT;
        let strengths_ok = 0 <= alignment_strength && alignment_strength <= SCALE
            && 0 <= coherence_strength && coherence_strength <= SCALE;
        let speeds_ok = 0 <= min_speed && min_speed <= max_speed && max_speed <= SPEED_LIMIT;
        if center_ok && amr_ok && ranges_ok && strengths_ok && speeds_ok {
            Some(
                SimParams {
                    attraction_center,
                    attraction_min_range,
                    separation_range,
                    cohesion_range,
                    alignment_strength,
                    coherence_strength,
                    max_speed,
                    min_speed,
                    max_neighbors,
                },
            )
        } else {
            None
        }
    }
}

} // verus!
