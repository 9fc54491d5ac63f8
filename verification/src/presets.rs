//! The demonstration presets: named parameter bundles that switch the
//! rules on one at a time, and the factory that instantiates a flock
//! from one.

use vstd::prelude::*;

verus! {

use crate::boid::Boid;
use crate::gen::spawned;
use crate::params::SimParams;
use crate::sim::{tick_rel, BoidsSimulation};
use crate::vec3::Vec3;

/// One world unit of the small scenes (`0.03` world units).
pub const SCALE_SMALL: i64 = 30_000;

/// One world unit of the large scenes (`0.01` world units).
pub const SCALE_BIG: i64 = 10_000;

/// Radius of the generation ball (`0.1` world units).
pub const GEN_RADIUS: i64 = 100_000;

/// Minimum attraction range of the attracting scenes (`0.1` world
/// units).
pub const ATTRACTION_RANGE: i64 = 100_000;

/// The closed set of boid scenes. Each successive preset switches on
/// one more rule.
#[derive(Clone, Copy, PartialEq, Eq, Structural, Debug)]
pub enum Preset {
    NoConstraints,
    Cohesion,
    Separation,
    Alignment,
    Attraction,
    Coherence,
    Neighbors5Small,
    Neighbors5Big,
    Leaders,
}

impl Preset {
    /// How many agents the preset's flock holds.
    pub open spec fn agent_count_s(self) -> usize {
        match self {
            Preset::NoConstraints => 1000usize,
            Preset::Cohesion => 100usize,
            Preset::Separation => 100usize,
            Preset::Alignment => 100usize,
            Preset::Attraction => 100usize,
            Preset::Coherence => 100usize,
            Preset::Neighbors5Small => 100usize,
            Preset::Neighbors5Big => 2000usize,
            Preset::Leaders => 500usize,
        }
    }

    /// The preset's world scale.
    pub open spec fn scale_s(self) -> i64 {
        match self {
            Preset::Neighbors5Big => SCALE_BIG,
            Preset::Leaders => SCALE_BIG,
            _ => SCALE_SMALL,
        }
    }

    /// The preset's rule set: ranges of one and five scale units,
    /// blending weights of one tenth and one half, a speed band of one
    /// hundredth to one tenth of a scale unit, each switched on in
    /// turn.
    pub open spec fn params_s(self) -> SimParams {
        let scale = self.scale_s();
        let base = SimParams {
            attraction_center: Vec3 { x: 0i64, y: 0i64, z: 0i64 },
            attraction_min_range: Option::None,
            separation_range: scale,
            cohesion_range: (5 * scale) as i64,
            alignment_strength: 100_000i64,
            coherence_strength: 500_000i64,
            max_speed: (scale as int / 10) as i64,
            min_speed: (scale as int / 100) as i64,
            max_neighbors: usize::MAX,
        };
        match self {
            Preset::NoConstraints => SimParams {
                separation_range: 0i64,
                cohesion_range: 0i64,
                alignment_strength: 0i64,
                coherence_strength: 0i64,
                ..base
            },
            Preset::Cohesion => SimParams {
                separation_range: 0i64,
                alignment_strength: 0i64,
                coherence_strength: 0i64,
                ..base
            },
            Preset::Separation => SimParams {
                alignment_strength: 0i64,
                coherence_strength: 0i64,
                ..base
            },
            Preset::Alignment => SimParams { coherence_strength: 0i64, ..base },
            Preset::Attraction => SimParams {
                attraction_min_range: Option::Some(ATTRACTION_RANGE),
                coherence_strength: 0i64,
                ..base
            },
            Preset::Coherence => SimParams {
                attraction_min_range: Option::Some(ATTRACTION_RANGE),
                ..base
            },
            Preset::Neighbors5Small => SimParams {
                attraction_min_range: Option::Some(ATTRACTION_RANGE),
                max_neighbors: 5usize,
                ..base
            },
            Preset::Neighbors5Big => SimParams {
                attraction_min_range: Option::Some(ATTRACTION_RANGE),
                max_neighbors: 5usize,
                ..base
            },
            Preset::Leaders => SimParams {
                attraction_min_range: Option::Some(ATTRACTION_RANGE),
                max_neighbors: 5usize,
                ..base
            },
        }
    }

    pub fn agent_count(self) -> (n: usize)
        ensures
            n == self.agent_count_s(),
    {
        match self {
            Preset::NoConstraints => 1000,
            Preset::Cohesion => 100,
            Preset::Separation => 100,
            Preset::Alignment => 100,
            Preset::Attraction => 100,
            Preset::Coherence => 100,
            Preset::Neighbors5Small => 100,
            Preset::Neighbors5Big => 2000,
            Preset::Leaders => 500,
        }
    }

    /// The preset's rule set, as a valid `SimParams`.
    pub fn params(self) -> (r: SimParams)
        ensures
            r == self.params_s(),
            r.wf(),
    {
        let scale: i64 = match self {
            Preset::Neighbors5Big => SCALE_BIG,
            Preset::Leaders => SCALE_BIG,
            _ => SCALE_SMALL,
        };
        let mut p = SimParams {
            attraction_center: Vec3::zero(),
            attraction_min_range: None,
            separation_range: scale,
            cohesion_range: 5 * scale,
            alignment_strength: 100_000,
            coherence_strength: 500_000,
            max_speed: scale / 10,
            min_speed: scale / 100,
            max_neighbors: usize::MAX,
        };
        match self {
            Preset::NoConstraints => {
                p.separation_range = 0;
                p.cohesion_range = 0;
                p.alignment_strength = 0;
                p.coherence_strength = 0;
            },
            Preset::Cohesion => {
                p.separation_range = 0;
                p.alignment_strength = 0;
                p.coherence_strength = 0;
            },
            Preset::Separation => {
                p.alignment_strength = 0;
                p.coherence_strength = 0;
            },
            Preset::Alignment => {
                p.coherence_strength = 0;
            },
            Preset::Attraction => {
                p.attraction_min_range = Some(ATTRACTION_RANGE);
                p.coherence_strength = 0;
            },
            Preset::Coherence => {
                p.attraction_min_range = Some(ATTRACTION_RANGE);
            },
            Preset::Neighbors5Small => {
                p.attraction_min_range = Some(ATTRACTION_RANGE);
                p.max_neighbors = 5;
            },
            Preset::Neighbors5Big => {
                p.attraction_min_range = Some(ATTRACTION_RANGE);
                p.max_neighbors = 5;
            },
            Preset::Leaders => {
                p.attraction_min_range = Some(ATTRACTION_RANGE);
                p.max_neighbors = 5;
            },
        }
        p
    }

    /// Instantiate the preset: a well-formed simulation with the
    /// preset's rule set and a freshly generated flock — every agent
    /// inside the generation ball, accumulators zero, speed inside the
    /// preset's band up to the fixed-point slack.
    pub fn build(self, rng: &mut rand::rngs::StdRng) -> (sim: BoidsSimulation)
        ensures
            sim.wf(),
            sim.params == self.params_s(),
            sim.boids@.len() == self.agent_count_s(),
            spawned(
                sim.boids@,
                self.agent_count_s() as int,
                GEN_RADIUS as int,
                self.params_s().min_speed as int,
                self.params_s().max_speed as int,
            ),
    {
        let params = self.params();
        let n = self.agent_count();
        let boids = Boid::generate_sphere(n, GEN_RADIUS, params.min_speed, params.max_speed, rng);
        BoidsSimulation { boids, params }
    }
}

} // verus!
