//! The boid scenes, one type per preset, each wrapping a configured
//! simulation.

use vstd::prelude::*;

verus! {

use crate::gen::spawned;
use crate::presets::{Preset, GEN_RADIUS};
use crate::sim::{tick_rel, BoidsSimulation};

/// Scene around the `NoConstraints` preset: every rule switched off.
pub struct NoConstraintsSim {
    pub sim: BoidsSimulation,
}

impl NoConstraintsSim {
    pub fn init(rng: &mut rand::rngs::StdRng) -> (r: Self)
        ensures
            r.sim.wf(),
            r.sim.params == Preset::NoConstraints.params_s(),
            r.sim.boids@.len() == Preset::NoConstraints.agent_count_s(),
            spawned(
                r.sim.boids@,
                Preset::NoConstraints.agent_count_s() as int,
                GEN_RADIUS as int,
                Preset::NoConstraints.params_s().min_speed as int,
                Preset::NoConstraints.params_s().max_speed as int,
            ),
    {
        Self { sim: Preset::NoConstraints.build(rng) }
    }

    pub fn update(&mut self)
        requires
            old(self).sim.wf(),
        ensures
            final(self).sim.wf(),
            final(self).sim.params == old(self).sim.params,
            tick_rel(old(self).sim.boids@, final(self).sim.boids@, old(self).sim.params),
    {
        self.sim.update();
    }
}

/// Scene around the `Cohesion` preset: cohesion only.
pub struct CohesionSim {
    pub sim: BoidsSimulation,
}

impl CohesionSim {
    pub fn init(rng: &mut rand::rngs::StdRng) -> (r: Self)
        ensures
            r.sim.wf(),
            r.sim.params == Preset::Cohesion.params_s(),
            r.sim.boids@.len() == Preset::Cohesion.agent_count_s(),
            spawned(
                r.sim.boids@,
                Preset::Cohesion.agent_count_s() as int,
                GEN_RADIUS as int,
                Preset::Cohesion.params_s().min_speed as int,
                Preset::Cohesion.params_s().max_speed as int,
            ),
    {
        Self { sim: Preset::Cohesion.build(rng) }
    }

    pub fn update(&mut self)
        requires
            old(self).sim.wf(),
        ensures
            final(self).sim.wf(),
            final(self).sim.params == old(self).sim.params,
            tick_rel(old(self).sim.boids@, final(self).sim.boids@, old(self).sim.params),
    {
        self.sim.update();
    }
}

/// Scene around the `Separation` preset: separation and cohesion.
pub struct SeparationSim {
    pub sim: BoidsSimulation,
}

impl SeparationSim {
    pub fn init(rng: &mut rand::rngs::StdRng) -> (r: Self)
        ensures
            r.sim.wf(),
            r.sim.params == Preset::Separation.params_s(),
            r.sim.boids@.len() == Preset::Separation.agent_count_s(),
            spawned(
                r.sim.boids@,
                Preset::Separation.agent_count_s() as int,
                GEN_RADIUS as int,
                Preset::Separation.params_s().min_speed as int,
                Preset::Separation.params_s().max_speed as int,
            ),
    {
        Self { sim: Preset::Separation.build(rng) }
    }

    pub fn update(&mut self)
        requires
            old(self).sim.wf(),
        ensures
            final(self).sim.wf(),
            final(self).sim.params == old(self).sim.params,
            tick_rel(old(self).sim.boids@, final(self).sim.boids@, old(self).sim.params),
    {
        self.sim.update();
    }
}

/// Scene around the `Alignment` preset: the three pairwise rules.
pub struct AlignmentSim {
    pub sim: BoidsSimulation,
}

impl AlignmentSim {
    pub fn init(rng: &mut rand::rngs::StdRng) -> (r: Self)
        ensures
            r.sim.wf(),
            r.sim.params == Preset::Alignment.params_s(),
            r.sim.boids@.len() == Preset::Alignment.agent_count_s(),
            spawned(
                r.sim.boids@,
                Preset::Alignment.agent_count_s() as int,
                GEN_RADIUS as int,
                Preset::Alignment.params_s().min_speed as int,
                Preset::Alignment.params_s().max_speed as int,
            ),
    {
        Self { sim: Preset::Alignment.build(rng) }
    }

    pub fn update(&mut self)
        requires
            old(self).sim.wf(),
        ensures
            final(self).sim.wf(),
            final(self).sim.params == old(self).sim.params,
            tick_rel(old(self).sim.boids@, final(self).sim.boids@, old(self).sim.params),
    {
        self.sim.update();
    }
}

/// Scene around the `Attraction` preset: pairwise rules plus the global
/// pull.
pub struct AttractionSim {
    pub sim: BoidsSimulation,
}

impl AttractionSim {
    pub fn init(rng: &mut rand::rngs::StdRng) -> (r: Self)
        ensures
            r.sim.wf(),
            r.sim.params == Preset::Attraction.params_s(),
            r.sim.boids@.len() == Preset::Attraction.agent_count_s(),
            spawned(
                r.sim.boids@,
                Preset::Attraction.agent_count_s() as int,
                GEN_RADIUS as int,
                Preset::Attraction.params_s().min_speed as int,
                Preset::Attraction.params_s().max_speed as int,
            ),
    {
        Self { sim: Preset::Attraction.build(rng) }
    }

    pub fn update(&mut self)
        requires
            old(self).sim.wf(),
        ensures
            final(self).sim.wf(),
            final(self).sim.params == old(self).sim.params,
            tick_rel(old(self).sim.boids@, final(self).sim.boids@, old(self).sim.params),
    {
        self.sim.update();
    }
}

/// Scene around the `Coherence` preset: every rule switched on.
pub struct CoherenceSim {
    pub sim: BoidsSimulation,
}

impl CoherenceSim {
    pub fn init(rng: &mut rand::rngs::StdRng) -> (r: Self)
        ensures
            r.sim.wf(),
            r.sim.params == Preset::Coherence.params_s(),
            r.sim.boids@.len() == Preset::Coherence.agent_count_s(),
            spawned(
                r.sim.boids@,
                Preset::Coherence.agent_count_s() as int,
                GEN_RADIUS as int,
                Preset::Coherence.params_s().min_speed as int,
                Preset::Coherence.params_s().max_speed as int,
            ),
    {
        Self { sim: Preset::Coherence.build(rng) }
    }

    pub fn update(&mut self)
        requires
            old(self).sim.wf(),
        ensures
            final(self).sim.wf(),
            final(self).sim.params == old(self).sim.params,
            tick_rel(old(self).sim.boids@, final(self).sim.boids@, old(self).sim.params),
    {
        self.sim.update();
    }
}

/// Scene around the `Neighbors5Small` preset: all rules, five
/// neighbors per agent.
pub struct Neighbors5SmallSim {
    pub sim: BoidsSimulation,
}

impl Neighbors5SmallSim {
    pub fn init(rng: &mut rand::rngs::StdRng) -> (r: Self)
        ensures
            r.sim.wf(),
            r.sim.params == Preset::Neighbors5Small.params_s(),
            r.sim.boids@.len() == Preset::Neighbors5Small.agent_count_s(),
            spawned(
                r.sim.boids@,
                Preset::Neighbors5Small.agent_count_s() as int,
                GEN_RADIUS as int,
                Preset::Neighbors5Small.params_s().min_speed as int,
                Preset::Neighbors5Small.params_s().max_speed as int,
            ),
    {
        Self { sim: Preset::Neighbors5Small.build(rng) }
    }

    pub fn update(&mut self)
        requires
            old(self).sim.wf(),
        ensures
            final(self).sim.wf(),
            final(self).sim.params == old(self).sim.params,
            tick_rel(old(self).sim.boids@, final(self).sim.boids@, old(self).sim.params),
    {
        self.sim.update();
    }
}

/// Scene around the `Neighbors5Big` preset: a large flock at the small
/// world scale.
pub struct Neighbors5BigSim {
    pub sim: BoidsSimulation,
}

impl Neighbors5BigSim {
    pub fn init(rng: &mut rand::rngs::StdRng) -> (r: Self)
        ensures
            r.sim.wf(),
            r.sim.params == Preset::Neighbors5Big.params_s(),
            r.sim.boids@.len() == Preset::Neighbors5Big.agent_count_s(),
            spawned(
                r.sim.boids@,
                Preset::Neighbors5Big.agent_count_s() as int,
                GEN_RADIUS as int,
                Preset::Neighbors5Big.params_s().min_speed as int,
                Preset::Neighbors5Big.params_s().max_speed as int,
            ),
    {
        Self { sim: Preset::Neighbors5Big.build(rng) }
    }

    pub fn update(&mut self)
        requires
            old(self).sim.wf(),
        ensures
            final(self).sim.wf(),
            final(self).sim.params == old(self).sim.params,
            tick_rel(old(self).sim.boids@, final(self).sim.boids@, old(self).sim.params),
    {
        self.sim.update();
    }
}

/// Scene around the `Leaders` preset: a middling flock at the large
/// world scale.
pub struct LeadersSim {
    pub sim: BoidsSimulation,
}

impl LeadersSim {
    pub fn init(rng: &mut rand::rngs::StdRng) -> (r: Self)
        ensures
            r.sim.wf(),
            r.sim.params == Preset::Leaders.params_s(),
            r.sim.boids@.len() == Preset::Leaders.agent_count_s(),
            spawned(
                r.sim.boids@,
                Preset::Leaders.agent_count_s() as int,
                GEN_RADIUS as int,
                Preset::Leaders.params_s().min_speed as int,
                Preset::Leaders.params_s().max_speed as int,
            ),
    {
        Self { sim: Preset::Leaders.build(rng) }
    }

    pub fn update(&mut self)
        requires
            old(self).sim.wf(),
        ensures
            final(self).sim.wf(),
            final(self).sim.params == old(self).sim.params,
            tick_rel(old(self).sim.boids@, final(self).sim.boids@, old(self).sim.params),
    {
        self.sim.update();
    }
}

} // verus!
