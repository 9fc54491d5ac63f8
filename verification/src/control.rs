//! The host-facing state machine: whether a simulation ticks, pauses,
//! or stops, and what one host step does in each state.

use vstd::prelude::*;

verus! {

use crate::presets::Preset;
use crate::sim::{tick_rel, BoidsSimulation};

/// The lifecycle of one simulation.
#[derive(Clone, Copy, PartialEq, Eq, Structural, Debug)]
pub enum SimState {
    Initialized,
    Running,
    Paused,
    Terminated,
}

/// Ask the host loop to stop: the simulation ends whatever state it was
/// in.
pub fn stop_simulation(state: &mut SimState)
    ensures
        *final(state) == SimState::Terminated,
{
    *state = SimState::Terminated;
}

/// The play/pause control: flips between running and paused, starts an
/// initialized simulation, and leaves a terminated one alone.
pub fn toggle_running(state: &mut SimState)
    ensures
        *old(state) == SimState::Running ==> *final(state) == SimState::Paused,
        *old(state) == SimState::Paused ==> *final(state) == SimState::Running,
        *old(state) == SimState::Initialized ==> *final(state) == SimState::Running,
        *old(state) == SimState::Terminated ==> *final(state) == SimState::Terminated,
{
    match state {
        SimState::Running => {
            *state = SimState::Paused;
        },
        SimState::Paused => {
            *state = SimState::Running;
        },
        SimState::Initialized => {
            *state = SimState::Running;
        },
        SimState::Terminated => {},
    }
}

/// Whether the update engine runs this host step.
pub fn should_tick(state: &SimState) -> (r: bool)
    ensures
        r <==> *state == SimState::Running,
{
    match state {
        SimState::Running => true,
        _ => false,
    }
}

/// One host step: the flock is updated exactly when the simulation is
/// running; a paused, initialized or terminated simulation is left
/// byte-for-byte unchanged, so any number of paused steps is a no-op.
pub fn host_step(sim: &mut BoidsSimulation, state: &SimState)
    requires
        old(sim).wf(),
    ensures
        final(sim).wf(),
        final(sim).params == old(sim).params,
        *state == SimState::Running ==> tick_rel(
            old(sim).boids@,
            final(sim).boids@,
            old(sim).params,
        ),
        *state != SimState::Running ==> *final(sim) == *old(sim),
{
    if should_tick(state) {
        sim.update();
    }
}

/// Restart: the current flock is dropped and a fresh one is built from
/// the preset; the old state does not influence the new one.
pub fn restart(sim: &mut BoidsSimulation, preset: Preset, rng: &mut rand::rngs::StdRng)
    ensures
        final(sim).wf(),
        final(sim).params == preset.params_s(),
        final(sim).boids@.len() == preset.agent_count_s(),
{
    *sim = preset.build(rng);
}

} // verus!
