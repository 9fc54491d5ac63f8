//! One flock member and its spatial-index record.

use vstd::prelude::*;

verus! {

use crate::math::POS_LIMIT;
use crate::vec3::{in_box, norm_s, vnorm, vsub, vsub_s, Vec3};

/// A flocking agent: position, velocity and the two per-tick
/// accumulators. `id` equals the agent's index in its flock.
#[derive(Clone, Copy, PartialEq, Eq, Structural, Debug)]
pub struct Boid {
    pub id: usize,
    pub translation: Vec3,
    pub velocity: Vec3,
    pub acceleration: Vec3,
    pub neighbor_velocity: Vec3,
}

pub open spec fn zero_v() -> Vec3 {
    Vec3 { x: 0i64, y: 0i64, z: 0i64 }
}

/// The agent as it stands at the start of a tick: both accumulators
/// cleared, position, velocity and identity untouched.
pub open spec fn boid_reset_s(b: Boid) -> Boid {
    Boid { acceleration: zero_v(), neighbor_velocity: zero_v(), ..b }
}

impl Boid {
    /// A fresh agent; the neighbor-velocity accumulator starts at zero.
    pub fn new(id: usize, translation: Vec3, velocity: Vec3, acceleration: Vec3) -> (r: Boid)
        ensures
            r.id == id,
            r.translation == translation,
            r.velocity == velocity,
            r.acceleration == acceleration,
            r.neighbor_velocity == zero_v(),
    {
        Boid { id, translation, velocity, acceleration, neighbor_velocity: Vec3::zero() }
    }

    /// Clear both per-tick accumulators.
    pub fn reset(&mut self)
        ensures
            *final(self) == boid_reset_s(*old(self)),
    {
        self.acceleration = Vec3::zero();
        self.neighbor_velocity = Vec3::zero();
    }

    /// The agent's record for the spatial index.
    pub fn desc(&self) -> (r: BoidDesc)
        ensures
            r.id == self.id,
            r.position == self.translation,
    {
        BoidDesc { id: self.id, position: self.translation }
    }
}

/// What the spatial index stores per agent: its identity and position.
#[derive(Clone, Copy, PartialEq, Eq, Structural, Debug)]
pub struct BoidDesc {
    pub id: usize,
    pub position: Vec3,
}

impl BoidDesc {
    pub fn new(id: usize, position: Vec3) -> (r: BoidDesc)
        ensures
            r.id == id,
            r.position == position,
    {
        BoidDesc { id, position }
    }

    /// Euclidean distance from this record's position to `point`.
    pub fn distance_2(&self, point: &Vec3) -> (r: i64)
        requires
            in_box(self.position, POS_LIMIT as int),
            in_box(*point, POS_LIMIT as int),
        ensures
            r == norm_s(vsub_s(self.position, *point)),
            0 <= r,
    {
        let d = vsub(self.position, *point);
        vnorm(d)
    }
}

} // verus!
