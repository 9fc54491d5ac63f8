//! A three-dimensional boids flocking simulator over fixed-point
//! arithmetic.
//!
//! Every scalar is an `i64` in `math::SCALE` sub-units per world unit,
//! so each tick of the update engine is an exactly specified function
//! of the previous state: neighbor search with a per-agent cap, pairwise
//! separation/cohesion/alignment scoring with each unordered pair
//! scored at most once, then per-agent attraction, blending, integration,
//! speed clamping and motion. The laws of the engine — force symmetry,
//! range cutoff, the speed band, slerp endpoints — are stated and proved
//! in `laws`.

pub mod math;
pub mod vec3;
pub mod rot;
pub mod boid;
pub mod params;
pub mod spatial;
pub mod sim;
pub mod laws;
pub mod rng;
pub mod gen;
pub mod presets;
pub mod sims;
pub mod demos;
pub mod control;

pub use math::SCALE;
