//! A vehicle controller whose wheels are cylinders cast against the ground,
//! and the mass-ratio clamp of its constraint solver, over fixed-point
//! numbers.
pub mod bodies;
pub mod body_laws;
pub mod exact;
pub mod mass_clamp;
pub mod math;
pub mod rotation_laws;
pub mod scalar;
pub mod scalar_lemmas;
pub mod transcendental;
pub mod vehicle;
