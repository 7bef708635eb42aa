//! The kinds of matter, their properties, and the local rule by which each
//! one changes from one tick to the next.
pub mod burnability;
pub mod constants;
pub mod neighborhood;
pub mod particle;
pub mod rules;
pub mod species;

pub use burnability::{Burnability, PropertyCheckResult};
pub use neighborhood::{NeighborCell, Neighborhood};
pub use particle::{Dice, MatterType, Particle, ParticleChange, Species, Transition};
pub use species::{Fly, Mud, Oil, Rock, Sand, Smoke, Spark, Static, Vapor, Water, Wood};
