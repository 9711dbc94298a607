//! The creatures: their components, how they move on the grid, how their
//! traits pass on, and the per-tick rules that drive them.

pub mod components;
pub mod genetics;
pub mod movement;
pub mod spawn;
pub mod systems;

pub use movement::{chebyshev, neighborhood, step, MAX_SEEK_RADIUS};
pub use components::{Corpse, DinoState, Direction, Egg, Gender, Grass, Herbivore, Plant};
