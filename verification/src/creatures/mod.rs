//! The first version of the creatures: integer gauges and four-way movement.

pub mod components;
pub mod systems;

pub use components::{
    Corpse, Decay, Dinosaur, Direction, Egg, Genes, Health, Hungry, Mortal, Plant, Starving, Wanderer,
};
