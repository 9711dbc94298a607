//! Board bounds, grid positions and the occupancy grid.

pub mod board;
pub mod ids;
pub mod map;
pub mod occupancy;

pub use board::{Board, EntityId, Position, Renderable};
pub use ids::{contains_id, insert_id};
pub use map::WorldMap;
pub use occupancy::Occupancy;
