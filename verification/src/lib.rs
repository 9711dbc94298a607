//! Grid-world dinosaur sandbox: the board and its occupancy grid, movement on
//! the grid, the creatures' decision rules and the viewer's camera logic.

pub mod board;
pub mod config;
pub mod creatures;
pub mod simulation;
pub mod ui;
pub mod world;
