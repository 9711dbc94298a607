//! The per-tick rules: what each creature does with the map around it.

pub mod ai;
pub mod food;
pub mod lifecycle;
pub mod reproduction;
