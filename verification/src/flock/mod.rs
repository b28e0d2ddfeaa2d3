//! The flock: many boids steering against their near neighbours.

pub mod gpu;
pub mod grid;
pub mod render;
pub mod rules;
pub mod runs;
pub mod settings;
pub mod sim;
pub mod size;
pub mod tuning;
