//! The forest: trees grown by rewriting and drawn by a turtle.

pub mod draw;
pub mod geometry;
pub mod lsystem;
pub mod model;
pub mod settings;
pub mod turtle;
