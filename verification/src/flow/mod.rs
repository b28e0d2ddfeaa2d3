//! The flow field: directions from noise, and what rides on them.

pub mod draw;
pub mod field;
pub mod noise;
pub mod particles;
pub mod palette;
pub mod settings;
pub mod state;
pub mod strokes;
