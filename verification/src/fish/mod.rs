//! The pond: fish that chase food, and the water around them.

pub mod body;
pub mod ear;
pub mod game;
pub mod layers;
pub mod outline;
pub mod paint;
pub mod picture;
pub mod pond;
pub mod ripples;
pub mod settings;
pub mod shape;
pub mod water;
