//! The verified core of an interactive scene program: a flock of boids, a
//! pond of fish, a flow field and an L-system forest.
//!
//! Everything here is exact: integers, indices, orders, buffers and
//! decisions. Real-valued geometry stays with the caller and enters either as
//! a type parameter that is only carried, or as a function that is asked.

pub mod arith;
pub mod bytes;
pub mod cli;
pub mod fish;
pub mod flock;
pub mod flow;
pub mod forest;
pub mod layout;
pub mod mesh;
pub mod oracle;
pub mod pattern;
mod random;
pub mod rng;
pub mod shell;
pub mod text;
