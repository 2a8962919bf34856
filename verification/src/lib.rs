//! A tower-defence simulation on a fixed-point grid.

pub mod bullet;
pub mod command;
pub mod laws;
pub mod lifetime;
pub mod sequence;
pub mod target;
pub mod timer;
pub mod tower;
pub mod vector;
pub mod world;
