//! The dungeon core of a terminal roguelike: procedural generation of
//! connected levels, movement-legality queries, an incremental
//! field-of-view with persistent seen-memory, and the screen state that
//! presents it.

pub mod basics;
pub mod levels;
pub mod races;
pub mod rng;
pub mod screen;
pub mod utils;
