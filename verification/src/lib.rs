//! Game-state core of a grid Sokoban puzzle: level parsing, movement
//! legality, push resolution, and a fixed-timestep update driver.
//!
//! Rendering, input wiring and the host frame callback are platform
//! concerns and live outside this crate; the core exchanges plain
//! values (cells, pixel coordinates, microsecond timestamps) with them.

pub mod constants;
pub mod engine;
pub mod game;
pub mod grid;
