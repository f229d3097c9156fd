use vstd::prelude::*;

verus! {

/// Simulation ticks per second of the fixed-timestep driver.
pub const FRAMES_PER_SEC: u64 = 30;

/// Length of one simulation tick in microseconds (1/30 of a second,
/// rounded down).
pub const FRAME_LENGTH_US: u64 = 1_000_000 / FRAMES_PER_SEC;

/// Side length of the square board, in pixels.
pub const SIZE: u32 = 800;

/// Number of cells along each side of the board.
pub const CELLS: u32 = 8;

/// Side length of one grid cell, in pixels.
pub const CELL_SIZE: u32 = SIZE / CELLS;

} // verus!
