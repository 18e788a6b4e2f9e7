use vstd::prelude::*;

verus! {

/// Width of the frame in pixels.
pub const WIDTH: usize = 800;

/// Height of the frame in pixels.
pub const HEIGHT: usize = 800;

/// Number of cells along each side of the square grid.
pub const GRID_SIZE: usize = 10;

/// Side of one cell in pixels.
pub const CELL_PIXELS: usize = WIDTH / GRID_SIZE;

/// Number of frames between two scheduled ghost moves.
pub const GHOST_MOVE_FRAMES: usize = 10;

/// Cell tag of an open cell.
pub const PATH: usize = 0;

/// Cell tag of a wall.
pub const WALL: usize = 1;

} // verus!
