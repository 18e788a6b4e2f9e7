use vstd::prelude::*;

use crate::constants::{GRID_SIZE, PATH};

verus! {

/// Row-major index of the cell at (row, col).
pub open spec fn cell_index(row: int, col: int) -> int {
    row * GRID_SIZE + col
}

/// Whether (row, col) lies on the grid.
pub open spec fn in_grid(row: int, col: int) -> bool {
    0 <= row < GRID_SIZE && 0 <= col < GRID_SIZE
}

/// Whether (row, col) is a path cell of `map`. Coordinates are integers, so a
/// step off any edge of the grid (below zero included) is simply not walkable.
pub open spec fn walkable(map: Seq<usize>, row: int, col: int) -> bool {
    in_grid(row, col) && cell_index(row, col) < map.len() && map[cell_index(row, col)] == PATH
}

/// Tells whether the cell at (row, col) can be entered: it is on the grid and
/// tagged as a path. Coordinates off the grid give `false`.
pub fn is_walkable(map: &[usize], row: usize, col: usize) -> (r: bool)
    ensures
        r == walkable(map@, row as int, col as int),
        !in_grid(row as int, col as int) ==> !r,
        in_grid(row as int, col as int) && cell_index(row as int, col as int) < map@.len()
            ==> (r <==> map@[cell_index(row as int, col as int)] == PATH),
{
    if row < GRID_SIZE && col < GRID_SIZE {
        let index = row * GRID_SIZE + col;
        index < map.len() && map[index] == PATH
    } else {
        false
    }
}

} // verus!
