use vstd::prelude::*;

use crate::constants::{GRID_SIZE, HEIGHT, WIDTH};
use crate::grid::in_grid;
use crate::patrol::{ghost_tick, GhostState};
use crate::player::{handle_input, input_frame};
use crate::render::{frame_color, render_frame};

verus! {

/// A running game: the maze, the ghost's script, the player with the edge
/// state of its four direction keys, and the ghost.
pub struct Game {
    pub map: Vec<usize>,
    pub script: Vec<(isize, isize)>,
    pub player: (usize, usize),
    pub keys_pressed: [bool; 4],
    pub ghost_state: GhostState,
}

impl Game {
    /// The maze is a full grid, the script is not empty, the ghost's cursor
    /// and frame count are in range, and both entities stand on the grid.
    pub open spec fn wf(&self) -> bool {
        &&& self.map@.len() == GRID_SIZE * GRID_SIZE
        &&& 0 < self.script@.len()
        &&& self.ghost_state.wf(self.script@.len())
        &&& in_grid(self.player.0 as int, self.player.1 as int)
        &&& in_grid(self.ghost_state.pos.0 as int, self.ghost_state.pos.1 as int)
    }

    /// Starts a game on `map` with the ghost following `script`, or gives
    /// `None` when the map is not a full grid, the script is empty, or a
    /// starting cell is off the grid.
    pub fn new(
        map: Vec<usize>,
        script: Vec<(isize, isize)>,
        player: (usize, usize),
        ghost_start: (usize, usize),
    ) -> (r: Option<Game>)
        ensures
            r.is_some() <==> (map@.len() == GRID_SIZE * GRID_SIZE && 0 < script@.len() && in_grid(
                player.0 as int,
                player.1 as int,
            ) && in_grid(ghost_start.0 as int, ghost_start.1 as int)),
            r matches Some(g) ==> {
                &&& g.wf()
                &&& g.map@ == map@
                &&& g.script@ == script@
                &&& g.player == player
                &&& g.keys_pressed@ == seq![false, false, false, false]
                &&& g.ghost_state == (GhostState { pos: ghost_start, cursor: 0, ticks: 0 })
            },
    {
        if map.len() == GRID_SIZE * GRID_SIZE && script.len() > 0 && player.0 < GRID_SIZE
            && player.1 < GRID_SIZE && ghost_start.0 < GRID_SIZE && ghost_start.1 < GRID_SIZE {
            let keys_pressed = [false, false, false, false];
            assert(keys_pressed@ =~= seq![false, false, false, false]);
            Some(Game { map, script, player, keys_pressed, ghost_state: GhostState::new(ghost_start) })
        } else {
            None
        }
    }

    /// Runs one frame: counts it for the ghost's schedule, draws the frame
    /// into `buffer`, then handles the direction keys held in this frame.
    pub fn frame(&mut self, keys_down: &[bool; 4], buffer: &mut Vec<u32>)
        requires
            old(self).wf(),
            old(buffer)@.len() == WIDTH * HEIGHT,
        ensures
            final(self).wf(),
            final(self).map@ == old(self).map@,
            final(self).script@ == old(self).script@,
            final(self).ghost_state == ghost_tick(old(self).ghost_state, old(self).map@, old(self).script@),
            (final(self).player, final(self).keys_pressed@) == input_frame(
                old(self).map@,
                old(self).player,
                old(self).keys_pressed@,
                keys_down@,
            ),
            final(buffer)@.len() == WIDTH * HEIGHT,
            forall|p: int|
                0 <= p < WIDTH * HEIGHT ==> #[trigger] final(buffer)@[p] == frame_color(
                    old(self).map@,
                    old(self).player,
                    final(self).ghost_state.pos,
                    p,
                ),
    {
        self.ghost_state.tick(self.map.as_slice(), self.script.as_slice());
        render_frame(buffer, self.map.as_slice(), self.player, self.ghost_state.pos);
        handle_input(&mut self.player, self.map.as_slice(), &mut self.keys_pressed, keys_down);
    }

    /// Where the player stands.
    pub fn player_pos(&self) -> (r: (usize, usize))
        ensures
            r == self.player,
    {
        self.player
    }

    /// Where the ghost stands.
    pub fn ghost_pos(&self) -> (r: (usize, usize))
        ensures
            r == self.ghost_state.pos,
    {
        self.ghost_state.pos
    }
}

} // verus!
