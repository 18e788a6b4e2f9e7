use vstd::arithmetic::div_mod::{
    lemma_add_mod_noop_right,
    lemma_fundamental_div_mod,
    lemma_fundamental_div_mod_converse,
    lemma_mod_bound,
};
use vstd::prelude::*;

use crate::constants::GHOST_MOVE_FRAMES;
use crate::grid::{is_walkable, walkable};

verus! {

/// The scripted patroller: where it stands, the next entry of its script, and
/// the frames counted since its last scheduled move.
#[derive(Clone, Copy, Debug)]
pub struct GhostState {
    pub pos: (usize, usize),
    pub cursor: usize,
    pub ticks: usize,
}

impl GhostState {
    /// The cursor addresses an entry of a script of `script_len` entries, and
    /// fewer frames than the cadence have been counted.
    pub open spec fn wf(&self, script_len: nat) -> bool {
        self.cursor < script_len && self.ticks < GHOST_MOVE_FRAMES
    }

    /// A ghost at `pos`, at the start of its script and of its cadence.
    pub fn new(pos: (usize, usize)) -> (r: GhostState)
        ensures
            r == (GhostState { pos, cursor: 0, ticks: 0 }),
    {
        GhostState { pos, cursor: 0, ticks: 0 }
    }

    /// Counts one frame. Every `GHOST_MOVE_FRAMES`-th frame the ghost tries the
    /// script's entry at the cursor, moves only if the target cell is
    /// walkable, and advances the cursor cyclically whether it moved or not.
    pub fn tick(&mut self, map: &[usize], script: &[(isize, isize)])
        requires
            old(self).wf(script@.len()),
        ensures
            *final(self) == ghost_tick(*old(self), map@, script@),
            final(self).wf(script@.len()),
    {
        self.ticks = self.ticks + 1;
        if self.ticks >= GHOST_MOVE_FRAMES {
            self.ticks = 0;
            let (dr, dc) = script[self.cursor];
            match (offset(self.pos.0, dr), offset(self.pos.1, dc)) {
                (Some(r), Some(c)) => {
                    if is_walkable(map, r, c) {
                        self.pos = (r, c);
                    }
                },
                _ => {},
            }
            self.cursor = (self.cursor + 1) % script.len();
        }
    }
}

/// The cell that a script entry aims at from `pos`, as integers.
pub open spec fn scripted_target(pos: (usize, usize), delta: (isize, isize)) -> (int, int) {
    (pos.0 + delta.0, pos.1 + delta.1)
}

/// The ghost after one frame.
pub open spec fn ghost_tick(g: GhostState, map: Seq<usize>, script: Seq<(isize, isize)>) -> GhostState {
    if g.ticks + 1 >= GHOST_MOVE_FRAMES {
        let t = scripted_target(g.pos, script[g.cursor as int]);
        GhostState {
            pos: if walkable(map, t.0, t.1) {
                (t.0 as usize, t.1 as usize)
            } else {
                g.pos
            },
            cursor: ((g.cursor + 1) % (script.len() as int)) as usize,
            ticks: 0,
        }
    } else {
        GhostState { ticks: (g.ticks + 1) as usize, ..g }
    }
}

/// The ghost after `n` frames.
pub open spec fn ghost_ticks(g: GhostState, map: Seq<usize>, script: Seq<(isize, isize)>, n: nat) -> GhostState
    decreases n,
{
    if n == 0 {
        g
    } else {
        ghost_tick(ghost_ticks(g, map, script, (n - 1) as nat), map, script)
    }
}

/// `p + d`, or `None` where that leaves the range of `usize`.
fn offset(p: usize, d: isize) -> (r: Option<usize>)
    ensures
        match r {
            Some(v) => v == p + d,
            None => p + d < 0 || p + d > usize::MAX,
        },
{
    if d >= 0 {
        let u = d as usize;
        if p <= usize::MAX - u {
            Some(p + u)
        } else {
            None
        }
    } else {
        let m: usize = (-(d + 1)) as usize + 1;
        if p >= m {
            Some(p - m)
        } else {
            None
        }
    }
}

/// The ghost's cursor keeps time with the frames alone: after `n` frames it
/// has advanced, cyclically, once for every `GHOST_MOVE_FRAMES` frames counted
/// in all, whether or not the scripted moves succeeded, and the frame count is
/// the remainder.
pub proof fn lemma_cursor_cadence(g: GhostState, map: Seq<usize>, script: Seq<(isize, isize)>, n: nat)
    requires
        g.wf(script.len()),
        script.len() <= usize::MAX,
    ensures
        ghost_ticks(g, map, script, n).wf(script.len()),
        ghost_ticks(g, map, script, n).ticks == (g.ticks + n) % (GHOST_MOVE_FRAMES as int),
        ghost_ticks(g, map, script, n).cursor == (g.cursor + (g.ticks + n) / (
        GHOST_MOVE_FRAMES as int)) % (script.len() as int),
    decreases n,
{
    let f = GHOST_MOVE_FRAMES as int;
    let len = script.len() as int;
    if n == 0 {
        lemma_fundamental_div_mod_converse(g.ticks as int, f, 0, g.ticks as int);
        lemma_fundamental_div_mod_converse(g.cursor as int, len, 0, g.cursor as int);
    } else {
        lemma_cursor_cadence(g, map, script, (n - 1) as nat);
        let prev = ghost_ticks(g, map, script, (n - 1) as nat);
        assert(ghost_ticks(g, map, script, n) == ghost_tick(prev, map, script));
        let t = g.ticks + n - 1;
        let q = t / f;
        let r = t % f;
        lemma_fundamental_div_mod(t, f);
        lemma_mod_bound(t, f);
        if r + 1 >= f {
            lemma_fundamental_div_mod_converse(t + 1, f, q + 1, 0);
            lemma_add_mod_noop_right(1, g.cursor + q, len);
            assert((t + 1) / f == q + 1);
            lemma_mod_bound(prev.cursor + 1, len);
        } else {
            lemma_fundamental_div_mod_converse(t + 1, f, q, r + 1);
            assert((t + 1) / f == q);
        }
        lemma_mod_bound(g.cursor + (t + 1) / f, len);
    }
}

} // verus!
