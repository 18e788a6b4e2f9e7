use vstd::prelude::*;

use crate::grid::{is_walkable, walkable};

verus! {

/// Index of the "up" key in the per-direction key arrays.
pub const UP: usize = 0;

/// Index of the "down" key.
pub const DOWN: usize = 1;

/// Index of the "left" key.
pub const LEFT: usize = 2;

/// Index of the "right" key.
pub const RIGHT: usize = 3;

/// The cell one step from `pos` in direction `d`, as integers (so that a step
/// below zero stays negative rather than wrapping).
pub open spec fn neighbour(pos: (usize, usize), d: int) -> (int, int) {
    if d == UP {
        (pos.0 - 1, pos.1 as int)
    } else if d == DOWN {
        (pos.0 + 1, pos.1 as int)
    } else if d == LEFT {
        (pos.0 as int, pos.1 - 1)
    } else {
        (pos.0 as int, pos.1 + 1)
    }
}

/// Where the player stands after trying to step in direction `d`: the
/// neighbouring cell if it is walkable, else where it was.
pub open spec fn try_step(map: Seq<usize>, pos: (usize, usize), d: int) -> (usize, usize) {
    let t = neighbour(pos, d);
    if walkable(map, t.0, t.1) {
        (t.0 as usize, t.1 as usize)
    } else {
        pos
    }
}

/// One direction's edge detector for one frame. A key that goes down while its
/// detector is idle fires one step and arms the detector; a released key
/// disarms it; a key held while armed does nothing.
pub open spec fn edge_step(
    map: Seq<usize>,
    state: ((usize, usize), Seq<bool>),
    down: Seq<bool>,
    d: int,
) -> ((usize, usize), Seq<bool>) {
    let (pos, pressed) = state;
    if down[d] && !pressed[d] {
        (try_step(map, pos, d), pressed.update(d, true))
    } else if !down[d] {
        (pos, pressed.update(d, false))
    } else {
        (pos, pressed)
    }
}

/// The state after the first `n` directions (in the order up, down, left,
/// right) have been handled, each one seeing the position that the previous
/// ones left.
pub open spec fn input_steps(
    map: Seq<usize>,
    pos: (usize, usize),
    pressed: Seq<bool>,
    down: Seq<bool>,
    n: nat,
) -> ((usize, usize), Seq<bool>)
    decreases n,
{
    if n == 0 {
        (pos, pressed)
    } else {
        edge_step(map, input_steps(map, pos, pressed, down, (n - 1) as nat), down, n - 1)
    }
}

/// Position and edge state after one frame of input.
pub open spec fn input_frame(
    map: Seq<usize>,
    pos: (usize, usize),
    pressed: Seq<bool>,
    down: Seq<bool>,
) -> ((usize, usize), Seq<bool>) {
    input_steps(map, pos, pressed, down, 4)
}

/// Position and edge state after `n` frames during which the same keys are held.
pub open spec fn input_frames(
    map: Seq<usize>,
    pos: (usize, usize),
    pressed: Seq<bool>,
    down: Seq<bool>,
    n: nat,
) -> ((usize, usize), Seq<bool>)
    decreases n,
{
    if n == 0 {
        (pos, pressed)
    } else {
        let s = input_frames(map, pos, pressed, down, (n - 1) as nat);
        input_frame(map, s.0, s.1, down)
    }
}

/// The neighbour of `pos` in direction `d`, or `None` where it would leave the
/// range of `usize`.
fn neighbour_of(pos: (usize, usize), d: usize) -> (r: Option<(usize, usize)>)
    requires
        d < 4,
    ensures
        match r {
            Some(t) => t.0 as int == neighbour(pos, d as int).0 && t.1 as int == neighbour(
                pos,
                d as int,
            ).1,
            None => {
                let t = neighbour(pos, d as int);
                t.0 < 0 || t.1 < 0 || t.0 > usize::MAX || t.1 > usize::MAX
            },
        },
{
    if d == UP {
        if pos.0 > 0 { Some((pos.0 - 1, pos.1)) } else { None }
    } else if d == DOWN {
        if pos.0 < usize::MAX { Some((pos.0 + 1, pos.1)) } else { None }
    } else if d == LEFT {
        if pos.1 > 0 { Some((pos.0, pos.1 - 1)) } else { None }
    } else {
        if pos.1 < usize::MAX { Some((pos.0, pos.1 + 1)) } else { None }
    }
}

/// Handles one frame of input for the player. `keys_down` tells which of the
/// four direction keys (up, down, left, right) are held in this frame;
/// `keys_pressed` is the edge state of each key, `true` once a press has been
/// consumed. Each direction fires at most once per continuous press, and moves
/// the player one cell only onto a walkable cell. The directions are handled
/// in order, each one from the position that the previous ones left.
pub fn handle_input(
    player_pos: &mut (usize, usize),
    map: &[usize],
    keys_pressed: &mut [bool; 4],
    keys_down: &[bool; 4],
)
    ensures
        (*final(player_pos), final(keys_pressed)@) == input_frame(
            map@,
            *old(player_pos),
            old(keys_pressed)@,
            keys_down@,
        ),
        *final(player_pos) == *old(player_pos) || walkable(
            map@,
            final(player_pos).0 as int,
            final(player_pos).1 as int,
        ),
{
    let ghost pos0 = *player_pos;
    let ghost pressed0 = keys_pressed@;
    let mut d: usize = 0;
    while d < 4
        invariant
            d <= 4,
            (*player_pos, keys_pressed@) == input_steps(map@, pos0, pressed0, keys_down@, d as nat),
            *player_pos == pos0 || walkable(map@, player_pos.0 as int, player_pos.1 as int),
        decreases 4 - d,
    {
        let down = keys_down[d];
        if down && !keys_pressed[d] {
            match neighbour_of(*player_pos, d) {
                Some(t) => {
                    if is_walkable(map, t.0, t.1) {
                        *player_pos = t;
                    }
                },
                None => {},
            }
            keys_pressed[d] = true;
        } else if !down {
            keys_pressed[d] = false;
        }
        d += 1;
    }
}

/// Directions handled so far have their edge state equal to whether their key
/// is held; the others keep theirs.
proof fn lemma_steps_edge_state(
    map: Seq<usize>,
    pos: (usize, usize),
    pressed: Seq<bool>,
    down: Seq<bool>,
    n: nat,
)
    requires
        pressed.len() == 4,
        down.len() == 4,
        n <= 4,
    ensures
        input_steps(map, pos, pressed, down, n).1.len() == 4,
        forall|i: int| 0 <= i < n ==> input_steps(map, pos, pressed, down, n).1[i] == down[i],
        forall|i: int| n <= i < 4 ==> input_steps(map, pos, pressed, down, n).1[i] == pressed[i],
    decreases n,
{
    if n > 0 {
        lemma_steps_edge_state(map, pos, pressed, down, (n - 1) as nat);
    }
}

/// Once every edge state matches the held keys, handling more directions
/// changes nothing.
proof fn lemma_steps_settled(map: Seq<usize>, pos: (usize, usize), down: Seq<bool>, n: nat)
    requires
        down.len() == 4,
        n <= 4,
    ensures
        input_steps(map, pos, down, down, n) == (pos, down),
    decreases n,
{
    if n > 0 {
        lemma_steps_settled(map, pos, down, (n - 1) as nat);
        let d = n - 1;
        if !down[d] {
            assert(down.update(d, false) =~= down);
        }
    }
}

/// The player's position after any number of steps of one frame is the
/// starting cell or a walkable one.
proof fn lemma_steps_stay_walkable(
    map: Seq<usize>,
    pos: (usize, usize),
    pressed: Seq<bool>,
    down: Seq<bool>,
    n: nat,
)
    ensures
        ({
            let p = input_steps(map, pos, pressed, down, n).0;
            p == pos || walkable(map, p.0 as int, p.1 as int)
        }),
    decreases n,
{
    if n > 0 {
        lemma_steps_stay_walkable(map, pos, pressed, down, (n - 1) as nat);
    }
}

/// The player never ends up on a wall: over any number of frames, with any
/// keys held, the player stays where it started or stands on a walkable cell.
pub proof fn lemma_player_never_on_wall(
    map: Seq<usize>,
    pos: (usize, usize),
    pressed: Seq<bool>,
    down: Seq<bool>,
    n: nat,
)
    ensures
        ({
            let p = input_frames(map, pos, pressed, down, n).0;
            p == pos || walkable(map, p.0 as int, p.1 as int)
        }),
    decreases n,
{
    if n > 0 {
        lemma_player_never_on_wall(map, pos, pressed, down, (n - 1) as nat);
        let s = input_frames(map, pos, pressed, down, (n - 1) as nat);
        lemma_steps_stay_walkable(map, s.0, s.1, down, 4);
    }
}

/// Holding the same keys over several frames moves the player only in the
/// first of them: after `n >= 1` frames the player stands where one frame
/// left it, and every held key is marked as consumed.
pub proof fn lemma_held_keys_fire_once(
    map: Seq<usize>,
    pos: (usize, usize),
    pressed: Seq<bool>,
    down: Seq<bool>,
    n: nat,
)
    requires
        pressed.len() == 4,
        down.len() == 4,
        n >= 1,
    ensures
        input_frames(map, pos, pressed, down, n) == input_frame(map, pos, pressed, down),
        input_frame(map, pos, pressed, down).1 == down,
    decreases n,
{
    lemma_steps_edge_state(map, pos, pressed, down, 4);
    let s1 = input_frame(map, pos, pressed, down);
    assert(s1.1 =~= down);
    if n == 1 {
        assert(input_frames(map, pos, pressed, down, 0) == (pos, pressed));
    } else {
        lemma_held_keys_fire_once(map, pos, pressed, down, (n - 1) as nat);
        lemma_steps_settled(map, s1.0, down, 4);
    }
}

/// Pressing a single direction key from its idle state moves the player
/// exactly one cell that way when that cell is walkable, and not at all
/// otherwise.
pub proof fn lemma_single_press(map: Seq<usize>, pos: (usize, usize), pressed: Seq<bool>, d: int)
    requires
        pressed.len() == 4,
        0 <= d < 4,
        !pressed[d],
    ensures
        input_frame(map, pos, pressed, seq![d == UP, d == DOWN, d == LEFT, d == RIGHT]).0
            == try_step(map, pos, d),
{
    let down = seq![d == UP, d == DOWN, d == LEFT, d == RIGHT];
    lemma_steps_edge_state(map, pos, pressed, down, 4);
    reveal_with_fuel(input_steps, 5);
}

} // verus!
