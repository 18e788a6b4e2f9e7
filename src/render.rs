use vstd::arithmetic::div_mod::{
    lemma_fundamental_div_mod,
    lemma_fundamental_div_mod_converse,
    lemma_mod_bound,
};
use vstd::prelude::*;

use crate::constants::{CELL_PIXELS, GRID_SIZE, HEIGHT, PATH, WALL, WIDTH};
use crate::grid::{cell_index, in_grid};

verus! {

/// Colour of a wall cell.
pub const WALL_COLOR: u32 = 0x000000;

/// Colour of a path cell.
pub const PATH_COLOR: u32 = 0xFFFFFF;

/// Colour of a cell whose tag is neither wall nor path.
pub const OTHER_COLOR: u32 = 0x00FF00;

/// Colour of the player's square.
pub const PLAYER_COLOR: u32 = 0xAA0000;

/// Colour of the ghost's square.
pub const GHOST_COLOR: u32 = 0x800080;

/// Colour in which a cell with tag `tag` is drawn.
pub open spec fn tag_color(tag: usize) -> u32 {
    if tag == WALL {
        WALL_COLOR
    } else if tag == PATH {
        PATH_COLOR
    } else {
        OTHER_COLOR
    }
}

/// Whether pixel `p` of a row-major frame `WIDTH` pixels wide lies in the
/// square of the cell at column `x`, row `y`.
pub open spec fn in_square(p: int, x: int, y: int) -> bool {
    let px = p % (WIDTH as int);
    let py = p / (WIDTH as int);
    x * CELL_PIXELS <= px < x * CELL_PIXELS + CELL_PIXELS && y * CELL_PIXELS <= py < y
        * CELL_PIXELS + CELL_PIXELS
}

/// The (row, column) of the cell that pixel `p` falls in.
pub open spec fn pixel_cell(p: int) -> (int, int) {
    ((p / (WIDTH as int)) / (CELL_PIXELS as int), (p % (WIDTH as int)) / (CELL_PIXELS as int))
}

/// Colour of pixel `p` in the frame that shows `map`, with the player's
/// square over it and the ghost's square over both.
pub open spec fn frame_color(
    map: Seq<usize>,
    player: (usize, usize),
    ghost_at: (usize, usize),
    p: int,
) -> u32 {
    if in_square(p, ghost_at.1 as int, ghost_at.0 as int) {
        GHOST_COLOR
    } else if in_square(p, player.1 as int, player.0 as int) {
        PLAYER_COLOR
    } else {
        tag_color(map[cell_index(pixel_cell(p).0, pixel_cell(p).1)])
    }
}

/// A pixel lies in a cell's square exactly when it falls in that cell.
proof fn lemma_square_is_cell(p: int, x: int, y: int)
    requires
        0 <= p,
    ensures
        in_square(p, x, y) <==> pixel_cell(p) == (y, x),
{
    let w = WIDTH as int;
    let c = CELL_PIXELS as int;
    assert(c == 80);
    lemma_mod_bound(p, w);
    lemma_fundamental_div_mod(p % w, c);
    lemma_mod_bound(p % w, c);
    lemma_fundamental_div_mod(p / w, c);
    lemma_mod_bound(p / w, c);
}

/// Colour in which a cell with tag `tag` is drawn.
pub fn cell_color(tag: usize) -> (r: u32)
    ensures
        r == tag_color(tag),
{
    if tag == WALL {
        WALL_COLOR
    } else if tag == PATH {
        PATH_COLOR
    } else {
        OTHER_COLOR
    }
}

/// Fills the square of the cell at column `x`, row `y` with `color`, leaving
/// every other pixel as it was.
pub fn draw_square(buffer: &mut Vec<u32>, x: usize, y: usize, color: u32)
    requires
        x < GRID_SIZE,
        y < GRID_SIZE,
        old(buffer)@.len() >= WIDTH * HEIGHT,
    ensures
        final(buffer)@.len() == old(buffer)@.len(),
        forall|i: int|
            0 <= i < old(buffer)@.len() ==> #[trigger] final(buffer)@[i] == if in_square(
                i,
                x as int,
                y as int,
            ) {
                color
            } else {
                old(buffer)@[i]
            },
{
    let ghost w = WIDTH as int;
    let ghost c = CELL_PIXELS as int;
    let ghost start = buffer@;
    assert(c == 80);
    let mut dy: usize = 0;
    while dy < CELL_PIXELS
        invariant
            dy <= CELL_PIXELS,
            c == CELL_PIXELS == 80,
            w == WIDTH,
            x < GRID_SIZE,
            y < GRID_SIZE,
            start.len() >= WIDTH * HEIGHT,
            buffer@.len() == start.len(),
            forall|i: int|
                0 <= i < start.len() ==> #[trigger] buffer@[i] == if in_square(i, x as int, y as int)
                    && i / w < y * c + dy {
                    color
                } else {
                    start[i]
                },
        decreases CELL_PIXELS - dy,
    {
        let mut dx: usize = 0;
        while dx < CELL_PIXELS
            invariant
                dy < CELL_PIXELS,
                dx <= CELL_PIXELS,
                c == CELL_PIXELS == 80,
                w == WIDTH,
                x < GRID_SIZE,
                y < GRID_SIZE,
                start.len() >= WIDTH * HEIGHT,
                buffer@.len() == start.len(),
                forall|i: int|
                    0 <= i < start.len() ==> #[trigger] buffer@[i] == if in_square(
                        i,
                        x as int,
                        y as int,
                    ) && (i / w < y * c + dy || (i / w == y * c + dy && i % w < x * c + dx)) {
                        color
                    } else {
                        start[i]
                    },
            decreases CELL_PIXELS - dx,
        {
            let px = x * CELL_PIXELS + dx;
            let py = y * CELL_PIXELS + dy;
            let idx = py * WIDTH + px;
            proof {
                lemma_fundamental_div_mod_converse(idx as int, w, py as int, px as int);
            }
            let ghost before = buffer@;
            buffer[idx] = color;
            assert forall|i: int| 0 <= i < start.len() implies #[trigger] buffer@[i] == if in_square(
                i,
                x as int,
                y as int,
            ) && (i / w < y * c + dy || (i / w == y * c + dy && i % w < x * c + dx + 1)) {
                color
            } else {
                start[i]
            } by {
                lemma_fundamental_div_mod(i, w);
                lemma_mod_bound(i, w);
                if i != idx {
                    assert(buffer@[i] == before[i]);
                }
            }
            dx += 1;
        }
        dy += 1;
    }
}

/// Every pixel of the frame falls in a cell of the grid.
proof fn lemma_pixel_in_grid(p: int)
    requires
        0 <= p < WIDTH * HEIGHT,
    ensures
        in_grid(pixel_cell(p).0, pixel_cell(p).1),
{
    let w = WIDTH as int;
    let c = CELL_PIXELS as int;
    assert(c == 80);
    lemma_mod_bound(p, w);
    lemma_fundamental_div_mod(p, w);
    lemma_fundamental_div_mod(p % w, c);
    lemma_mod_bound(p % w, c);
    lemma_fundamental_div_mod(p / w, c);
    lemma_mod_bound(p / w, c);
}

/// Draws a whole frame: every cell in the colour of its tag, then the
/// player's square, then the ghost's square over it.
pub fn render_frame(
    buffer: &mut Vec<u32>,
    map: &[usize],
    player: (usize, usize),
    ghost_at: (usize, usize),
)
    requires
        old(buffer)@.len() == WIDTH * HEIGHT,
        map@.len() >= GRID_SIZE * GRID_SIZE,
        in_grid(player.0 as int, player.1 as int),
        in_grid(ghost_at.0 as int, ghost_at.1 as int),
    ensures
        final(buffer)@.len() == WIDTH * HEIGHT,
        forall|p: int|
            0 <= p < WIDTH * HEIGHT ==> #[trigger] final(buffer)@[p] == frame_color(
                map@,
                player,
                ghost_at,
                p,
            ),
{
    let mut r: usize = 0;
    while r < GRID_SIZE
        invariant
            r <= GRID_SIZE,
            map@.len() >= GRID_SIZE * GRID_SIZE,
            buffer@.len() == WIDTH * HEIGHT,
            forall|p: int|
                0 <= p < WIDTH * HEIGHT && pixel_cell(p).0 < r ==> #[trigger] buffer@[p] == tag_color(
                    map@[cell_index(pixel_cell(p).0, pixel_cell(p).1)],
                ),
        decreases GRID_SIZE - r,
    {
        let mut c: usize = 0;
        while c < GRID_SIZE
            invariant
                r < GRID_SIZE,
                c <= GRID_SIZE,
                map@.len() >= GRID_SIZE * GRID_SIZE,
                buffer@.len() == WIDTH * HEIGHT,
                forall|p: int|
                    0 <= p < WIDTH * HEIGHT && (pixel_cell(p).0 < r || (pixel_cell(p).0 == r
                        && pixel_cell(p).1 < c)) ==> #[trigger] buffer@[p] == tag_color(
                        map@[cell_index(pixel_cell(p).0, pixel_cell(p).1)],
                    ),
            decreases GRID_SIZE - c,
        {
            let color = cell_color(map[r * GRID_SIZE + c]);
            let ghost before = buffer@;
            draw_square(buffer, c, r, color);
            assert forall|p: int|
                0 <= p < WIDTH * HEIGHT && (pixel_cell(p).0 < r || (pixel_cell(p).0 == r
                    && pixel_cell(p).1 < c + 1)) implies #[trigger] buffer@[p] == tag_color(
                map@[cell_index(pixel_cell(p).0, pixel_cell(p).1)],
            ) by {
                lemma_square_is_cell(p, c as int, r as int);
                assert(buffer@[p] == if in_square(p, c as int, r as int) {
                    color
                } else {
                    before[p]
                });
            }
            c += 1;
        }
        r += 1;
    }
    draw_square(buffer, player.1, player.0, PLAYER_COLOR);
    draw_square(buffer, ghost_at.1, ghost_at.0, GHOST_COLOR);
    assert forall|p: int| 0 <= p < WIDTH * HEIGHT implies #[trigger] buffer@[p] == frame_color(
        map@,
        player,
        ghost_at,
        p,
    ) by {
        lemma_pixel_in_grid(p);
    }
}

} // verus!
