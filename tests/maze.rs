use maze_game::constants::{CELL_PIXELS, GHOST_MOVE_FRAMES, GRID_SIZE, HEIGHT, WIDTH};
use maze_game::game::Game;
use maze_game::patrol::GhostState;
use maze_game::player::{DOWN, LEFT, RIGHT, UP};
use maze_game::render::{
    cell_color, render_frame, GHOST_COLOR, OTHER_COLOR, PATH_COLOR, PLAYER_COLOR, WALL_COLOR,
};
use maze_game::{draw_square, handle_input, is_walkable};

fn maze() -> Vec<usize> {
    vec![
        1, 1, 1, 1, 1, 1, 1, 1, 1, 1, //
        1, 0, 0, 0, 1, 0, 0, 0, 0, 1, //
        1, 1, 1, 0, 1, 0, 1, 1, 0, 1, //
        1, 0, 0, 0, 0, 0, 0, 1, 0, 1, //
        1, 0, 1, 1, 1, 1, 0, 0, 0, 1, //
        1, 0, 1, 0, 0, 1, 0, 1, 0, 1, //
        1, 0, 1, 0, 1, 1, 0, 1, 0, 1, //
        1, 0, 0, 0, 0, 0, 0, 1, 0, 1, //
        1, 1, 1, 1, 1, 1, 1, 1, 0, 1, //
        1, 1, 1, 1, 1, 1, 1, 1, 1, 1, //
    ]
}

fn patrol_script() -> Vec<(isize, isize)> {
    vec![
        (0, 1), (0, 1), (0, 1), (0, 1), (0, 1),
        (1, 0), (1, 0), (1, 0), (1, 0),
        (0, -1), (0, -1), (0, -1), (0, -1), (0, -1),
        (-1, 0), (-1, 0), (-1, 0), (-1, 0),
    ]
}

fn only(d: usize) -> [bool; 4] {
    let mut k = [false; 4];
    k[d] = true;
    k
}

const NONE: [bool; 4] = [false; 4];

/// Runs the ghost through one full cadence of frames.
fn advance(g: &mut GhostState, map: &[usize], script: &[(isize, isize)]) {
    for _ in 0..GHOST_MOVE_FRAMES {
        g.tick(map, script);
    }
}

#[test]
fn walkable_false_off_grid() {
    let map = maze();
    assert!(!is_walkable(&map, GRID_SIZE, 1));
    assert!(!is_walkable(&map, 1, GRID_SIZE));
    assert!(!is_walkable(&map, usize::MAX, 1));
    assert!(!is_walkable(&map, 1, usize::MAX));
    assert!(!is_walkable(&map, 100, 100));
}

#[test]
fn walkable_matches_tags_on_grid() {
    let map = maze();
    for r in 0..GRID_SIZE {
        for c in 0..GRID_SIZE {
            assert_eq!(is_walkable(&map, r, c), map[r * GRID_SIZE + c] == 0);
        }
    }
    assert!(is_walkable(&map, 1, 1));
    assert!(!is_walkable(&map, 0, 0));
}

#[test]
fn walkable_false_beyond_short_map() {
    let map = vec![0usize; 5];
    assert!(is_walkable(&map, 0, 4));
    assert!(!is_walkable(&map, 0, 5));
    assert!(!is_walkable(&map, 3, 3));
}

#[test]
fn right_press_moves_then_wall_blocks() {
    let map = maze();
    let mut pos = (1, 1);
    let mut pressed = [false; 4];
    handle_input(&mut pos, &map, &mut pressed, &only(RIGHT));
    assert_eq!(pos, (1, 2));
    assert_eq!(pressed, [false, false, false, true]);

    let mut pos = (1, 3);
    let mut pressed = [false; 4];
    handle_input(&mut pos, &map, &mut pressed, &only(RIGHT));
    assert_eq!(pos, (1, 3));
}

#[test]
fn held_key_moves_once_per_press() {
    let map = maze();
    let mut pos = (1, 1);
    let mut pressed = [false; 4];
    for _ in 0..20 {
        handle_input(&mut pos, &map, &mut pressed, &only(RIGHT));
    }
    assert_eq!(pos, (1, 2));
    handle_input(&mut pos, &map, &mut pressed, &NONE);
    assert_eq!(pressed, [false; 4]);
    assert_eq!(pos, (1, 2));
    handle_input(&mut pos, &map, &mut pressed, &only(RIGHT));
    assert_eq!(pos, (1, 3));
}

#[test]
fn player_never_enters_wall() {
    let map = maze();
    let mut pos = (1, 1);
    let mut pressed = [false; 4];
    let presses = [UP, LEFT, DOWN, RIGHT, RIGHT, DOWN, DOWN, LEFT, UP, RIGHT, RIGHT, RIGHT];
    for d in presses {
        handle_input(&mut pos, &map, &mut pressed, &only(d));
        assert!(is_walkable(&map, pos.0, pos.1));
        handle_input(&mut pos, &map, &mut pressed, &NONE);
    }
    assert_eq!(pos, (3, 5));
}

#[test]
fn up_and_left_at_zero_do_not_wrap() {
    let map = vec![0usize; GRID_SIZE * GRID_SIZE];
    let mut pos = (0, 0);
    let mut pressed = [false; 4];
    handle_input(&mut pos, &map, &mut pressed, &[true, false, true, false]);
    assert_eq!(pos, (0, 0));
    assert_eq!(pressed, [true, false, true, false]);
}

#[test]
fn directions_apply_in_sequence() {
    let map = vec![0usize; GRID_SIZE * GRID_SIZE];
    let mut pos = (5, 5);
    let mut pressed = [false; 4];
    handle_input(&mut pos, &map, &mut pressed, &[false, true, false, true]);
    assert_eq!(pos, (6, 6));
    let mut pos = (5, 5);
    let mut pressed = [false; 4];
    handle_input(&mut pos, &map, &mut pressed, &[true, true, true, true]);
    assert_eq!(pos, (5, 5));
    assert_eq!(pressed, [true; 4]);
}

#[test]
fn ghost_moves_every_cadence_only() {
    let map = maze();
    let script = patrol_script();
    let mut g = GhostState::new((3, 1));
    for _ in 0..GHOST_MOVE_FRAMES - 1 {
        g.tick(&map, &script);
    }
    assert_eq!((g.pos, g.cursor, g.ticks), ((3, 1), 0, GHOST_MOVE_FRAMES - 1));
    g.tick(&map, &script);
    assert_eq!((g.pos, g.cursor, g.ticks), ((3, 2), 1, 0));
}

#[test]
fn ghost_goes_right_five_times() {
    let map = maze();
    let script = patrol_script();
    let mut g = GhostState::new((3, 1));
    for k in 1..=5 {
        advance(&mut g, &map, &script);
        assert_eq!(g.pos, (3, 1 + k));
        assert_eq!(g.cursor, k);
    }
}

#[test]
fn blocked_ghost_step_still_advances_cursor() {
    let mut map = maze();
    map[3 * GRID_SIZE + 4] = 1;
    let script = patrol_script();
    let mut g = GhostState::new((3, 1));
    advance(&mut g, &map, &script);
    advance(&mut g, &map, &script);
    assert_eq!((g.pos, g.cursor), ((3, 3), 2));
    advance(&mut g, &map, &script);
    assert_eq!((g.pos, g.cursor), ((3, 3), 3));
    advance(&mut g, &map, &script);
    assert_eq!((g.pos, g.cursor), ((3, 3), 4));
}

#[test]
fn ghost_cursor_wraps_around_script() {
    let map = maze();
    let script = patrol_script();
    let mut g = GhostState::new((3, 1));
    for _ in 0..script.len() {
        advance(&mut g, &map, &script);
    }
    assert_eq!(g.cursor, 0);
    assert_eq!(g.ticks, 0);
    advance(&mut g, &map, &script);
    assert_eq!(g.cursor, 1);
}

#[test]
fn ghost_cursor_advances_on_wall_map() {
    let map = vec![1usize; GRID_SIZE * GRID_SIZE];
    let script = patrol_script();
    let mut g = GhostState::new((3, 1));
    for _ in 0..7 * GHOST_MOVE_FRAMES + 3 {
        g.tick(&map, &script);
    }
    assert_eq!((g.pos, g.cursor, g.ticks), ((3, 1), 7, 3));
}

#[test]
fn cell_colors() {
    assert_eq!(cell_color(1), WALL_COLOR);
    assert_eq!(cell_color(0), PATH_COLOR);
    assert_eq!(cell_color(7), OTHER_COLOR);
    assert_eq!(WALL_COLOR, 0x000000);
    assert_eq!(PATH_COLOR, 0xFFFFFF);
}

#[test]
fn draw_square_fills_one_cell() {
    let mut buf = vec![7u32; WIDTH * HEIGHT];
    draw_square(&mut buf, 2, 3, 0xABCDEF);
    let mut filled = 0;
    for (i, v) in buf.iter().enumerate() {
        let (px, py) = (i % WIDTH, i / WIDTH);
        let inside = px / CELL_PIXELS == 2 && py / CELL_PIXELS == 3;
        assert_eq!(*v, if inside { 0xABCDEF } else { 7 });
        if inside {
            filled += 1;
        }
    }
    assert_eq!(filled, CELL_PIXELS * CELL_PIXELS);
    assert_eq!(buf[3 * CELL_PIXELS * WIDTH + 2 * CELL_PIXELS], 0xABCDEF);
    assert_eq!(buf[(4 * CELL_PIXELS - 1) * WIDTH + 3 * CELL_PIXELS - 1], 0xABCDEF);
    assert_eq!(buf[4 * CELL_PIXELS * WIDTH + 2 * CELL_PIXELS], 7);
}

#[test]
fn render_frame_layers() {
    let map = maze();
    let mut buf = vec![0u32; WIDTH * HEIGHT];
    render_frame(&mut buf, &map, (1, 1), (3, 1));
    let at = |r: usize, c: usize| buf[(r * CELL_PIXELS + 5) * WIDTH + c * CELL_PIXELS + 5];
    assert_eq!(at(0, 0), WALL_COLOR);
    assert_eq!(at(1, 2), PATH_COLOR);
    assert_eq!(at(1, 1), PLAYER_COLOR);
    assert_eq!(at(3, 1), GHOST_COLOR);

    let mut buf = vec![0u32; WIDTH * HEIGHT];
    render_frame(&mut buf, &map, (3, 1), (3, 1));
    assert_eq!(buf[3 * CELL_PIXELS * WIDTH + CELL_PIXELS], GHOST_COLOR);
}

#[test]
fn game_new_checks_inputs() {
    let full = || maze();
    assert!(Game::new(full(), patrol_script(), (1, 1), (3, 1)).is_some());
    assert!(Game::new(vec![0; 99], patrol_script(), (1, 1), (3, 1)).is_none());
    assert!(Game::new(full(), vec![], (1, 1), (3, 1)).is_none());
    assert!(Game::new(full(), patrol_script(), (GRID_SIZE, 1), (3, 1)).is_none());
    assert!(Game::new(full(), patrol_script(), (1, 1), (3, GRID_SIZE)).is_none());
    let g = Game::new(full(), patrol_script(), (1, 1), (3, 1)).unwrap();
    assert_eq!(g.player_pos(), (1, 1));
    assert_eq!(g.ghost_pos(), (3, 1));
    assert_eq!(g.keys_pressed, [false; 4]);
}

#[test]
fn game_frames_move_both() {
    let mut g = Game::new(maze(), patrol_script(), (1, 1), (3, 1)).unwrap();
    let mut buf = vec![0u32; WIDTH * HEIGHT];
    g.frame(&only(RIGHT), &mut buf);
    assert_eq!(g.player_pos(), (1, 2));
    assert_eq!(buf[CELL_PIXELS * WIDTH + CELL_PIXELS], PLAYER_COLOR);
    for _ in 1..GHOST_MOVE_FRAMES {
        g.frame(&only(RIGHT), &mut buf);
    }
    assert_eq!(g.player_pos(), (1, 2));
    assert_eq!(g.ghost_pos(), (3, 2));
    g.frame(&NONE, &mut buf);
    g.frame(&only(DOWN), &mut buf);
    assert_eq!(g.player_pos(), (1, 2));
    assert_eq!(buf[3 * CELL_PIXELS * WIDTH + 2 * CELL_PIXELS], GHOST_COLOR);
}
