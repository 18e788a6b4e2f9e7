//! A small grid maze: a player steered by arrow keys and a ghost that patrols
//! a scripted cyclic path, with the frame drawn as coloured squares.

pub mod constants;
pub mod grid;
pub mod player;
pub mod patrol;
pub mod render;
pub mod game;

pub use grid::is_walkable;
pub use player::handle_input;
pub use render::draw_square;
