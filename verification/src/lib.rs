//! Simulation core of a tile-grid arcade game: a player collects pellets on a
//! wrap-around grid while four ghosts pursue it.

pub mod draw;
pub mod encounters;
pub mod equality;
pub mod game_state;
pub mod ghosts;
pub mod grid;
pub mod input;
pub mod level;
pub mod level_text;
pub mod player;
pub mod random;
pub mod session;
