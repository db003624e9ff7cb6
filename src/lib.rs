//! Simulation core of a maze-chase arcade game: a tile grid with continuous
//! world coordinates, movement legality, a greedy pursuit path engine, the
//! agent state machine, and collision scoring.

pub mod ben;
pub mod board;
pub mod collectibles;
pub mod constants;
pub mod enums;
pub mod game;
pub mod ghost;
pub mod path;
pub mod score;
pub mod timer;
pub mod utils;
