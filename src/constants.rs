use vstd::prelude::*;
use crate::enums::Direction;

verus! {

pub const BOARD_CELL_SIZE: i64 = 32;

pub const BOARD_OFFSET: i64 = 16;

pub const GHOST_SPEED_DEFAULT: i64 = 2;

pub const GHOST_SPEED_RESPAWNING: i64 = 16;

pub const BEN_SPEED_DEFAULT: i64 = 4;

pub const BEN_DIRECTION_DEFAULT: Direction = Direction::Right;

pub const BEN_LIVES_DEFAULT: u8 = 3;

/// Row of the corridor just above the ghost gate; ghosts leave the den up to it.
pub const GHOST_EXIT_ROW: usize = 11;

/// Row inside the den where ghosts wait and to which caught ghosts return.
pub const GHOST_DEN_ROW: usize = 14;

/// Row on which Ben starts.
pub const BEN_SPAWN_ROW: usize = 23;

/// How long ghosts stay scared after a power-up, in milliseconds.
pub const GHOST_SCARE_MILLIS: u64 = 10000;

/// How long a caged ghost waits before it is released, in milliseconds.
pub const GHOST_RELEASE_MILLIS: u64 = 5000;

} // verus!
