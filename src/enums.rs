use vstd::prelude::*;

verus! {

/// One of the four directions of travel on the grid.
#[derive(Clone, Copy, Debug, PartialEq, Eq, Structural, Hash)]
pub enum Direction {
    Up,
    Right,
    Down,
    Left,
}

/// The coarse state of a round, driven by the win / lose signals of the core.
#[derive(Clone, Copy, Debug, PartialEq, Eq, Structural, Hash)]
pub enum GameState {
    Wait,
    Default,
    End,
    Reset,
}

/// How two positions are compared for coincidence.
#[derive(Clone, Copy, Debug, PartialEq, Eq, Structural, Hash)]
pub enum CollisionType {
    /// Same row within one cell vertically, or same column within one cell horizontally.
    Approximate,
    /// Both coordinates equal.
    Exact,
}

} // verus!
