use vstd::prelude::*;
use crate::board::{Board, BoardTile, Position, passable, MAX_SPEED, WORLD_LIMIT};
use crate::constants::{GHOST_DEN_ROW, GHOST_EXIT_ROW, BEN_SPAWN_ROW};
use crate::enums::{CollisionType, Direction};

verus! {

/// Whether an entity at `p` lies on the grid line that a move in `d` needs:
/// a vertical move needs x centred, a horizontal one needs y centred.
pub open spec fn aligned_for(board: &Board, p: Position, d: Direction) -> bool {
    match d {
        Direction::Up | Direction::Down => board.centered(p.x as int),
        Direction::Right | Direction::Left => board.centered(p.y as int),
    }
}

/// The world point whose cell a move of `speed` in `d` from `p` would enter.
pub open spec fn probe(board: &Board, p: Position, d: Direction, speed: int) -> (int, int) {
    match d {
        Direction::Up => (p.x as int, p.y + speed),
        Direction::Right => (p.x + board.spec_cell_size(), p.y as int),
        Direction::Down => (p.x as int, p.y - board.spec_cell_size()),
        Direction::Left => (p.x - speed, p.y as int),
    }
}

/// The tile that a move of `speed` in `d` from `p` would enter, if on the grid.
pub open spec fn destination_tile(board: &Board, p: Position, d: Direction, speed: int) -> Option<
    BoardTile,
> {
    board.tile_at_point(probe(board, p, d, speed).0, probe(board, p, d, speed).1)
}

/// Movement legality: aligned on the perpendicular axis, and the cell entered
/// exists and is neither a wall nor the ghost gate.
pub open spec fn legal_move(board: &Board, p: Position, d: Direction, speed: int) -> bool {
    &&& aligned_for(board, p, d)
    &&& destination_tile(board, p, d, speed) is Some
    &&& passable(destination_tile(board, p, d, speed).unwrap())
}

pub open spec fn movable(board: &Board, p: Position, speed: int) -> bool {
    &&& board.wf()
    &&& p.in_world()
    &&& 0 <= speed <= MAX_SPEED
}

/// Movement legality never admits a move into a wall or the ghost gate, nor
/// off the grid.
pub proof fn lemma_never_into_wall_or_gate(board: &Board, p: Position, d: Direction, speed: int)
    ensures
        legal_move(board, p, d, speed) ==> {
            &&& destination_tile(board, p, d, speed) is Some
            &&& destination_tile(board, p, d, speed).unwrap() != BoardTile::Wall
            &&& destination_tile(board, p, d, speed).unwrap() != BoardTile::GhostGate
        },
{
}

/// A legal move keeps an entity inside the world bounds.
pub proof fn lemma_legal_move_in_world(board: &Board, p: Position, d: Direction, speed: int)
    requires
        movable(board, p, speed),
        legal_move(board, p, d, speed),
    ensures
        p.spec_step(d, speed).in_world(),
{
    board.lemma_extent();
    let c = board.spec_cell_size();
    let h = board.spec_height();
    let w = board.spec_width();
    let top = board.top_y();
    let off = board.spec_offset();
    match d {
        Direction::Up => {
            let a = top - (p.y + speed);
            assert(a >= 0) by {
                if a < 0 {
                    assert(a / c < 0) by (nonlinear_arith)
                        requires
                            a < 0,
                            c > 0,
                    ;
                }
            }
        },
        Direction::Right => {
            let a = p.x + c - off;
            assert(a < w * c) by (nonlinear_arith)
                requires
                    a / c < w,
                    c > 0,
            ;
        },
        Direction::Down => {
            let a = top - (p.y - c);
            assert(a < h * c) by (nonlinear_arith)
                requires
                    a / c < h,
                    c > 0,
            ;
            assert(top == h * c - c + off) by (nonlinear_arith)
                requires
                    top == (h - 1) * c + off,
            ;
        },
        Direction::Left => {
            let a = p.x - speed - off;
            assert(a >= 0) by {
                if a < 0 {
                    assert(a / c < 0) by (nonlinear_arith)
                        requires
                            a < 0,
                            c > 0,
                    ;
                }
            }
        },
    }
}

/// Whether the x coordinate lies on a column's centre line.
pub fn is_centered_horizontally(position: &Position, board: &Board) -> (r: bool)
    requires
        board.wf(),
        position.in_world(),
    ensures
        r == board.centered(position.x as int),
{
    board.is_centered(position.x)
}

/// Whether the y coordinate lies on a row's centre line.
pub fn is_centered_vertically(position: &Position, board: &Board) -> (r: bool)
    requires
        board.wf(),
        position.in_world(),
    ensures
        r == board.centered(position.y as int),
{
    board.is_centered(position.y)
}

fn enterable(tile: Option<BoardTile>) -> (r: bool)
    ensures
        r == (tile is Some && passable(tile.unwrap())),
{
    match tile {
        Some(t) => t != BoardTile::Wall && t != BoardTile::GhostGate,
        None => false,
    }
}

pub fn can_move_up(position: &Position, board: &Board, speed: i64) -> (r: bool)
    requires
        movable(board, *position, speed as int),
    ensures
        r == legal_move(board, *position, Direction::Up, speed as int),
{
    is_centered_horizontally(position, board) && enterable(
        board.tile_at(position.x, position.y + speed),
    )
}

pub fn can_move_right(position: &Position, board: &Board, speed: i64) -> (r: bool)
    requires
        movable(board, *position, speed as int),
    ensures
        r == legal_move(board, *position, Direction::Right, speed as int),
{
    is_centered_vertically(position, board) && enterable(
        board.tile_at(position.x + board.cell_size(), position.y),
    )
}

pub fn can_move_down(position: &Position, board: &Board, speed: i64) -> (r: bool)
    requires
        movable(board, *position, speed as int),
    ensures
        r == legal_move(board, *position, Direction::Down, speed as int),
{
    is_centered_horizontally(position, board) && enterable(
        board.tile_at(position.x, position.y - board.cell_size()),
    )
}

pub fn can_move_left(position: &Position, board: &Board, speed: i64) -> (r: bool)
    requires
        movable(board, *position, speed as int),
    ensures
        r == legal_move(board, *position, Direction::Left, speed as int),
{
    is_centered_vertically(position, board) && enterable(
        board.tile_at(position.x - speed, position.y),
    )
}

/// Movement legality in any of the four directions.
pub fn can_move(position: &Position, board: &Board, speed: i64, direction: Direction) -> (r: bool)
    requires
        movable(board, *position, speed as int),
    ensures
        r == legal_move(board, *position, direction, speed as int),
{
    match direction {
        Direction::Up => can_move_up(position, board, speed),
        Direction::Right => can_move_right(position, board, speed),
        Direction::Down => can_move_down(position, board, speed),
        Direction::Left => can_move_left(position, board, speed),
    }
}

pub open spec fn abs(v: int) -> int {
    if v < 0 {
        -v
    } else {
        v
    }
}

/// Exact: both coordinates equal. Approximate: same column and at most one
/// cell apart vertically, or same row and at most one cell apart horizontally.
pub open spec fn collided(a: Position, b: Position, cell_size: int, collision_type: CollisionType) -> bool {
    match collision_type {
        CollisionType::Approximate => (a.x == b.x && abs(a.y - b.y) <= cell_size) || (a.y == b.y
            && abs(a.x - b.x) <= cell_size),
        CollisionType::Exact => a.x == b.x && a.y == b.y,
    }
}

fn abs_diff(a: i64, b: i64) -> (r: i64)
    requires
        -WORLD_LIMIT <= a <= WORLD_LIMIT,
        -WORLD_LIMIT <= b <= WORLD_LIMIT,
    ensures
        r == abs(a - b),
{
    if a < b {
        b - a
    } else {
        a - b
    }
}

pub fn did_collide(
    a_position: &Position,
    b_position: &Position,
    board: &Board,
    collision_type: CollisionType,
) -> (r: bool)
    requires
        a_position.in_world(),
        b_position.in_world(),
    ensures
        r == collided(*a_position, *b_position, board.spec_cell_size(), collision_type),
{
    match collision_type {
        CollisionType::Approximate => {
            let c = board.cell_size();
            (a_position.x == b_position.x && abs_diff(a_position.y, b_position.y) <= c) || (
            a_position.y == b_position.y && abs_diff(a_position.x, b_position.x) <= c)
        },
        CollisionType::Exact => a_position.x == b_position.x && a_position.y == b_position.y,
    }
}

/// World x of the den's horizontal centre: half the board's width.
pub open spec fn den_x(board: &Board) -> int {
    board.spec_width() * board.spec_cell_size() / 2
}

/// The point inside the den to which caught ghosts return.
pub open spec fn ghost_spawn(board: &Board) -> Position {
    Position { x: den_x(board) as i64, y: board.y_of(GHOST_DEN_ROW as int) as i64 }
}

/// The point just above the ghost gate.
pub open spec fn den_exit(board: &Board) -> Position {
    Position { x: den_x(board) as i64, y: board.y_of(GHOST_EXIT_ROW as int) as i64 }
}

fn half_width(board: &Board) -> (r: i64)
    requires
        board.wf(),
    ensures
        r == den_x(board),
        0 <= r <= 549755813888,
{
    proof {
        board.lemma_extent();
    }
    board.width() as i64 * board.cell_size() / 2
}

fn row_y(board: &Board, row: usize) -> (r: i64)
    requires
        board.wf(),
        row < board.spec_height(),
    ensures
        r == board.y_of(row as int),
        -WORLD_LIMIT <= r <= WORLD_LIMIT,
{
    board.indeces_to_coordinates(row, 0).y
}

pub fn get_ghost_spawn_coordinates(board: &Board) -> (r: Position)
    requires
        board.wf(),
        board.spec_height() > GHOST_DEN_ROW,
    ensures
        r == ghost_spawn(board),
        r.x == den_x(board),
        r.y == board.y_of(GHOST_DEN_ROW as int),
        r.in_world(),
{
    Position { x: half_width(board), y: row_y(board, GHOST_DEN_ROW) }
}

pub fn get_den_exit_coordinates(board: &Board) -> (r: Position)
    requires
        board.wf(),
        board.spec_height() > GHOST_DEN_ROW,
    ensures
        r == den_exit(board),
        r.x == den_x(board),
        r.y == board.y_of(GHOST_EXIT_ROW as int),
        r.in_world(),
{
    Position { x: half_width(board), y: row_y(board, GHOST_EXIT_ROW) }
}

pub fn get_ben_spawn_coordinates(board: &Board) -> (r: Position)
    requires
        board.wf(),
        board.spec_height() > BEN_SPAWN_ROW,
    ensures
        r.x == den_x(board),
        r.y == board.y_of(BEN_SPAWN_ROW as int),
        r.in_world(),
{
    Position { x: half_width(board), y: row_y(board, BEN_SPAWN_ROW) }
}

pub fn get_caleb_spawn_coordinates(board: &Board) -> (r: Position)
    requires
        board.wf(),
        board.spec_height() > GHOST_DEN_ROW,
    ensures
        r == den_exit(board),
        r.in_world(),
{
    get_den_exit_coordinates(board)
}

pub fn get_harris_spawn_coordinates(board: &Board) -> (r: Position)
    requires
        board.wf(),
        board.spec_height() > GHOST_DEN_ROW,
    ensures
        r.x == den_x(board) - 2 * board.spec_cell_size(),
        r.y == board.y_of(GHOST_DEN_ROW as int),
        r.in_world(),
{
    Position { x: half_width(board) - 2 * board.cell_size(), y: row_y(board, GHOST_DEN_ROW) }
}

pub fn get_claflin_spawn_coordinates(board: &Board) -> (r: Position)
    requires
        board.wf(),
        board.spec_height() > GHOST_DEN_ROW,
    ensures
        r == ghost_spawn(board),
        r.in_world(),
{
    get_ghost_spawn_coordinates(board)
}

pub fn get_samson_spawn_coordinates(board: &Board) -> (r: Position)
    requires
        board.wf(),
        board.spec_height() > GHOST_DEN_ROW,
    ensures
        r.x == den_x(board) + 2 * board.spec_cell_size(),
        r.y == board.y_of(GHOST_DEN_ROW as int),
        r.in_world(),
{
    Position { x: half_width(board) + 2 * board.cell_size(), y: row_y(board, GHOST_DEN_ROW) }
}

} // verus!
