use vstd::prelude::*;
use crate::board::{Board, Position, MAX_SPEED};
use crate::constants::{BEN_DIRECTION_DEFAULT, BEN_LIVES_DEFAULT, BEN_SPAWN_ROW, BEN_SPEED_DEFAULT};
use crate::enums::Direction;
use crate::utils::{aligned_for, can_move, den_x, get_ben_spawn_coordinates, legal_move};

verus! {

/// The player: where he is, where he is going, and the turn he asked for.
#[derive(Clone, Copy, Debug, PartialEq, Eq, Structural)]
pub struct Ben {
    pub position: Position,
    pub direction: Direction,
    /// A requested turn not applied yet.
    pub next_direction: Option<Direction>,
    pub speed: i64,
    pub lives: u8,
}

/// Ben's starting point: the den's column, on his spawn row.
pub open spec fn ben_start(board: &Board) -> Position {
    Position { x: den_x(board) as i64, y: board.y_of(BEN_SPAWN_ROW as int) as i64 }
}

impl Ben {
    pub open spec fn spawn_spec(board: &Board) -> Ben {
        Ben {
            position: ben_start(board),
            direction: BEN_DIRECTION_DEFAULT,
            next_direction: None,
            speed: BEN_SPEED_DEFAULT,
            lives: BEN_LIVES_DEFAULT,
        }
    }

    pub open spec fn wf(&self) -> bool {
        self.position.in_world() && 0 <= self.speed <= MAX_SPEED
    }

    /// Ben at `position`, heading right at the default speed, with no turn requested.
    pub fn new(position: Position) -> (r: Ben)
        ensures
            r.position == position,
            r.direction == BEN_DIRECTION_DEFAULT,
            r.next_direction is None,
            r.speed == BEN_SPEED_DEFAULT,
            r.lives == BEN_LIVES_DEFAULT,
    {
        Ben {
            position,
            direction: BEN_DIRECTION_DEFAULT,
            next_direction: None,
            speed: BEN_SPEED_DEFAULT,
            lives: BEN_LIVES_DEFAULT,
        }
    }

    /// Ben at his starting point on `board`.
    pub fn spawn(board: &Board) -> (r: Ben)
        requires
            board.wf(),
            board.spec_height() > BEN_SPAWN_ROW,
        ensures
            r.wf(),
            r == Ben::spawn_spec(board),
    {
        Ben::new(get_ben_spawn_coordinates(board))
    }

    /// Records a requested turn; it is applied once it becomes legal.
    pub fn set_next_direction(&mut self, direction: Direction)
        ensures
            *final(self) == (Ben { next_direction: Some(direction), ..*old(self) }),
    {
        self.next_direction = Some(direction);
    }

    /// Back to the starting point, heading in the default direction.
    pub fn reset(&mut self, board: &Board)
        requires
            board.wf(),
            board.spec_height() > BEN_SPAWN_ROW,
            old(self).wf(),
        ensures
            final(self).wf(),
            *final(self) == (Ben {
                position: ben_start(board),
                direction: BEN_DIRECTION_DEFAULT,
                ..*old(self)
            }),
    {
        self.position = get_ben_spawn_coordinates(board);
        self.direction = BEN_DIRECTION_DEFAULT;
    }
}

/// One tick of Ben's movement, with the direction-changed event. Legality is
/// judged at the position before the tick: a requested turn that is legal
/// becomes the direction (and, if that changes the direction, the request is
/// dropped and the event carries the new direction); then Ben advances by his
/// speed if moving in his direction is legal, and stays put otherwise.
pub open spec fn ben_step(b: Ben, board: &Board) -> (Ben, Option<Direction>) {
    let dir = match b.next_direction {
        Some(nd) => if legal_move(board, b.position, nd, b.speed as int) {
            nd
        } else {
            b.direction
        },
        None => b.direction,
    };
    let changed = dir != b.direction;
    let next = if changed {
        None
    } else {
        b.next_direction
    };
    let position = if legal_move(board, b.position, dir, b.speed as int) {
        b.position.spec_step(dir, b.speed as int)
    } else {
        b.position
    };
    (
        Ben { position, direction: dir, next_direction: next, ..b },
        if changed {
            Some(dir)
        } else {
            None
        },
    )
}

/// Moves Ben one tick (see `ben_step`) and returns the direction-changed event.
pub fn ben_movement(ben: &mut Ben, board: &Board) -> (r: Option<Direction>)
    requires
        board.wf(),
        old(ben).wf(),
    ensures
        (*final(ben), r) == ben_step(*old(ben), board),
        final(ben).wf(),
{
    let speed = ben.speed;
    let pos = ben.position;
    let initial_direction = ben.direction;
    let mut changed: Option<Direction> = None;
    match ben.next_direction {
        Some(nd) => {
            if can_move(&pos, board, speed, nd) {
                ben.direction = nd;
            }
            if ben.direction != initial_direction {
                changed = Some(ben.direction);
                ben.next_direction = None;
            }
        },
        None => {},
    }
    let direction = ben.direction;
    if can_move(&pos, board, speed, direction) {
        proof {
            crate::utils::lemma_legal_move_in_world(board, pos, direction, speed as int);
        }
        ben.position = pos.step(direction, speed);
    }
    changed
}

/// Ben turns only where he is centred on the axis perpendicular to his new
/// direction; and whenever he moves, the move is legal from where he stood.
pub proof fn lemma_turns_only_when_centered(b: Ben, board: &Board)
    requires
        board.wf(),
        b.wf(),
    ensures
        ben_step(b, board).0.direction != b.direction ==> aligned_for(
            board,
            b.position,
            ben_step(b, board).0.direction,
        ),
        ben_step(b, board).1 matches Some(d) ==> d == ben_step(b, board).0.direction && aligned_for(
            board,
            b.position,
            d,
        ),
        ben_step(b, board).0.position != b.position ==> legal_move(
            board,
            b.position,
            ben_step(b, board).0.direction,
            b.speed as int,
        ),
{
}

/// A blocked direction leaves Ben where he was; an open one moves him by
/// exactly his speed along that axis.
pub proof fn lemma_blocked_or_advances(b: Ben, board: &Board)
    requires
        board.wf(),
        b.wf(),
    ensures
        !legal_move(board, b.position, ben_step(b, board).0.direction, b.speed as int)
            ==> ben_step(b, board).0.position == b.position,
        legal_move(board, b.position, ben_step(b, board).0.direction, b.speed as int) ==> {
            let p = ben_step(b, board).0.position;
            match ben_step(b, board).0.direction {
                Direction::Up => p.x == b.position.x && p.y == b.position.y + b.speed,
                Direction::Right => p.y == b.position.y && p.x == b.position.x + b.speed,
                Direction::Down => p.x == b.position.x && p.y == b.position.y - b.speed,
                Direction::Left => p.y == b.position.y && p.x == b.position.x - b.speed,
            }
        },
{
}

} // verus!
