use vstd::prelude::*;
use std::collections::VecDeque;
use crate::board::{Board, Position, MAX_SPEED, WORLD_LIMIT};
use crate::constants::GHOST_DEN_ROW;
use crate::enums::{CollisionType, Direction};
use crate::utils::{
    abs, can_move, collided, den_exit, did_collide, get_den_exit_coordinates,
    get_ghost_spawn_coordinates, ghost_spawn, legal_move, lemma_legal_move_in_world, movable,
};

verus! {

/// A queue of world waypoints, consumed from the front.
pub struct Path(VecDeque<Position>);

impl View for Path {
    type V = Seq<Position>;

    closed spec fn view(&self) -> Seq<Position> {
        self.0@
    }
}

/// A direction is a candidate when the move is legal and its destination is
/// not already on the path built so far.
pub open spec fn is_candidate(
    board: &Board,
    p: Position,
    d: Direction,
    speed: int,
    visited: Seq<Position>,
) -> bool {
    legal_move(board, p, d, speed) && !visited.contains(p.spec_step(d, speed))
}

/// Whether moving in `d` reduces the distance from `p` to `target` along that axis.
pub open spec fn toward(p: Position, target: Position, d: Direction) -> bool {
    match d {
        Direction::Up => p.y < target.y,
        Direction::Right => p.x < target.x,
        Direction::Down => p.y > target.y,
        Direction::Left => p.x > target.x,
    }
}

/// The greedy choice: the first of Up, Right, Down, Left that leads toward the
/// target and is a candidate; failing that, the first candidate of Left, Down,
/// Right, Up; failing that, none.
pub open spec fn next_direction(
    board: &Board,
    p: Position,
    target: Position,
    speed: int,
    visited: Seq<Position>,
) -> Option<Direction> {
    let c = |d: Direction| is_candidate(board, p, d, speed, visited);
    if toward(p, target, Direction::Up) && c(Direction::Up) {
        Some(Direction::Up)
    } else if toward(p, target, Direction::Right) && c(Direction::Right) {
        Some(Direction::Right)
    } else if toward(p, target, Direction::Down) && c(Direction::Down) {
        Some(Direction::Down)
    } else if toward(p, target, Direction::Left) && c(Direction::Left) {
        Some(Direction::Left)
    } else if c(Direction::Left) {
        Some(Direction::Left)
    } else if c(Direction::Down) {
        Some(Direction::Down)
    } else if c(Direction::Right) {
        Some(Direction::Right)
    } else if c(Direction::Up) {
        Some(Direction::Up)
    } else {
        None
    }
}

/// The most steps that one path search takes before it gives up.
pub open spec fn step_cap(board: &Board) -> nat {
    (2 * (board.spec_width() + 1) * (board.spec_height() + 1) * board.spec_cell_size()) as nat
}

/// The greedy walk from `p` with `visited` built so far: it stops on arrival
/// or at a dead end with what it has, and yields `None` when it would take
/// more than `fuel` further steps.
pub open spec fn greedy_walk(
    board: &Board,
    p: Position,
    target: Position,
    speed: int,
    collision_type: CollisionType,
    visited: Seq<Position>,
    fuel: nat,
) -> Option<Seq<Position>>
    decreases fuel,
{
    if collided(p, target, board.spec_cell_size(), collision_type) {
        Some(visited)
    } else {
        match next_direction(board, p, target, speed, visited) {
            None => Some(visited),
            Some(d) => if fuel == 0 {
                None
            } else {
                let n = p.spec_step(d, speed);
                greedy_walk(board, n, target, speed, collision_type, visited.push(n), (fuel - 1) as nat)
            },
        }
    }
}

/// The route that the pursuit search yields: the greedy walk from `start`,
/// or no waypoint at all when the walk exceeds the step cap.
pub open spec fn pursuit_route(
    board: &Board,
    start: Position,
    target: Position,
    speed: int,
    collision_type: CollisionType,
) -> Seq<Position> {
    match greedy_walk(board, start, target, speed, collision_type, seq![], step_cap(board)) {
        Some(s) => s,
        None => seq![],
    }
}

/// Straight descent from (`x`, `y`): steps of `speed` downward while above `target_y`.
pub open spec fn descent(x: i64, y: int, target_y: int, speed: int) -> Seq<Position>
    decreases y - target_y + speed,
{
    if speed > 0 && y > target_y {
        seq![Position { x, y: (y - speed) as i64 }] + descent(x, y - speed, target_y, speed)
    } else {
        seq![]
    }
}

/// The route back to the den: the exact-arrival search for the point above the
/// gate, then straight down through the ghost gate while on the den's column and
/// above the den's inside point.
pub open spec fn den_route(board: &Board, start: Position, speed: int) -> Seq<Position> {
    let head = pursuit_route(board, start, den_exit(board), speed, CollisionType::Exact);
    let base = if head.len() == 0 {
        start
    } else {
        head.last()
    };
    if base.x == ghost_spawn(board).x {
        head + descent(base.x, base.y as int, ghost_spawn(board).y as int, speed)
    } else {
        head
    }
}

/// `b` is one step of exactly `speed` from `a` along one axis.
pub open spec fn is_unit_step(a: Position, b: Position, speed: int) -> bool {
    (a.x == b.x && abs(b.y - a.y) == speed) || (a.y == b.y && abs(b.x - a.x) == speed)
}

/// Each waypoint is one unit step from the one before it (the first from `start`).
pub open spec fn unit_steps(start: Position, s: Seq<Position>, speed: int) -> bool {
    forall|k: int|
        0 <= k < s.len() ==> is_unit_step(
            if k == 0 {
                start
            } else {
                s[k - 1]
            },
            #[trigger] s[k],
            speed,
        )
}

/// The waypoint before the `k`-th (the start for the first).
pub open spec fn prev_of(start: Position, s: Seq<Position>, k: int) -> Position {
    if k == 0 {
        start
    } else {
        s[k - 1]
    }
}

/// `b` is reached from `a` by a legal move of `speed`.
pub open spec fn legal_step(board: &Board, a: Position, b: Position, speed: int) -> bool {
    exists|d: Direction| #[trigger] legal_move(board, a, d, speed) && b == a.spec_step(d, speed)
}

/// Every waypoint is reached from the one before it by a legal move; in
/// particular every change of direction happens where the entity is centred
/// on the axis perpendicular to its new direction.
pub open spec fn legal_steps(board: &Board, start: Position, s: Seq<Position>, speed: int) -> bool {
    forall|k: int| 0 <= k < s.len() ==> legal_step(board, prev_of(start, s, k), #[trigger] s[k], speed)
}

pub open spec fn all_in_world(s: Seq<Position>) -> bool {
    forall|k: int| 0 <= k < s.len() ==> #[trigger] s[k].in_world()
}

proof fn lemma_greedy_walk_shape(
    board: &Board,
    start: Position,
    p: Position,
    target: Position,
    speed: int,
    collision_type: CollisionType,
    visited: Seq<Position>,
    fuel: nat,
)
    requires
        movable(board, p, speed),
        visited.len() == 0 ==> p == start,
        visited.len() > 0 ==> visited.last() == p,
        unit_steps(start, visited, speed),
        legal_steps(board, start, visited, speed),
        all_in_world(visited),
    ensures
        greedy_walk(board, p, target, speed, collision_type, visited, fuel) matches Some(s) ==> {
            &&& unit_steps(start, s, speed)
            &&& legal_steps(board, start, s, speed)
            &&& all_in_world(s)
        },
    decreases fuel,
{
    if !collided(p, target, board.spec_cell_size(), collision_type) {
        match next_direction(board, p, target, speed, visited) {
            None => {},
            Some(d) => {
                if fuel > 0 {
                    lemma_legal_move_in_world(board, p, d, speed);
                    let n = p.spec_step(d, speed);
                    let v2 = visited.push(n);
                    assert(is_unit_step(p, n, speed));
                    assert(unit_steps(start, v2, speed)) by {
                        assert forall|k: int| 0 <= k < v2.len() implies is_unit_step(
                            if k == 0 {
                                start
                            } else {
                                v2[k - 1]
                            },
                            #[trigger] v2[k],
                            speed,
                        ) by {
                            if k < visited.len() {
                                assert(v2[k] == visited[k]);
                            }
                        }
                    }
                    assert(legal_steps(board, start, v2, speed)) by {
                        assert forall|k: int| 0 <= k < v2.len() implies legal_step(
                            board,
                            prev_of(start, v2, k),
                            #[trigger] v2[k],
                            speed,
                        ) by {
                            if k < visited.len() {
                                assert(v2[k] == visited[k]);
                                assert(prev_of(start, v2, k) == prev_of(start, visited, k));
                            } else {
                                assert(prev_of(start, v2, k) == p);
                                assert(legal_move(board, p, d, speed));
                            }
                        }
                    }
                    assert(all_in_world(v2)) by {
                        assert forall|k: int| 0 <= k < v2.len() implies #[trigger] v2[k].in_world() by {
                            if k < visited.len() {
                                assert(v2[k] == visited[k]);
                            }
                        }
                    }
                    lemma_greedy_walk_shape(
                        board,
                        start,
                        n,
                        target,
                        speed,
                        collision_type,
                        v2,
                        (fuel - 1) as nat,
                    );
                }
            },
        }
    }
}

/// Every waypoint of a pursuit route differs from its predecessor (the first
/// from the start) by exactly `speed` along one axis, so by exactly one cell
/// when `speed` is the cell size; each is reached by a legal move; and every
/// waypoint lies in the world bounds.
pub proof fn lemma_pursuit_route_steps(
    board: &Board,
    start: Position,
    target: Position,
    speed: int,
    collision_type: CollisionType,
)
    requires
        movable(board, start, speed),
    ensures
        unit_steps(start, pursuit_route(board, start, target, speed, collision_type), speed),
        legal_steps(board, start, pursuit_route(board, start, target, speed, collision_type), speed),
        all_in_world(pursuit_route(board, start, target, speed, collision_type)),
{
    lemma_greedy_walk_shape(
        board,
        start,
        start,
        target,
        speed,
        collision_type,
        seq![],
        step_cap(board),
    );
}

/// Each waypoint differs from the one before it (the first from `start`) by
/// exactly `cell_size` in one coordinate and not at all in the other.
pub open spec fn cell_steps(start: Position, s: Seq<Position>, cell_size: int) -> bool {
    forall|k: int|
        0 <= k < s.len() ==> abs(#[trigger] s[k].x - prev_of(start, s, k).x) + abs(
            s[k].y - prev_of(start, s, k).y,
        ) == cell_size
}

/// At a speed of one cell, consecutive waypoints of a pursuit route (the first
/// measured from the start) lie exactly one cell apart along one axis.
pub proof fn lemma_pursuit_route_cell_steps(
    board: &Board,
    start: Position,
    target: Position,
    speed: int,
    collision_type: CollisionType,
)
    requires
        movable(board, start, speed),
        speed == board.spec_cell_size(),
    ensures
        cell_steps(
            start,
            pursuit_route(board, start, target, speed, collision_type),
            board.spec_cell_size(),
        ),
{
    lemma_pursuit_route_steps(board, start, target, speed, collision_type);
    let s = pursuit_route(board, start, target, speed, collision_type);
    assert forall|k: int| 0 <= k < s.len() implies abs(#[trigger] s[k].x - prev_of(start, s, k).x)
        + abs(s[k].y - prev_of(start, s, k).y) == board.spec_cell_size() by {
        assert(is_unit_step(prev_of(start, s, k), s[k], speed));
    }
}

proof fn lemma_descent_in_world(x: i64, y: int, target_y: int, speed: int)
    requires
        -WORLD_LIMIT <= x <= WORLD_LIMIT,
        y <= WORLD_LIMIT,
        -WORLD_LIMIT + MAX_SPEED <= target_y,
        0 <= speed <= MAX_SPEED,
    ensures
        all_in_world(descent(x, y, target_y, speed)),
    decreases y - target_y + speed,
{
    if speed > 0 && y > target_y {
        lemma_descent_in_world(x, y - speed, target_y, speed);
        let s = descent(x, y, target_y, speed);
        let rest = descent(x, y - speed, target_y, speed);
        assert forall|k: int| 0 <= k < s.len() implies #[trigger] s[k].in_world() by {
            if k > 0 {
                assert(s[k] == rest[k - 1]);
            }
        }
    }
}

impl Path {
    pub fn new() -> (r: Path)
        ensures
            r@ == Seq::<Position>::empty(),
    {
        Path(VecDeque::new())
    }

    pub fn len(&self) -> (r: usize)
        ensures
            r == self@.len(),
    {
        self.0.len()
    }

    pub fn is_empty(&self) -> (r: bool)
        ensures
            r == (self@.len() == 0),
    {
        self.0.len() == 0
    }

    pub fn push_back(&mut self, position: Position)
        ensures
            final(self)@ == old(self)@.push(position),
    {
        self.0.push_back(position);
    }

    pub fn pop_front(&mut self) -> (r: Option<Position>)
        ensures
            old(self)@.len() == 0 ==> r is None && final(self)@ == old(self)@,
            old(self)@.len() > 0 ==> r == Some(old(self)@[0]) && final(self)@ == old(self)@.drop_first(),
    {
        self.0.pop_front()
    }

    pub fn clear(&mut self)
        ensures
            final(self)@ == Seq::<Position>::empty(),
    {
        self.0.clear();
    }

    /// The last waypoint, if any.
    pub fn peek_back(&self) -> (r: Option<&Position>)
        ensures
            self@.len() == 0 ==> r is None,
            self@.len() > 0 ==> r == Some(&self@.last()),
    {
        if self.0.len() > 0 {
            Some(&self.0[self.0.len() - 1])
        } else {
            None
        }
    }

    /// Whether a waypoint equals `position`.
    pub fn contains(&self, position: &Position) -> (r: bool)
        ensures
            r == self@.contains(*position),
    {
        let n = self.0.len();
        let mut i: usize = 0;
        while i < n
            invariant
                n == self@.len(),
                i <= n,
                forall|k: int| 0 <= k < i ==> self@[k] != *position,
            decreases n - i,
        {
            if self.0[i] == *position {
                return true;
            }
            i = i + 1;
        }
        false
    }

    /// Greedy search from `initial` toward `target`. At each step it stops if
    /// `collision_type` reports arrival; otherwise it moves in the direction
    /// that `next_direction` picks among legal moves whose destination is not
    /// on the path yet, and stops at a dead end. It yields no waypoint when the
    /// walk exceeds `step_cap`.
    pub fn shortest_to_transform(
        initial: &Position,
        target: &Position,
        board: &Board,
        speed: i64,
        collision_type: CollisionType,
    ) -> (r: Path)
        requires
            movable(board, *initial, speed as int),
            target.in_world(),
        ensures
            r@ == pursuit_route(board, *initial, *target, speed as int, collision_type),
            r@.len() <= step_cap(board),
            unit_steps(*initial, r@, speed as int),
            legal_steps(board, *initial, r@, speed as int),
            all_in_world(r@),
    {
        proof {
            lemma_pursuit_route_steps(board, *initial, *target, speed as int, collision_type);
        }
        let cap = step_cap_of(board);
        let mut path = Path::new();
        let mut pos = *initial;
        let mut steps: u64 = 0;
        loop
            invariant
                movable(board, pos, speed as int),
                target.in_world(),
                steps <= cap,
                path@.len() == steps,
                cap == step_cap(board),
                unit_steps(*initial, pursuit_route(board, *initial, *target, speed as int, collision_type), speed as int),
                legal_steps(board, *initial, pursuit_route(board, *initial, *target, speed as int, collision_type), speed as int),
                all_in_world(pursuit_route(board, *initial, *target, speed as int, collision_type)),
                greedy_walk(board, *initial, *target, speed as int, collision_type, seq![], cap as nat)
                    == greedy_walk(
                    board,
                    pos,
                    *target,
                    speed as int,
                    collision_type,
                    path@,
                    (cap - steps) as nat,
                ),
            decreases cap - steps,
        {
            if did_collide(&pos, target, board, collision_type) {
                return path;
            }
            match choose_direction(board, &pos, target, speed, &path) {
                None => {
                    return path;
                },
                Some(d) => {
                    if steps == cap {
                        let empty = Path::new();
                        assert(empty@ =~= pursuit_route(
                            board,
                            *initial,
                            *target,
                            speed as int,
                            collision_type,
                        ));
                        return empty;
                    }
                    proof {
                        lemma_legal_move_in_world(board, pos, d, speed as int);
                    }
                    let next = pos.step(d, speed);
                    path.push_back(next);
                    pos = next;
                    steps = steps + 1;
                },
            }
        }
    }

    /// The route back into the den: exact-arrival search for the point above
    /// the ghost gate, then straight down by `speed` through the ghost gate while on the
    /// den's column and above the den's inside point.
    pub fn shortest_to_ghost_spawn(initial: &Position, board: &Board, speed: i64) -> (r: Path)
        requires
            movable(board, *initial, speed as int),
            speed > 0,
            board.spec_height() > GHOST_DEN_ROW,
        ensures
            r@ == den_route(board, *initial, speed as int),
            all_in_world(r@),
    {
        let spawn = get_ghost_spawn_coordinates(board);
        let exit = get_den_exit_coordinates(board);
        let mut path = Path::shortest_to_transform(
            initial,
            &exit,
            board,
            speed,
            CollisionType::Exact,
        );
        let base = match path.peek_back() {
            Some(p) => *p,
            None => *initial,
        };
        assert(base.in_world());
        if base.x == spawn.x {
            proof {
                board.lemma_extent();
                let h = board.spec_height();
                let c = board.spec_cell_size();
                assert(0 <= (h - GHOST_DEN_ROW - 1) * c <= (h - 1) * c) by (nonlinear_arith)
                    requires
                        h > GHOST_DEN_ROW,
                        c > 0,
                ;
                lemma_descent_in_world(base.x, base.y as int, spawn.y as int, speed as int);
                lemma_concat_in_world(path@, descent(base.x, base.y as int, spawn.y as int, speed as int));
            }
            path.descend(base, spawn.y, speed);
        }
        path
    }

    /// Appends the straight descent from `from` by steps of `speed` while above `target_y`.
    fn descend(&mut self, from: Position, target_y: i64, speed: i64)
        requires
            from.in_world(),
            0 < speed <= MAX_SPEED,
            -WORLD_LIMIT + MAX_SPEED <= target_y,
        ensures
            final(self)@ == old(self)@ + descent(from.x, from.y as int, target_y as int, speed as int),
    {
        let mut last = from;
        while last.y > target_y
            invariant
                -WORLD_LIMIT <= last.y <= WORLD_LIMIT,
                last.x == from.x,
                0 < speed <= MAX_SPEED,
                -WORLD_LIMIT + MAX_SPEED <= target_y,
                self@ + descent(last.x, last.y as int, target_y as int, speed as int) == old(self)@
                    + descent(from.x, from.y as int, target_y as int, speed as int),
            decreases last.y - target_y + speed,
        {
            let next = Position { x: last.x, y: last.y - speed };
            let ghost rest = descent(last.x, (last.y - speed) as int, target_y as int, speed as int);
            assert(descent(last.x, last.y as int, target_y as int, speed as int) == seq![next] + rest);
            assert(self@ + (seq![next] + rest) =~= self@.push(next) + rest);
            self.push_back(next);
            last = next;
        }
        assert(descent(last.x, last.y as int, target_y as int, speed as int) =~= seq![]);
        assert(self@ =~= self@ + Seq::<Position>::empty());
    }
}

proof fn lemma_concat_in_world(a: Seq<Position>, b: Seq<Position>)
    requires
        all_in_world(a),
        all_in_world(b),
    ensures
        all_in_world(a + b),
{
    assert forall|k: int| 0 <= k < (a + b).len() implies #[trigger] (a + b)[k].in_world() by {
        if k < a.len() {
            assert((a + b)[k] == a[k]);
        } else {
            assert((a + b)[k] == b[k - a.len()]);
        }
    }
}

fn step_cap_of(board: &Board) -> (r: u64)
    requires
        board.wf(),
    ensures
        r == step_cap(board),
{
    let w = board.width() as u64;
    let h = board.height() as u64;
    let c = board.cell_size() as u64;
    assert(2 * (w + 1) * (h + 1) * c <= 4611703336739487744) by (nonlinear_arith)
        requires
            0 < w <= 1048576,
            0 < h <= 1048576,
            0 < c <= 1048576,
    ;
    assert(0 < (w + 1) * (h + 1) <= 1099513724929) by (nonlinear_arith)
        requires
            0 < w <= 1048576,
            0 < h <= 1048576,
    ;
    let a = (w + 1) * (h + 1);
    assert(a * c <= 1152925902653358080) by (nonlinear_arith)
        requires
            0 < a <= 1099513724929,
            0 < c <= 1048576,
    ;
    assert(2 * (w + 1) * (h + 1) * c == 2 * (a * c)) by (nonlinear_arith)
        requires
            a == (w + 1) * (h + 1),
    ;
    2 * (a * c)
}

fn is_candidate_exec(board: &Board, pos: &Position, d: Direction, speed: i64, path: &Path) -> (r: bool)
    requires
        movable(board, *pos, speed as int),
    ensures
        r == is_candidate(board, *pos, d, speed as int, path@),
{
    can_move(pos, board, speed, d) && !path.contains(&pos.step(d, speed))
}

fn choose_direction(
    board: &Board,
    pos: &Position,
    target: &Position,
    speed: i64,
    path: &Path,
) -> (r: Option<Direction>)
    requires
        movable(board, *pos, speed as int),
    ensures
        r == next_direction(board, *pos, *target, speed as int, path@),
        r matches Some(d) ==> legal_move(board, *pos, d, speed as int),
{
    let up = is_candidate_exec(board, pos, Direction::Up, speed, path);
    let right = is_candidate_exec(board, pos, Direction::Right, speed, path);
    let down = is_candidate_exec(board, pos, Direction::Down, speed, path);
    let left = is_candidate_exec(board, pos, Direction::Left, speed, path);
    if pos.y < target.y && up {
        Some(Direction::Up)
    } else if pos.x < target.x && right {
        Some(Direction::Right)
    } else if pos.y > target.y && down {
        Some(Direction::Down)
    } else if pos.x > target.x && left {
        Some(Direction::Left)
    } else if left {
        Some(Direction::Left)
    } else if down {
        Some(Direction::Down)
    } else if right {
        Some(Direction::Right)
    } else if up {
        Some(Direction::Up)
    } else {
        None
    }
}

} // verus!
