use benja_man::board::{Board, Position};
use benja_man::enums::CollisionType;
use benja_man::path::Path;

fn corridor() -> Board {
    let rows: Vec<Vec<char>> = ["jhhhhi", "d____f", "lbbbbk"]
        .iter()
        .map(|r| r.chars().collect())
        .collect();
    Board::from_layout(&rows, 32, 16).unwrap()
}

fn drain(mut path: Path) -> Vec<Position> {
    let mut out = Vec::new();
    while let Some(p) = path.pop_front() {
        out.push(p);
    }
    out
}

#[test]
fn queue_operations() {
    let mut path = Path::new();
    assert!(path.is_empty());
    assert_eq!(path.peek_back(), None);
    path.push_back(Position::new(1, 2));
    path.push_back(Position::new(3, 4));
    assert_eq!(path.len(), 2);
    assert_eq!(path.peek_back(), Some(&Position::new(3, 4)));
    assert!(path.contains(&Position::new(1, 2)));
    assert!(!path.contains(&Position::new(2, 1)));
    assert_eq!(path.pop_front(), Some(Position::new(1, 2)));
    assert_eq!(path.len(), 1);
    path.clear();
    assert!(path.is_empty());
    assert_eq!(path.pop_front(), None);
}

#[test]
fn exact_search_reaches_the_target_cell() {
    let board = corridor();
    let path = Path::shortest_to_transform(
        &Position::new(48, 48),
        &Position::new(144, 48),
        &board,
        32,
        CollisionType::Exact,
    );
    assert_eq!(
        drain(path),
        vec![Position::new(80, 48), Position::new(112, 48), Position::new(144, 48)]
    );
}

#[test]
fn approximate_search_stops_one_cell_short() {
    let board = corridor();
    let path = Path::shortest_to_transform(
        &Position::new(48, 48),
        &Position::new(144, 48),
        &board,
        32,
        CollisionType::Approximate,
    );
    assert_eq!(drain(path), vec![Position::new(80, 48), Position::new(112, 48)]);
}

#[test]
fn waypoints_are_one_speed_step_apart() {
    let board = corridor();
    let path = Path::shortest_to_transform(
        &Position::new(48, 48),
        &Position::new(144, 48),
        &board,
        16,
        CollisionType::Exact,
    );
    let points = drain(path);
    assert_eq!(points.len(), 6);
    let mut prev = Position::new(48, 48);
    for p in points {
        assert_eq!(p.y, prev.y);
        assert_eq!(p.x - prev.x, 16);
        prev = p;
    }
    assert_eq!(prev, Position::new(144, 48));
}

#[test]
fn search_is_empty_when_already_there() {
    let board = corridor();
    let path = Path::shortest_to_transform(
        &Position::new(80, 48),
        &Position::new(80, 48),
        &board,
        32,
        CollisionType::Exact,
    );
    assert!(path.is_empty());
}

#[test]
fn unreachable_target_ends_at_a_dead_end() {
    let board = corridor();
    // the target lies inside the wall above the start; the walk turns right,
    // comes back, and then has no candidate left
    let path = Path::shortest_to_transform(
        &Position::new(48, 48),
        &Position::new(48, 80),
        &board,
        32,
        CollisionType::Exact,
    );
    assert_eq!(drain(path), vec![Position::new(80, 48), Position::new(48, 48)]);
}

#[test]
fn den_route_descends_through_the_gate() {
    let board = Board::new(32, 16);
    let path = Path::shortest_to_ghost_spawn(&Position::new(448, 656), &board, 16);
    let expected: Vec<Position> = [640, 624, 608, 592, 576, 560]
        .iter()
        .map(|y| Position::new(448, *y))
        .collect();
    assert_eq!(drain(path), expected);
}

#[test]
fn den_route_from_the_corridor() {
    let board = Board::new(32, 16);
    let path = Path::shortest_to_ghost_spawn(&Position::new(432, 656), &board, 16);
    let points = drain(path);
    assert_eq!(points[0], Position::new(448, 656));
    assert_eq!(points.len(), 7);
    assert_eq!(points[6], Position::new(448, 560));
}
