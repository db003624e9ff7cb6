use benja_man::ben::{ben_movement, Ben};
use benja_man::board::{Board, Position};
use benja_man::enums::{CollisionType, Direction};
use benja_man::utils::{
    can_move, can_move_down, can_move_left, can_move_right, can_move_up, did_collide,
    get_ben_spawn_coordinates, get_caleb_spawn_coordinates, get_ghost_spawn_coordinates,
    get_harris_spawn_coordinates, get_samson_spawn_coordinates, is_centered_horizontally,
    is_centered_vertically,
};

fn corridor() -> Board {
    let rows: Vec<Vec<char>> = ["jhhhhi", "d____f", "lbbbbk"]
        .iter()
        .map(|r| r.chars().collect())
        .collect();
    Board::from_layout(&rows, 32, 16).unwrap()
}

fn walled_cell() -> Board {
    let rows: Vec<Vec<char>> = ["jhi", "d_f", "lbk"].iter().map(|r| r.chars().collect()).collect();
    Board::from_layout(&rows, 32, 16).unwrap()
}

#[test]
fn centre_cell_surrounded_by_walls_cannot_move() {
    let board = walled_cell();
    let p = Position::new(48, 48);
    for d in [Direction::Up, Direction::Right, Direction::Down, Direction::Left] {
        assert!(!can_move(&p, &board, 4, d));
    }
}

#[test]
fn corridor_allows_only_open_directions() {
    let board = corridor();
    let p = Position::new(48, 48);
    assert!(!can_move_up(&p, &board, 4));
    assert!(can_move_right(&p, &board, 4));
    assert!(!can_move_down(&p, &board, 4));
    assert!(!can_move_left(&p, &board, 4));
    let q = Position::new(144, 48);
    assert!(can_move_left(&q, &board, 4));
    assert!(!can_move_right(&q, &board, 4));
}

#[test]
fn gate_is_not_enterable() {
    let rows: Vec<Vec<char>> = ["j_i", "d_f", "d-f", "l_k"].iter().map(|r| r.chars().collect()).collect();
    let board = Board::from_layout(&rows, 32, 16).unwrap();
    // cell (1, 1): x 48, y (4 - 1 - 1) * 32 + 16 = 80
    let p = Position::new(48, 80);
    assert!(!can_move_down(&p, &board, 4));
    assert!(can_move_up(&p, &board, 4));
}

#[test]
fn off_grid_is_not_enterable() {
    let rows: Vec<Vec<char>> = ["___"].iter().map(|r| r.chars().collect()).collect();
    let board = Board::from_layout(&rows, 32, 16).unwrap();
    let p = Position::new(16, 16);
    assert!(!can_move_left(&p, &board, 4));
    assert!(!can_move_up(&p, &board, 4));
    assert!(!can_move_down(&p, &board, 4));
    assert!(can_move_right(&p, &board, 4));
}

#[test]
fn mid_cell_entity_may_only_continue_along_its_axis() {
    let board = corridor();
    let p = Position::new(52, 48);
    assert!(is_centered_vertically(&p, &board));
    assert!(!is_centered_horizontally(&p, &board));
    assert!(can_move_right(&p, &board, 4));
    assert!(can_move_left(&p, &board, 4));
    assert!(!can_move_up(&p, &board, 4));
}

#[test]
fn blocked_direction_leaves_ben_in_place() {
    let board = corridor();
    let mut ben = Ben::new(Position::new(48, 48));
    ben.direction = Direction::Up;
    let changed = ben_movement(&mut ben, &board);
    assert_eq!(changed, None);
    assert_eq!(ben.position, Position::new(48, 48));
}

#[test]
fn open_direction_advances_ben_by_his_speed() {
    let board = corridor();
    let mut ben = Ben::new(Position::new(48, 48));
    ben.direction = Direction::Up;
    ben.set_next_direction(Direction::Right);
    let changed = ben_movement(&mut ben, &board);
    assert_eq!(changed, Some(Direction::Right));
    assert_eq!(ben.direction, Direction::Right);
    assert_eq!(ben.next_direction, None);
    assert_eq!(ben.position, Position::new(52, 48));
}

#[test]
fn blocked_turn_is_kept_for_later() {
    let board = corridor();
    let mut ben = Ben::new(Position::new(48, 48));
    ben.set_next_direction(Direction::Down);
    let changed = ben_movement(&mut ben, &board);
    assert_eq!(changed, None);
    assert_eq!(ben.direction, Direction::Right);
    assert_eq!(ben.next_direction, Some(Direction::Down));
    assert_eq!(ben.position, Position::new(52, 48));
}

#[test]
fn ben_turns_only_when_centred() {
    let rows: Vec<Vec<char>> = ["jh_hi", "d___f", "lbbbk"].iter().map(|r| r.chars().collect()).collect();
    let board = Board::from_layout(&rows, 32, 16).unwrap();
    // starts left of column 2 and heads right; the opening above is column 2 (x 80)
    let mut ben = Ben::new(Position::new(72, 48));
    ben.set_next_direction(Direction::Up);
    assert_eq!(ben_movement(&mut ben, &board), None);
    assert_eq!(ben.position, Position::new(76, 48));
    assert_eq!(ben_movement(&mut ben, &board), None);
    assert_eq!(ben.position, Position::new(80, 48));
    assert_eq!(ben_movement(&mut ben, &board), Some(Direction::Up));
    assert_eq!(ben.position, Position::new(80, 52));
}

#[test]
fn approximate_collision_within_one_cell_on_a_line() {
    let board = corridor();
    let a = Position::new(48, 48);
    assert!(did_collide(&a, &Position::new(48, 80), &board, CollisionType::Approximate));
    assert!(did_collide(&a, &Position::new(16, 48), &board, CollisionType::Approximate));
    assert!(!did_collide(&a, &Position::new(48, 81), &board, CollisionType::Approximate));
    assert!(!did_collide(&a, &Position::new(50, 50), &board, CollisionType::Approximate));
    assert!(!did_collide(&a, &Position::new(48, 80), &board, CollisionType::Exact));
    assert!(did_collide(&a, &Position::new(48, 48), &board, CollisionType::Exact));
}

#[test]
fn spawn_points_on_the_default_board() {
    let board = Board::new(32, 16);
    assert_eq!(get_ghost_spawn_coordinates(&board), Position::new(448, 560));
    assert_eq!(get_caleb_spawn_coordinates(&board), Position::new(448, 656));
    assert_eq!(get_harris_spawn_coordinates(&board), Position::new(384, 560));
    assert_eq!(get_samson_spawn_coordinates(&board), Position::new(512, 560));
    assert_eq!(get_ben_spawn_coordinates(&board), Position::new(448, 272));
}
