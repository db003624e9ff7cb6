use benja_man::board::{tile_from_char, Board, BoardTile, Position};
use benja_man::constants::{BOARD_CELL_SIZE, BOARD_OFFSET};
use benja_man::enums::Direction;

fn layout(rows: &[&str]) -> Vec<Vec<char>> {
    rows.iter().map(|r| r.chars().collect()).collect()
}

#[test]
fn default_board_has_standard_shape() {
    let board = Board::new(BOARD_CELL_SIZE, BOARD_OFFSET);
    assert_eq!(board.height(), 32);
    assert_eq!(board.width(), 28);
    assert_eq!(board.cell_size(), 32);
    assert_eq!(board.offset(), 16);
}

#[test]
fn default_board_tiles() {
    let board = Board::new(BOARD_CELL_SIZE, BOARD_OFFSET);
    assert_eq!(board.get_at(0, 0), Some(BoardTile::Wall));
    assert_eq!(board.get_at(1, 1), Some(BoardTile::Dot));
    assert_eq!(board.get_at(2, 1), Some(BoardTile::PowerUp));
    assert_eq!(board.get_at(22, 26), Some(BoardTile::PowerUp));
    assert_eq!(board.get_at(12, 13), Some(BoardTile::GhostGate));
    assert_eq!(board.get_at(12, 14), Some(BoardTile::GhostGate));
    assert_eq!(board.get_at(14, 13), Some(BoardTile::Empty));
    assert_eq!(board.get_at(11, 13), Some(BoardTile::Dot));
    assert_eq!(board.get_at(32, 0), None);
    assert_eq!(board.get_at(0, 28), None);
}

#[test]
fn grid_to_world_puts_row_zero_on_top() {
    let board = Board::new(32, 16);
    assert_eq!(board.indeces_to_coordinates(0, 0), Position::new(16, 1008));
    assert_eq!(board.indeces_to_coordinates(31, 27), Position::new(880, 16));
    assert_eq!(board.indeces_to_coordinates(14, 13), Position::new(432, 560));
}

#[test]
fn world_to_grid_is_floor_division() {
    let board = Board::new(32, 16);
    assert_eq!(board.coordinates_to_indeces(16, 1008), Some((0, 0)));
    assert_eq!(board.coordinates_to_indeces(880, 16), Some((31, 27)));
    assert_eq!(board.coordinates_to_indeces(47, 1008), Some((0, 0)));
    assert_eq!(board.coordinates_to_indeces(48, 1008), Some((0, 1)));
    assert_eq!(board.coordinates_to_indeces(16, 977), Some((0, 0)));
    assert_eq!(board.coordinates_to_indeces(16, 976), Some((1, 0)));
    assert_eq!(board.coordinates_to_indeces(15, 1008), None);
    assert_eq!(board.coordinates_to_indeces(16, 1009), None);
    assert_eq!(board.coordinates_to_indeces(912, 16), None);
    assert_eq!(board.coordinates_to_indeces(16, -16), None);
}

#[test]
fn tile_at_world_point() {
    let board = Board::new(32, 16);
    assert_eq!(board.tile_at(432, 560), Some(BoardTile::Empty));
    assert_eq!(board.tile_at(16, 1008), Some(BoardTile::Wall));
    assert_eq!(board.tile_at(-100, 16), None);
}

#[test]
fn centering_uses_the_offset() {
    let board = Board::new(32, 16);
    assert!(board.is_centered(16));
    assert!(board.is_centered(48));
    assert!(board.is_centered(-16));
    assert!(!board.is_centered(0));
    assert!(!board.is_centered(448));
    assert!(!board.is_centered(-17));
}

#[test]
fn layout_characters() {
    assert_eq!(tile_from_char('_'), Some(BoardTile::Empty));
    assert_eq!(tile_from_char('.'), Some(BoardTile::Dot));
    assert_eq!(tile_from_char('o'), Some(BoardTile::PowerUp));
    assert_eq!(tile_from_char('-'), Some(BoardTile::GhostGate));
    assert_eq!(tile_from_char('<'), Some(BoardTile::Wall));
    assert_eq!(tile_from_char('f'), Some(BoardTile::Wall));
    assert_eq!(tile_from_char('n'), Some(BoardTile::Wall));
    assert_eq!(tile_from_char('o'), Some(BoardTile::PowerUp));
    assert_eq!(tile_from_char('z'), None);
    assert_eq!(tile_from_char(' '), None);
}

#[test]
fn from_layout_accepts_rectangles_of_known_characters() {
    let board = Board::from_layout(&layout(&["jhi", "d.f", "lok"]), 32, 16).unwrap();
    assert_eq!(board.height(), 3);
    assert_eq!(board.width(), 3);
    assert_eq!(board.get_at(1, 1), Some(BoardTile::Dot));
    assert_eq!(board.get_at(2, 1), Some(BoardTile::PowerUp));
    assert_eq!(board.get_at(0, 0), Some(BoardTile::Wall));
}

#[test]
fn from_layout_rejects_bad_input() {
    assert!(Board::from_layout(&layout(&["jhi", "d.", "lbk"]), 32, 16).is_none());
    assert!(Board::from_layout(&layout(&["jhi", "dZf", "lbk"]), 32, 16).is_none());
    assert!(Board::from_layout(&layout(&[]), 32, 16).is_none());
    assert!(Board::from_layout(&layout(&[""]), 32, 16).is_none());
    assert!(Board::from_layout(&layout(&["jhi"]), 0, 16).is_none());
    assert!(Board::from_layout(&layout(&["jhi"]), 32, 2_000_000).is_none());
}

#[test]
fn set_at_replaces_one_tile() {
    let mut board = Board::new(32, 16);
    board.set_at(1, 1, BoardTile::Fruit);
    assert_eq!(board.get_at(1, 1), Some(BoardTile::Fruit));
    assert_eq!(board.get_at(1, 2), Some(BoardTile::Dot));
}

#[test]
fn step_moves_along_one_axis() {
    let p = Position::new(48, 48);
    assert_eq!(p.step(Direction::Up, 4), Position::new(48, 52));
    assert_eq!(p.step(Direction::Right, 4), Position::new(52, 48));
    assert_eq!(p.step(Direction::Down, 4), Position::new(48, 44));
    assert_eq!(p.step(Direction::Left, 4), Position::new(44, 48));
}

#[test]
fn dots_and_power_ups_sit_on_their_cells() {
    let rows: Vec<Vec<char>> = ["jhhi", "d.of", "d_.f", "lbbk"].iter().map(|r| r.chars().collect()).collect();
    let board = Board::from_layout(&rows, 32, 16).unwrap();
    let (dots, power_ups) = benja_man::collectibles::init_dots_and_power_ups(&board);
    assert_eq!(dots, vec![Position::new(48, 80), Position::new(80, 48)]);
    assert_eq!(power_ups, vec![Position::new(80, 80)]);
}

#[test]
fn standard_maze_landmarks() {
    let board = Board::new(32, 16);
    for j in 0..28 {
        assert_eq!(board.get_at(0, j), Some(BoardTile::Wall));
        assert_eq!(board.get_at(30, j), Some(BoardTile::Wall));
        assert_eq!(board.get_at(31, j), Some(BoardTile::Empty));
    }
    for j in 11..17 {
        assert_eq!(board.get_at(14, j), Some(BoardTile::Empty));
    }
    assert_eq!(board.get_at(14, 0), Some(BoardTile::Dot));
    assert_eq!(board.get_at(23, 13), Some(BoardTile::Dot));
}

#[test]
fn each_dot_is_listed_once() {
    let board = Board::new(32, 16);
    let (dots, power_ups) = benja_man::collectibles::init_dots_and_power_ups(&board);
    for (k, d) in dots.iter().enumerate() {
        assert!(!dots[k + 1..].contains(d));
    }
    assert_eq!(dots.len(), 296);
    assert_eq!(power_ups.len(), 4);
}
