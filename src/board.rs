use vstd::prelude::*;
use crate::enums::Direction;
use vstd::arithmetic::div_mod::{lemma_fundamental_div_mod, lemma_fundamental_div_mod_converse};

verus! {

/// Largest number of rows, and of columns, that a board may have.
pub const MAX_BOARD_DIM: usize = 1048576;

/// Largest cell size in world units, and largest magnitude of the world offset.
pub const MAX_CELL_SIZE: i64 = 1048576;

/// Largest magnitude of a world coordinate that an entity may occupy.
pub const WORLD_LIMIT: i64 = 17592186044416;

/// Largest magnitude of a world coordinate that a grid query accepts.
pub const QUERY_LIMIT: i64 = 35184372088832;

/// Largest distance that an entity may travel in one tick.
pub const MAX_SPEED: i64 = 1099511627776;

/// What occupies one cell of the grid.
#[derive(Clone, Copy, Debug, PartialEq, Eq, Structural)]
pub enum BoardTile {
    Empty,
    Wall,
    Dot,
    PowerUp,
    Fruit,
    GhostGate,
}

/// A point in world space; y grows upward.
#[derive(Clone, Copy, Debug, PartialEq, Eq, Structural)]
pub struct Position {
    pub x: i64,
    pub y: i64,
}

impl Position {
    pub open spec fn in_world(self) -> bool {
        &&& -WORLD_LIMIT <= self.x <= WORLD_LIMIT
        &&& -WORLD_LIMIT <= self.y <= WORLD_LIMIT
    }

    /// The point `dist` units away in direction `d`.
    pub open spec fn spec_step(self, d: Direction, dist: int) -> Position {
        match d {
            Direction::Up => Position { x: self.x, y: (self.y + dist) as i64 },
            Direction::Right => Position { x: (self.x + dist) as i64, y: self.y },
            Direction::Down => Position { x: self.x, y: (self.y - dist) as i64 },
            Direction::Left => Position { x: (self.x - dist) as i64, y: self.y },
        }
    }

    pub fn new(x: i64, y: i64) -> (r: Position)
        ensures
            r.x == x,
            r.y == y,
    {
        Position { x, y }
    }

    /// Moves `distance` units in `direction`, without any bounds check against a board.
    pub fn step(self, direction: Direction, distance: i64) -> (r: Position)
        requires
            self.in_world(),
            0 <= distance <= MAX_SPEED,
        ensures
            r == self.spec_step(direction, distance as int),
            -WORLD_LIMIT - MAX_SPEED <= r.x <= WORLD_LIMIT + MAX_SPEED,
            -WORLD_LIMIT - MAX_SPEED <= r.y <= WORLD_LIMIT + MAX_SPEED,
    {
        match direction {
            Direction::Up => Position { x: self.x, y: self.y + distance },
            Direction::Right => Position { x: self.x + distance, y: self.y },
            Direction::Down => Position { x: self.x, y: self.y - distance },
            Direction::Left => Position { x: self.x - distance, y: self.y },
        }
    }
}

/// The grid of tiles together with the transform between grid indices and
/// world coordinates. Row 0 is the top row; world y grows upward.
pub struct Board {
    matrix: Vec<Vec<BoardTile>>,
    cell_size: i64,
    offset: i64,
}

/// The tile that a character of a level layout stands for.
pub open spec fn layout_tile(c: char) -> Option<BoardTile> {
    if c == '_' {
        Some(BoardTile::Empty)
    } else if c == '.' {
        Some(BoardTile::Dot)
    } else if c == 'o' {
        Some(BoardTile::PowerUp)
    } else if c == '-' {
        Some(BoardTile::GhostGate)
    } else if c == '<' || c == '>' || c == '^' || c == 'v' || ('a' <= c && c <= 'n') {
        Some(BoardTile::Wall)
    } else {
        None
    }
}

/// Decodes one character of a level layout: `_` empty, `.` dot, `o` power-up,
/// `-` ghost gate, and the wall-shape characters `<`, `>`, `^`, `v` and `a` to `n`.
pub fn tile_from_char(c: char) -> (r: Option<BoardTile>)
    ensures
        r == layout_tile(c),
{
    if c == '_' {
        Some(BoardTile::Empty)
    } else if c == '.' {
        Some(BoardTile::Dot)
    } else if c == 'o' {
        Some(BoardTile::PowerUp)
    } else if c == '-' {
        Some(BoardTile::GhostGate)
    } else if c == '<' || c == '>' || c == '^' || c == 'v' || ('a' <= c && c <= 'n') {
        Some(BoardTile::Wall)
    } else {
        None
    }
}

/// A layout is accepted when it is a non-empty rectangle of known characters.
pub open spec fn layout_ok(layout: Seq<Seq<char>>) -> bool {
    &&& 0 < layout.len() <= MAX_BOARD_DIM
    &&& 0 < layout[0].len() <= MAX_BOARD_DIM
    &&& forall|i: int| 0 <= i < layout.len() ==> #[trigger] layout[i].len() == layout[0].len()
    &&& forall|i: int, j: int|
        0 <= i < layout.len() && 0 <= j < layout[i].len() ==> #[trigger] layout_tile(
            layout[i][j],
        ).is_some()
}

/// The tiles that an accepted layout decodes to.
pub open spec fn layout_tiles(layout: Seq<Seq<char>>) -> Seq<Seq<BoardTile>> {
    layout.map_values(|row: Seq<char>| row.map_values(|c: char| layout_tile(c).unwrap()))
}

pub open spec fn geometry_ok(cell_size: int, offset: int) -> bool {
    0 < cell_size <= MAX_CELL_SIZE && -MAX_CELL_SIZE <= offset <= MAX_CELL_SIZE
}

pub open spec fn passable(t: BoardTile) -> bool {
    t != BoardTile::Wall && t != BoardTile::GhostGate
}

/// Short names for the tiles, used to write out the standard maze.
pub const E: BoardTile = BoardTile::Empty;

pub const W: BoardTile = BoardTile::Wall;

pub const D: BoardTile = BoardTile::Dot;

pub const P: BoardTile = BoardTile::PowerUp;

pub const G: BoardTile = BoardTile::GhostGate;

/// Row `i` of the standard maze.
pub open spec fn standard_row(i: int) -> Seq<BoardTile> {
    if i == 0 {
        seq![W, W, W, W, W, W, W, W, W, W, W, W, W, W, W, W, W, W, W, W, W, W, W, W, W, W, W, W]
    } else if i == 1 {
        seq![W, D, D, D, D, D, D, D, D, D, D, D, D, W, W, D, D, D, D, D, D, D, D, D, D, D, D, W]
    } else if i == 2 {
        seq![W, P, W, W, W, W, D, W, W, W, W, W, D, W, W, D, W, W, W, W, W, D, W, W, W, W, P, W]
    } else if i == 3 {
        seq![W, D, W, E, E, W, D, W, E, E, E, W, D, W, W, D, W, E, E, E, W, D, W, E, E, W, D, W]
    } else if i == 4 {
        seq![W, D, W, W, W, W, D, W, W, W, W, W, D, W, W, D, W, W, W, W, W, D, W, W, W, W, D, W]
    } else if i == 5 {
        seq![W, D, D, D, D, D, D, D, D, D, D, D, D, D, D, D, D, D, D, D, D, D, D, D, D, D, D, W]
    } else if i == 6 {
        seq![W, D, W, W, W, W, D, W, W, D, W, W, W, W, W, W, W, W, D, W, W, D, W, W, W, W, D, W]
    } else if i == 7 {
        seq![W, D, W, W, W, W, D, W, W, D, W, W, W, W, W, W, W, W, D, W, W, D, W, W, W, W, D, W]
    } else if i == 8 {
        seq![W, D, D, D, D, D, D, W, W, D, D, D, D, W, W, D, D, D, D, W, W, D, D, D, D, D, D, W]
    } else if i == 9 {
        seq![W, W, W, W, W, W, D, W, W, W, W, W, D, W, W, D, W, W, W, W, W, D, W, W, W, W, W, W]
    } else if i == 10 {
        seq![E, E, E, E, E, W, D, W, W, W, W, W, D, W, W, D, W, W, W, W, W, D, W, E, E, E, E, E]
    } else if i == 11 {
        seq![E, E, E, E, E, W, D, W, W, D, D, D, D, D, D, D, D, D, D, W, W, D, W, E, E, E, E, E]
    } else if i == 12 {
        seq![E, E, E, E, E, W, D, W, W, D, W, W, W, G, G, W, W, W, D, W, W, D, W, E, E, E, E, E]
    } else if i == 13 {
        seq![W, W, W, W, W, W, D, W, W, D, W, E, E, E, E, E, E, W, D, W, W, D, W, W, W, W, W, W]
    } else if i == 14 {
        seq![D, D, D, D, D, D, D, D, D, D, W, E, E, E, E, E, E, W, D, D, D, D, D, D, D, D, D, D]
    } else if i == 15 {
        seq![W, W, W, W, W, W, D, W, W, D, W, E, E, E, E, E, E, W, D, W, W, D, W, W, W, W, W, W]
    } else if i == 16 {
        seq![E, E, E, E, E, W, D, W, W, D, W, W, W, W, W, W, W, W, D, W, W, D, W, E, E, E, E, E]
    } else if i == 17 {
        seq![E, E, E, E, E, W, D, W, W, D, D, D, D, D, D, D, D, D, D, W, W, D, W, E, E, E, E, E]
    } else if i == 18 {
        seq![E, E, E, E, E, W, D, W, W, D, W, W, W, W, W, W, W, W, D, W, W, D, W, E, E, E, E, E]
    } else if i == 19 {
        seq![W, W, W, W, W, W, D, W, W, D, W, W, W, W, W, W, W, W, D, W, W, D, W, W, W, W, W, W]
    } else if i == 20 {
        seq![W, D, D, D, D, D, D, D, D, D, D, D, D, W, W, D, D, D, D, D, D, D, D, D, D, D, D, W]
    } else if i == 21 {
        seq![W, D, W, W, W, W, D, W, W, W, W, W, D, W, W, D, W, W, W, W, W, D, W, W, W, W, D, W]
    } else if i == 22 {
        seq![W, P, W, W, W, W, D, W, W, W, W, W, D, W, W, D, W, W, W, W, W, D, W, W, W, W, P, W]
    } else if i == 23 {
        seq![W, D, D, D, W, W, D, D, D, D, D, D, D, D, D, D, D, D, D, D, D, D, W, W, D, D, D, W]
    } else if i == 24 {
        seq![W, W, W, D, W, W, D, W, W, D, W, W, W, W, W, W, W, W, D, W, W, D, W, W, D, W, W, W]
    } else if i == 25 {
        seq![W, W, W, D, W, W, D, W, W, D, W, W, W, W, W, W, W, W, D, W, W, D, W, W, D, W, W, W]
    } else if i == 26 {
        seq![W, D, D, D, D, D, D, W, W, D, D, D, D, W, W, D, D, D, D, W, W, D, D, D, D, D, D, W]
    } else if i == 27 {
        seq![W, D, W, W, W, W, W, W, W, W, W, W, D, W, W, D, W, W, W, W, W, W, W, W, W, W, D, W]
    } else if i == 28 {
        seq![W, D, W, W, W, W, W, W, W, W, W, W, D, W, W, D, W, W, W, W, W, W, W, W, W, W, D, W]
    } else if i == 29 {
        seq![W, D, D, D, D, D, D, D, D, D, D, D, D, D, D, D, D, D, D, D, D, D, D, D, D, D, D, W]
    } else if i == 30 {
        seq![W, W, W, W, W, W, W, W, W, W, W, W, W, W, W, W, W, W, W, W, W, W, W, W, W, W, W, W]
    } else {
        seq![E, E, E, E, E, E, E, E, E, E, E, E, E, E, E, E, E, E, E, E, E, E, E, E, E, E, E, E]
    }
}

/// The standard maze: 32 rows of 28 cells, with the ghost den in the middle
/// and its gate on row 12.
pub open spec fn standard_tiles() -> Seq<Seq<BoardTile>> {
    Seq::new(32, |i: int| standard_row(i))
}

fn push_row(rows: &mut Vec<Vec<BoardTile>>, row: Vec<BoardTile>)
    requires
        old(rows)@.len() < 32,
        row@ == standard_row(old(rows)@.len() as int),
        forall|i: int| 0 <= i < old(rows)@.len() ==> #[trigger] old(rows)@[i]@ == standard_row(i),
    ensures
        final(rows)@.len() == old(rows)@.len() + 1,
        forall|i: int| 0 <= i < final(rows)@.len() ==> #[trigger] final(rows)@[i]@ == standard_row(i),
{
    rows.push(row);
}

fn default_matrix() -> (r: Vec<Vec<BoardTile>>)
    ensures
        r@.map_values(|row: Vec<BoardTile>| row@) == standard_tiles(),
{
    let mut rows: Vec<Vec<BoardTile>> = Vec::new();
    push_row(&mut rows, vec![W, W, W, W, W, W, W, W, W, W, W, W, W, W, W, W, W, W, W, W, W, W, W, W, W, W, W, W]);
    push_row(&mut rows, vec![W, D, D, D, D, D, D, D, D, D, D, D, D, W, W, D, D, D, D, D, D, D, D, D, D, D, D, W]);
    push_row(&mut rows, vec![W, P, W, W, W, W, D, W, W, W, W, W, D, W, W, D, W, W, W, W, W, D, W, W, W, W, P, W]);
    push_row(&mut rows, vec![W, D, W, E, E, W, D, W, E, E, E, W, D, W, W, D, W, E, E, E, W, D, W, E, E, W, D, W]);
    push_row(&mut rows, vec![W, D, W, W, W, W, D, W, W, W, W, W, D, W, W, D, W, W, W, W, W, D, W, W, W, W, D, W]);
    push_row(&mut rows, vec![W, D, D, D, D, D, D, D, D, D, D, D, D, D, D, D, D, D, D, D, D, D, D, D, D, D, D, W]);
    push_row(&mut rows, vec![W, D, W, W, W, W, D, W, W, D, W, W, W, W, W, W, W, W, D, W, W, D, W, W, W, W, D, W]);
    push_row(&mut rows, vec![W, D, W, W, W, W, D, W, W, D, W, W, W, W, W, W, W, W, D, W, W, D, W, W, W, W, D, W]);
    push_row(&mut rows, vec![W, D, D, D, D, D, D, W, W, D, D, D, D, W, W, D, D, D, D, W, W, D, D, D, D, D, D, W]);
    push_row(&mut rows, vec![W, W, W, W, W, W, D, W, W, W, W, W, D, W, W, D, W, W, W, W, W, D, W, W, W, W, W, W]);
    push_row(&mut rows, vec![E, E, E, E, E, W, D, W, W, W, W, W, D, W, W, D, W, W, W, W, W, D, W, E, E, E, E, E]);
    push_row(&mut rows, vec![E, E, E, E, E, W, D, W, W, D, D, D, D, D, D, D, D, D, D, W, W, D, W, E, E, E, E, E]);
    push_row(&mut rows, vec![E, E, E, E, E, W, D, W, W, D, W, W, W, G, G, W, W, W, D, W, W, D, W, E, E, E, E, E]);
    push_row(&mut rows, vec![W, W, W, W, W, W, D, W, W, D, W, E, E, E, E, E, E, W, D, W, W, D, W, W, W, W, W, W]);
    push_row(&mut rows, vec![D, D, D, D, D, D, D, D, D, D, W, E, E, E, E, E, E, W, D, D, D, D, D, D, D, D, D, D]);
    push_row(&mut rows, vec![W, W, W, W, W, W, D, W, W, D, W, E, E, E, E, E, E, W, D, W, W, D, W, W, W, W, W, W]);
    push_row(&mut rows, vec![E, E, E, E, E, W, D, W, W, D, W, W, W, W, W, W, W, W, D, W, W, D, W, E, E, E, E, E]);
    push_row(&mut rows, vec![E, E, E, E, E, W, D, W, W, D, D, D, D, D, D, D, D, D, D, W, W, D, W, E, E, E, E, E]);
    push_row(&mut rows, vec![E, E, E, E, E, W, D, W, W, D, W, W, W, W, W, W, W, W, D, W, W, D, W, E, E, E, E, E]);
    push_row(&mut rows, vec![W, W, W, W, W, W, D, W, W, D, W, W, W, W, W, W, W, W, D, W, W, D, W, W, W, W, W, W]);
    push_row(&mut rows, vec![W, D, D, D, D, D, D, D, D, D, D, D, D, W, W, D, D, D, D, D, D, D, D, D, D, D, D, W]);
    push_row(&mut rows, vec![W, D, W, W, W, W, D, W, W, W, W, W, D, W, W, D, W, W, W, W, W, D, W, W, W, W, D, W]);
    push_row(&mut rows, vec![W, P, W, W, W, W, D, W, W, W, W, W, D, W, W, D, W, W, W, W, W, D, W, W, W, W, P, W]);
    push_row(&mut rows, vec![W, D, D, D, W, W, D, D, D, D, D, D, D, D, D, D, D, D, D, D, D, D, W, W, D, D, D, W]);
    push_row(&mut rows, vec![W, W, W, D, W, W, D, W, W, D, W, W, W, W, W, W, W, W, D, W, W, D, W, W, D, W, W, W]);
    push_row(&mut rows, vec![W, W, W, D, W, W, D, W, W, D, W, W, W, W, W, W, W, W, D, W, W, D, W, W, D, W, W, W]);
    push_row(&mut rows, vec![W, D, D, D, D, D, D, W, W, D, D, D, D, W, W, D, D, D, D, W, W, D, D, D, D, D, D, W]);
    push_row(&mut rows, vec![W, D, W, W, W, W, W, W, W, W, W, W, D, W, W, D, W, W, W, W, W, W, W, W, W, W, D, W]);
    push_row(&mut rows, vec![W, D, W, W, W, W, W, W, W, W, W, W, D, W, W, D, W, W, W, W, W, W, W, W, W, W, D, W]);
    push_row(&mut rows, vec![W, D, D, D, D, D, D, D, D, D, D, D, D, D, D, D, D, D, D, D, D, D, D, D, D, D, D, W]);
    push_row(&mut rows, vec![W, W, W, W, W, W, W, W, W, W, W, W, W, W, W, W, W, W, W, W, W, W, W, W, W, W, W, W]);
    push_row(&mut rows, vec![E, E, E, E, E, E, E, E, E, E, E, E, E, E, E, E, E, E, E, E, E, E, E, E, E, E, E, E]);
    assert(rows@.map_values(|row: Vec<BoardTile>| row@) =~= standard_tiles());
    rows
}

proof fn lemma_negation_keeps_divisibility(d: int, c: int)
    requires
        c > 0,
    ensures
        (d % c == 0) == ((-d) % c == 0),
{
    lemma_fundamental_div_mod(d, c);
    lemma_fundamental_div_mod(-d, c);
    let q = d / c;
    let q2 = (-d) / c;
    if d % c == 0 {
        assert(-d == (-q) * c) by (nonlinear_arith)
            requires
                d == c * q,
        ;
        lemma_fundamental_div_mod_converse(-d, c, -q, 0);
    }
    if (-d) % c == 0 {
        assert(d == (-q2) * c) by (nonlinear_arith)
            requires
                -d == c * q2,
        ;
        lemma_fundamental_div_mod_converse(d, c, -q2, 0);
    }
}

impl Board {
    pub closed spec fn tiles(&self) -> Seq<Seq<BoardTile>> {
        self.matrix@.map_values(|row: Vec<BoardTile>| row@)
    }

    pub closed spec fn spec_cell_size(&self) -> int {
        self.cell_size as int
    }

    pub closed spec fn spec_offset(&self) -> int {
        self.offset as int
    }

    pub open spec fn spec_height(&self) -> int {
        self.tiles().len() as int
    }

    pub open spec fn spec_width(&self) -> int {
        self.tiles()[0].len() as int
    }

    /// Well-formed: a non-empty rectangle within the size limits, and a sane geometry.
    pub open spec fn wf(&self) -> bool {
        &&& 0 < self.spec_height() <= MAX_BOARD_DIM
        &&& 0 < self.spec_width() <= MAX_BOARD_DIM
        &&& forall|i: int|
            0 <= i < self.spec_height() ==> #[trigger] self.tiles()[i].len() == self.spec_width()
        &&& geometry_ok(self.spec_cell_size(), self.spec_offset())
    }

    pub open spec fn valid_indices(&self, i: int, j: int) -> bool {
        0 <= i < self.spec_height() && 0 <= j < self.spec_width()
    }

    pub open spec fn tile(&self, i: int, j: int) -> BoardTile {
        self.tiles()[i][j]
    }

    /// World y of the centre line of row 0.
    pub open spec fn top_y(&self) -> int {
        (self.spec_height() - 1) * self.spec_cell_size() + self.spec_offset()
    }

    /// World x of the centre line of column `j`.
    pub open spec fn x_of(&self, j: int) -> int {
        j * self.spec_cell_size() + self.spec_offset()
    }

    /// World y of the centre line of row `i`.
    pub open spec fn y_of(&self, i: int) -> int {
        (self.spec_height() - i - 1) * self.spec_cell_size() + self.spec_offset()
    }

    /// Row index of world y, by floor division.
    pub open spec fn row_of(&self, y: int) -> int {
        (self.top_y() - y) / self.spec_cell_size()
    }

    /// Column index of world x, by floor division.
    pub open spec fn col_of(&self, x: int) -> int {
        (x - self.spec_offset()) / self.spec_cell_size()
    }

    /// The tile under a world point, if the point lies on the grid.
    pub open spec fn tile_at_point(&self, x: int, y: int) -> Option<BoardTile> {
        if self.valid_indices(self.row_of(y), self.col_of(x)) {
            Some(self.tile(self.row_of(y), self.col_of(x)))
        } else {
            None
        }
    }

    /// Whether a world coordinate lies on a grid line (cell centre) of the given axis.
    pub open spec fn centered(&self, coordinate: int) -> bool {
        (coordinate - self.spec_offset()) % self.spec_cell_size() == 0
    }

    pub proof fn lemma_extent(&self)
        requires
            self.wf(),
        ensures
            0 <= (self.spec_height() - 1) * self.spec_cell_size() <= 1099511627776,
            0 < self.spec_height() * self.spec_cell_size() <= 1099511627776,
            0 < self.spec_width() * self.spec_cell_size() <= 1099511627776,
            -MAX_CELL_SIZE <= self.top_y() <= 1099511627776 + MAX_CELL_SIZE,
    {
        let h = self.spec_height();
        let w = self.spec_width();
        let c = self.spec_cell_size();
        assert(0 <= (h - 1) * c <= 1099511627776) by (nonlinear_arith)
            requires
                0 < h <= 1048576,
                0 < c <= 1048576,
        ;
        assert(0 < h * c <= 1099511627776) by (nonlinear_arith)
            requires
                0 < h <= 1048576,
                0 < c <= 1048576,
        ;
        assert(0 < w * c <= 1099511627776) by (nonlinear_arith)
            requires
                0 < w <= 1048576,
                0 < c <= 1048576,
        ;
    }

    /// Builds a board from a level layout given as rows of characters
    /// (see `tile_from_char`); `None` when the layout is not a non-empty
    /// rectangle of known characters or the geometry is out of range.
    pub fn from_layout(layout: &Vec<Vec<char>>, cell_size: i64, offset: i64) -> (r: Option<Board>)
        ensures
            r.is_some() <==> layout_ok(layout@.map_values(|row: Vec<char>| row@)) && geometry_ok(
                cell_size as int,
                offset as int,
            ),
            r.is_some() ==> {
                let b = r.unwrap();
                &&& b.wf()
                &&& b.tiles() == layout_tiles(layout@.map_values(|row: Vec<char>| row@))
                &&& b.spec_cell_size() == cell_size
                &&& b.spec_offset() == offset
            },
    {
        let ghost chars = layout@.map_values(|row: Vec<char>| row@);
        if !(0 < cell_size && cell_size <= MAX_CELL_SIZE && -MAX_CELL_SIZE <= offset && offset
            <= MAX_CELL_SIZE) {
            return None;
        }
        let height = layout.len();
        if height == 0 || height > MAX_BOARD_DIM {
            return None;
        }
        let width = layout[0].len();
        if width == 0 || width > MAX_BOARD_DIM {
            return None;
        }
        let mut matrix: Vec<Vec<BoardTile>> = Vec::new();
        let mut i: usize = 0;
        while i < height
            invariant
                height == layout@.len(),
                chars == layout@.map_values(|row: Vec<char>| row@),
                width == chars[0].len(),
                0 < height <= MAX_BOARD_DIM,
                0 < width <= MAX_BOARD_DIM,
                i <= height,
                matrix@.len() == i,
                forall|k: int| 0 <= k < i ==> #[trigger] chars[k].len() == width,
                forall|k: int, j: int|
                    0 <= k < i && 0 <= j < chars[k].len() ==> #[trigger] layout_tile(
                        chars[k][j],
                    ).is_some(),
                forall|k: int|
                    0 <= k < i ==> #[trigger] matrix@[k]@ == chars[k].map_values(
                        |c: char| layout_tile(c).unwrap(),
                    ),
            decreases height - i,
        {
            let row = &layout[i];
            if row.len() != width {
                assert(chars[i as int].len() != chars[0].len());
                return None;
            }
            let mut tiles: Vec<BoardTile> = Vec::new();
            let mut j: usize = 0;
            while j < width
                invariant
                    i < height,
                    height == layout@.len(),
                    chars == layout@.map_values(|row: Vec<char>| row@),
                    row@ == chars[i as int],
                    row@.len() == width,
                    j <= width,
                    tiles@.len() == j,
                    forall|m: int| 0 <= m < j ==> #[trigger] layout_tile(row@[m]).is_some(),
                    forall|m: int|
                        0 <= m < j ==> tiles@[m] == #[trigger] layout_tile(row@[m]).unwrap(),
                decreases width - j,
            {
                match tile_from_char(row[j]) {
                    Some(t) => tiles.push(t),
                    None => {
                        assert(!layout_tile(chars[i as int][j as int]).is_some());
                        return None;
                    },
                }
                j = j + 1;
            }
            assert(tiles@ == chars[i as int].map_values(|c: char| layout_tile(c).unwrap()));
            matrix.push(tiles);
            i = i + 1;
        }
        let board = Board { matrix, cell_size, offset };
        assert(board.tiles() == layout_tiles(chars));
        Some(board)
    }

    /// The standard maze (32 rows of 28 cells) with the given geometry.
    pub fn new(cell_size: i64, offset: i64) -> (r: Board)
        requires
            geometry_ok(cell_size as int, offset as int),
        ensures
            r.wf(),
            r.tiles() == standard_tiles(),
            r.spec_height() == 32,
            r.spec_width() == 28,
            r.spec_cell_size() == cell_size,
            r.spec_offset() == offset,
    {
        let matrix = default_matrix();
        let board = Board { matrix, cell_size, offset };
        assert forall|i: int| 0 <= i < 32 implies #[trigger] standard_tiles()[i].len() == 28 by {}
        board
    }

    pub fn width(&self) -> (r: usize)
        requires
            self.wf(),
        ensures
            r == self.spec_width(),
    {
        self.matrix[0].len()
    }

    pub fn height(&self) -> (r: usize)
        requires
            self.wf(),
        ensures
            r == self.spec_height(),
    {
        self.matrix.len()
    }

    pub fn cell_size(&self) -> (r: i64)
        ensures
            r == self.spec_cell_size(),
    {
        self.cell_size
    }

    pub fn offset(&self) -> (r: i64)
        ensures
            r == self.spec_offset(),
    {
        self.offset
    }

    fn indeces_valid(&self, i: usize, j: usize) -> (r: bool)
        requires
            self.wf(),
        ensures
            r == self.valid_indices(i as int, j as int),
    {
        i < self.matrix.len() && j < self.matrix[0].len()
    }

    /// The tile at row `i`, column `j`; `None` outside the grid.
    pub fn get_at(&self, i: usize, j: usize) -> (r: Option<BoardTile>)
        requires
            self.wf(),
        ensures
            r == (if self.valid_indices(i as int, j as int) {
                Some(self.tile(i as int, j as int))
            } else {
                None
            }),
    {
        if self.indeces_valid(i, j) {
            Some(self.matrix[i][j])
        } else {
            None
        }
    }

    /// Replaces the tile at row `i`, column `j`.
    pub fn set_at(&mut self, i: usize, j: usize, val: BoardTile)
        requires
            old(self).wf(),
            old(self).valid_indices(i as int, j as int),
        ensures
            final(self).wf(),
            final(self).tiles() == old(self).tiles().update(
                i as int,
                old(self).tiles()[i as int].update(j as int, val),
            ),
            final(self).spec_cell_size() == old(self).spec_cell_size(),
            final(self).spec_offset() == old(self).spec_offset(),
    {
        let mut row = self.matrix.remove(i);
        assert(row@ == old(self).tiles()[i as int]);
        row.set(j, val);
        self.matrix.insert(i, row);
        assert(self.tiles() =~= old(self).tiles().update(
            i as int,
            old(self).tiles()[i as int].update(j as int, val),
        ));
    }

    /// World coordinates of the centre of cell (`i`, `j`).
    pub fn indeces_to_coordinates(&self, i: usize, j: usize) -> (r: Position)
        requires
            self.wf(),
            self.valid_indices(i as int, j as int),
        ensures
            r.x == self.x_of(j as int),
            r.y == self.y_of(i as int),
            r.in_world(),
    {
        proof {
            self.lemma_extent();
            let c = self.spec_cell_size();
            let h = self.spec_height();
            assert(0 <= (j as int) * c <= 1099511627776) by (nonlinear_arith)
                requires
                    0 <= j < 1048576,
                    0 < c <= 1048576,
            ;
            assert(0 <= (h - i - 1) * c <= 1099511627776) by (nonlinear_arith)
                requires
                    0 <= i < h <= 1048576,
                    0 < c <= 1048576,
            ;
        }
        let rows_below = (self.matrix.len() - i - 1) as i64;
        Position { x: j as i64 * self.cell_size + self.offset, y: rows_below * self.cell_size + self.offset }
    }

    /// Grid indices (row, column) of the cell containing a world point, by
    /// floor division; `None` when the point is off the grid.
    pub fn coordinates_to_indeces(&self, x: i64, y: i64) -> (r: Option<(usize, usize)>)
        requires
            self.wf(),
            -QUERY_LIMIT <= x <= QUERY_LIMIT,
            -QUERY_LIMIT <= y <= QUERY_LIMIT,
        ensures
            r.is_some() == self.valid_indices(self.row_of(y as int), self.col_of(x as int)),
            r.is_some() ==> r.unwrap().0 == self.row_of(y as int) && r.unwrap().1 == self.col_of(
                x as int,
            ),
    {
        proof {
            self.lemma_extent();
        }
        let top = (self.matrix.len() - 1) as i64 * self.cell_size + self.offset;
        let ry = top - y;
        let rx = x - self.offset;
        let c = self.cell_size;
        if ry < 0 || rx < 0 {
            proof {
                if ry < 0 {
                    assert((ry as int) / (c as int) < 0) by (nonlinear_arith)
                        requires
                            ry < 0,
                            c > 0,
                    ;
                }
                if rx < 0 {
                    assert((rx as int) / (c as int) < 0) by (nonlinear_arith)
                        requires
                            rx < 0,
                            c > 0,
                    ;
                }
            }
            return None;
        }
        let i = ry / c;
        let j = rx / c;
        if i < self.matrix.len() as i64 && j < self.matrix[0].len() as i64 {
            Some((i as usize, j as usize))
        } else {
            None
        }
    }

    /// The tile under a world point; `None` when the point is off the grid.
    pub fn tile_at(&self, x: i64, y: i64) -> (r: Option<BoardTile>)
        requires
            self.wf(),
            -QUERY_LIMIT <= x <= QUERY_LIMIT,
            -QUERY_LIMIT <= y <= QUERY_LIMIT,
        ensures
            r == self.tile_at_point(x as int, y as int),
    {
        match self.coordinates_to_indeces(x, y) {
            Some((i, j)) => self.get_at(i, j),
            None => None,
        }
    }

    /// Whether a world coordinate lies on a cell centre line.
    pub fn is_centered(&self, coordinate: i64) -> (r: bool)
        requires
            self.wf(),
            -QUERY_LIMIT <= coordinate <= QUERY_LIMIT,
        ensures
            r == self.centered(coordinate as int),
    {
        let d = coordinate - self.offset;
        let c = self.cell_size;
        if d >= 0 {
            d % c == 0
        } else {
            let r = (-d) % c;
            proof {
                lemma_negation_keeps_divisibility(d as int, c as int);
            }
            r == 0
        }
    }
}

} // verus!
