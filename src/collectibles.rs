use vstd::prelude::*;
use crate::board::{Board, BoardTile, Position};
use crate::path::all_in_world;

verus! {

/// Index of the first item equal to `p` at or after `from`, or the length.
pub open spec fn first_index_from(items: Seq<Position>, p: Position, from: int) -> int
    decreases items.len() - from,
{
    if from < 0 || from >= items.len() {
        items.len() as int
    } else if items[from] == p {
        from
    } else {
        first_index_from(items, p, from + 1)
    }
}

/// Which item Ben picks up at `p`: an item lying exactly there (the first such),
/// provided Ben is centred on both axes.
pub open spec fn collect_index(board: &Board, p: Position, items: Seq<Position>) -> Option<int> {
    if board.centered(p.x as int) && board.centered(p.y as int) && items.contains(p) {
        Some(first_index_from(items, p, 0))
    } else {
        None
    }
}

proof fn lemma_first_index(items: Seq<Position>, p: Position, from: int, k: int)
    requires
        0 <= from <= k < items.len(),
        items[k] == p,
    ensures
        from <= first_index_from(items, p, from) <= k,
        items[first_index_from(items, p, from)] == p,
    decreases k - from,
{
    if items[from] != p {
        lemma_first_index(items, p, from + 1, k);
    }
}

/// The item (dot or power-up) that Ben at `ben` picks up, by index.
pub fn collectible_at(ben: &Position, items: &Vec<Position>, board: &Board) -> (r: Option<usize>)
    requires
        board.wf(),
        ben.in_world(),
    ensures
        r matches Some(k) ==> collect_index(board, *ben, items@) == Some(k as int) && k
            < items@.len() && items@[k as int] == *ben,
        r is None ==> collect_index(board, *ben, items@) is None,
{
    if !(board.is_centered(ben.x) && board.is_centered(ben.y)) {
        return None;
    }
    let n = items.len();
    let mut i: usize = 0;
    while i < n
        invariant
            n == items@.len(),
            i <= n,
            board.centered(ben.x as int) && board.centered(ben.y as int),
            forall|k: int| 0 <= k < i ==> items@[k] != *ben,
            first_index_from(items@, *ben, 0) == first_index_from(items@, *ben, i as int),
        decreases n - i,
    {
        if items[i] == *ben {
            proof {
                lemma_first_index(items@, *ben, 0, i as int);
                assert(items@.contains(*ben));
            }
            return Some(i);
        }
        i = i + 1;
    }
    None
}

/// World position of the centre of cell (`i`, `j`).
pub open spec fn cell_center(board: &Board, i: int, j: int) -> Position {
    Position { x: board.x_of(j) as i64, y: board.y_of(i) as i64 }
}

/// `p` is the centre of some cell holding `kind`.
pub open spec fn is_placed(board: &Board, kind: BoardTile, p: Position) -> bool {
    exists|i: int, j: int|
        board.valid_indices(i, j) && #[trigger] board.tile(i, j) == kind && p == cell_center(
            board,
            i,
            j,
        )
}

/// `p` comes before the centre of cell (`i`, `j`) in row-major order: on a
/// higher row, or on the same row further left.
pub open spec fn before_cell(board: &Board, p: Position, i: int, j: int) -> bool {
    p.y > board.y_of(i) || (p.y == board.y_of(i) && p.x < board.x_of(j))
}

proof fn lemma_next_cell(board: &Board, i: int, j: int)
    requires
        board.wf(),
    ensures
        board.x_of(j + 1) == board.x_of(j) + board.spec_cell_size(),
        board.y_of(i + 1) == board.y_of(i) - board.spec_cell_size(),
{
    let c = board.spec_cell_size();
    let h = board.spec_height();
    assert((j + 1) * c == j * c + c) by (nonlinear_arith);
    assert((h - (i + 1) - 1) * c == (h - i - 1) * c - c) by (nonlinear_arith);
}

/// The centres of all cells holding `kind`, in row-major order, each once.
pub fn tile_centers(board: &Board, kind: BoardTile) -> (r: Vec<Position>)
    requires
        board.wf(),
    ensures
        all_in_world(r@),
        r@.no_duplicates(),
        forall|k: int| 0 <= k < r@.len() ==> is_placed(board, kind, #[trigger] r@[k]),
        forall|i: int, j: int|
            board.valid_indices(i, j) && #[trigger] board.tile(i, j) == kind ==> r@.contains(
                cell_center(board, i, j),
            ),
{
    let h = board.height();
    let w = board.width();
    let mut r: Vec<Position> = Vec::new();
    let mut i: usize = 0;
    while i < h
        invariant
            board.wf(),
            h == board.spec_height(),
            w == board.spec_width(),
            i <= h,
            all_in_world(r@),
            r@.no_duplicates(),
            forall|k: int| 0 <= k < r@.len() ==> before_cell(board, #[trigger] r@[k], i as int, 0),
            forall|k: int| 0 <= k < r@.len() ==> is_placed(board, kind, #[trigger] r@[k]),
            forall|a: int, b: int|
                0 <= a < i && 0 <= b < w && #[trigger] board.tile(a, b) == kind ==> r@.contains(
                    cell_center(board, a, b),
                ),
        decreases h - i,
    {
        let mut j: usize = 0;
        proof {
            board.lemma_extent();
        }
        while j < w
            invariant
                board.wf(),
                h == board.spec_height(),
                w == board.spec_width(),
                i < h,
                j <= w,
                all_in_world(r@),
                r@.no_duplicates(),
                forall|k: int|
                    0 <= k < r@.len() ==> before_cell(board, #[trigger] r@[k], i as int, j as int),
                forall|k: int| 0 <= k < r@.len() ==> is_placed(board, kind, #[trigger] r@[k]),
                forall|a: int, b: int|
                    ((0 <= a < i && 0 <= b < w) || (a == i && 0 <= b < j)) && #[trigger] board.tile(
                        a,
                        b,
                    ) == kind ==> r@.contains(cell_center(board, a, b)),
            decreases w - j,
        {
            proof {
                lemma_next_cell(board, i as int, j as int);
            }
            let here = match board.get_at(i, j) {
                Some(t) => t == kind,
                None => false,
            };
            if here {
                let c = board.indeces_to_coordinates(i, j);
                let ghost before = r@;
                r.push(c);
                proof {
                    assert(r@[r@.len() - 1] == c);
                    assert forall|k: int| 0 <= k < before.len() implies r@[k] == before[k] by {}
                    assert forall|k1: int, k2: int|
                        0 <= k1 < r@.len() && 0 <= k2 < r@.len() && k1 != k2 implies r@[k1]
                        != r@[k2] by {
                        if k1 < before.len() && k2 < before.len() {
                            assert(before[k1] != before[k2]);
                        } else if k1 < before.len() {
                            assert(before_cell(board, before[k1], i as int, j as int));
                        } else if k2 < before.len() {
                            assert(before_cell(board, before[k2], i as int, j as int));
                        }
                    }
                    assert(is_placed(board, kind, c));
                    assert forall|a: int, b: int|
                        ((0 <= a < i && 0 <= b < w) || (a == i && 0 <= b < j + 1))
                            && #[trigger] board.tile(a, b) == kind implies r@.contains(
                        cell_center(board, a, b),
                    ) by {
                        if a == i && b == j {
                            assert(r@[r@.len() - 1] == cell_center(board, a, b));
                        } else {
                            let k = choose|k: int|
                                0 <= k < before.len() && before[k] == cell_center(board, a, b);
                            assert(r@[k] == cell_center(board, a, b));
                        }
                    }
                }
            }
            j = j + 1;
        }
        proof {
            lemma_next_cell(board, i as int, w as int);
        }
        i = i + 1;
    }
    r
}

/// `items` holds exactly the centres of the cells of `kind`, each once.
pub open spec fn laid_out(board: &Board, kind: BoardTile, items: Seq<Position>) -> bool {
    &&& items.no_duplicates()
    &&& forall|k: int| 0 <= k < items.len() ==> is_placed(board, kind, #[trigger] items[k])
    &&& forall|i: int, j: int|
        board.valid_indices(i, j) && #[trigger] board.tile(i, j) == kind ==> items.contains(
            cell_center(board, i, j),
        )
}

/// The dots and the power-ups of a fresh round: one at the centre of every
/// cell that shows one.
pub fn init_dots_and_power_ups(board: &Board) -> (r: (Vec<Position>, Vec<Position>))
    requires
        board.wf(),
    ensures
        laid_out(board, BoardTile::Dot, r.0@),
        laid_out(board, BoardTile::PowerUp, r.1@),
        all_in_world(r.0@),
        all_in_world(r.1@),
{
    (tile_centers(board, BoardTile::Dot), tile_centers(board, BoardTile::PowerUp))
}

} // verus!
