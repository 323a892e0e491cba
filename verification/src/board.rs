//! The board of the game: a 3×3 grid of marks, and the ways to read and fill
//! its nine cells.

use vstd::prelude::*;

verus! {

/// The mark of a cell that nobody has played yet.
pub const EMPTY: char = ' ';

/// The mark of the player who moves first.
pub const X: char = 'X';

/// The mark of the player who moves second.
pub const O: char = 'O';

/// Three rows of three cells each; `board[x][y]` is the cell in row `x` and
/// column `y`.
pub type Board = [[char; 3]; 3];

/// The cell with row-major index `k`: the cells of the first row have the
/// indices 0, 1, 2, those of the second row 3, 4, 5, those of the third 6, 7, 8.
pub open spec fn cell(b: Board, k: int) -> char {
    b[k / 3][k % 3]
}

/// The nine cells of a board in row-major order.
pub open spec fn grid(b: Board) -> Seq<char> {
    Seq::new(9, |k: int| cell(b, k))
}

/// The board with no mark on it.
pub open spec fn empty_board() -> Board {
    [[EMPTY, EMPTY, EMPTY], [EMPTY, EMPTY, EMPTY], [EMPTY, EMPTY, EMPTY]]
}

/// What cell `j` holds once cell `k` has been given the mark `m`.
pub open spec fn cell_after(b: Board, k: int, m: char, j: int) -> char {
    if j == k {
        m
    } else {
        cell(b, j)
    }
}

/// The board that differs from `b` in cell `k` alone, which holds `m`.
pub open spec fn with_mark(b: Board, k: int, m: char) -> Board {
    [
        [cell_after(b, k, m, 0), cell_after(b, k, m, 1), cell_after(b, k, m, 2)],
        [cell_after(b, k, m, 3), cell_after(b, k, m, 4), cell_after(b, k, m, 5)],
        [cell_after(b, k, m, 6), cell_after(b, k, m, 7), cell_after(b, k, m, 8)],
    ]
}

/// 1 for an empty cell, 0 for a marked one.
pub open spec fn vacancy(c: char) -> nat {
    if c == EMPTY {
        1
    } else {
        0
    }
}

/// How many of the nine cells are empty.
pub open spec fn count_empty(b: Board) -> nat {
    vacancy(cell(b, 0)) + vacancy(cell(b, 1)) + vacancy(cell(b, 2)) + vacancy(cell(b, 3))
        + vacancy(cell(b, 4)) + vacancy(cell(b, 5)) + vacancy(cell(b, 6)) + vacancy(cell(b, 7))
        + vacancy(cell(b, 8))
}

/// How many of the nine cells carry a mark.
pub open spec fn count_marks(b: Board) -> nat {
    (9 - count_empty(b)) as nat
}

/// The three values a cell of a game in progress can hold.
pub open spec fn is_mark(c: char) -> bool {
    c == EMPTY || c == X || c == O
}

/// Every cell holds `EMPTY`, `X` or `O`.
pub open spec fn well_formed(b: Board) -> bool {
    forall|k: int| 0 <= k < 9 ==> is_mark(#[trigger] cell(b, k))
}

/// Two boards whose cells agree are the same board.
pub proof fn lemma_boards_equal(a: Board, b: Board)
    requires
        forall|x: int, y: int| 0 <= x < 3 && 0 <= y < 3 ==> a[x][y] == b[x][y],
    ensures
        a == b,
{
    assert(a[0] =~= b[0]);
    assert(a[1] =~= b[1]);
    assert(a[2] =~= b[2]);
    assert(a =~= b);
}

/// A board is determined by its nine cells in row-major order.
pub proof fn lemma_grid_injective(a: Board, b: Board)
    requires
        grid(a) == grid(b),
    ensures
        a == b,
{
    assert forall|x: int, y: int| 0 <= x < 3 && 0 <= y < 3 implies a[x][y] == b[x][y] by {
        let k = 3 * x + y;
        assert(grid(a)[k] == cell(a, k));
        assert(grid(b)[k] == cell(b, k));
    }
    lemma_boards_equal(a, b);
}

/// `with_mark` changes cell `k` and no other.
pub proof fn lemma_with_mark_cells(b: Board, k: int, m: char)
    requires
        0 <= k < 9,
    ensures
        forall|j: int| 0 <= j < 9 ==> #[trigger] cell(with_mark(b, k, m), j) == cell_after(b, k, m, j),
{
    let w = with_mark(b, k, m);
    assert forall|j: int| 0 <= j < 9 implies #[trigger] cell(w, j) == cell_after(b, k, m, j) by {
        assert(w[0][0] == cell_after(b, k, m, 0));
        assert(w[0][1] == cell_after(b, k, m, 1));
        assert(w[0][2] == cell_after(b, k, m, 2));
        assert(w[1][0] == cell_after(b, k, m, 3));
        assert(w[1][1] == cell_after(b, k, m, 4));
        assert(w[1][2] == cell_after(b, k, m, 5));
        assert(w[2][0] == cell_after(b, k, m, 6));
        assert(w[2][1] == cell_after(b, k, m, 7));
        assert(w[2][2] == cell_after(b, k, m, 8));
    }
}

/// Playing a mark on an empty cell leaves one empty cell fewer.
pub proof fn lemma_move_fills_one_cell(b: Board, k: int, m: char)
    requires
        0 <= k < 9,
        cell(b, k) == EMPTY,
        m != EMPTY,
    ensures
        count_empty(with_mark(b, k, m)) + 1 == count_empty(b),
        count_marks(with_mark(b, k, m)) == count_marks(b) + 1,
{
    lemma_with_mark_cells(b, k, m);
}

} // verus!
