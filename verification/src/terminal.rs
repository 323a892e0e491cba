//! When a game is over: a line of three equal marks, or no empty cell left.

use crate::board::{cell, empty_board, Board, EMPTY};
use vstd::prelude::*;

verus! {

/// Three cells that hold the same mark, which is not `EMPTY`.
pub open spec fn three_alike(a: char, b: char, c: char) -> bool {
    a != EMPTY && a == b && b == c
}

/// Row `i` is a line of three equal marks.
pub open spec fn row_complete(b: Board, i: int) -> bool {
    three_alike(b[i][0], b[i][1], b[i][2])
}

/// Column `i` is a line of three equal marks.
pub open spec fn column_complete(b: Board, i: int) -> bool {
    three_alike(b[0][i], b[1][i], b[2][i])
}

/// The diagonal from the top left to the bottom right is a line of three
/// equal marks.
pub open spec fn diagonal_complete(b: Board) -> bool {
    three_alike(b[0][0], b[1][1], b[2][2])
}

/// The diagonal from the top right to the bottom left is a line of three
/// equal marks.
pub open spec fn anti_diagonal_complete(b: Board) -> bool {
    three_alike(b[0][2], b[1][1], b[2][0])
}

/// One of the eight lines is complete.
pub open spec fn has_line(b: Board) -> bool {
    ||| exists|i: int| 0 <= i < 3 && #[trigger] row_complete(b, i)
    ||| exists|i: int| 0 <= i < 3 && #[trigger] column_complete(b, i)
    ||| diagonal_complete(b)
    ||| anti_diagonal_complete(b)
}

/// No cell is empty.
pub open spec fn is_full(b: Board) -> bool {
    forall|x: int, y: int| 0 <= x < 3 && 0 <= y < 3 ==> b[x][y] != EMPTY
}

/// The game has ended on this board: somebody has completed a line, or
/// nobody can move any more.
pub open spec fn terminal(b: Board) -> bool {
    has_line(b) || is_full(b)
}

/// A complete row ends the game, whatever the other cells hold.
pub proof fn lemma_row_ends_game(b: Board, i: int)
    requires
        0 <= i < 3,
        row_complete(b, i),
    ensures
        terminal(b),
{
}

/// A complete column ends the game, whatever the other cells hold.
pub proof fn lemma_column_ends_game(b: Board, i: int)
    requires
        0 <= i < 3,
        column_complete(b, i),
    ensures
        terminal(b),
{
}

/// A complete diagonal ends the game, whatever the other cells hold.
pub proof fn lemma_diagonal_ends_game(b: Board)
    requires
        diagonal_complete(b) || anti_diagonal_complete(b),
    ensures
        terminal(b),
{
}

/// A board without an empty cell ends the game, line or no line: a draw is
/// terminal too.
pub proof fn lemma_full_board_ends_game(b: Board)
    requires
        is_full(b),
    ensures
        terminal(b),
{
}

/// A board with an empty cell and no complete line is still in play.
pub proof fn lemma_open_board_in_play(b: Board, k: int)
    requires
        0 <= k < 9,
        cell(b, k) == EMPTY,
        !has_line(b),
    ensures
        !terminal(b),
{
    assert(b[k / 3][k % 3] == EMPTY);
}

/// The game has not ended before the first move.
pub proof fn lemma_empty_board_in_play()
    ensures
        !terminal(empty_board()),
{
    let b = empty_board();
    assert(b[0][0] == EMPTY);
    assert(b[1][1] == EMPTY);
    assert(b[0][2] == EMPTY);
    assert forall|i: int| 0 <= i < 3 implies !row_complete(b, i) && !column_complete(b, i) by {
        assert(b[0][i] == EMPTY);
        assert(b[i][0] == EMPTY);
    }
}

/// A board is full exactly when it counts no empty cell.
pub proof fn lemma_full_iff_no_empty(b: Board)
    ensures
        is_full(b) <==> crate::board::count_empty(b) == 0,
{
    if is_full(b) {
        assert(b[0][0] != EMPTY && b[0][1] != EMPTY && b[0][2] != EMPTY);
        assert(b[1][0] != EMPTY && b[1][1] != EMPTY && b[1][2] != EMPTY);
        assert(b[2][0] != EMPTY && b[2][1] != EMPTY && b[2][2] != EMPTY);
    }
    if crate::board::count_empty(b) == 0 {
        assert forall|x: int, y: int| 0 <= x < 3 && 0 <= y < 3 implies b[x][y] != EMPTY by {
            assert(cell(b, 3 * x + y) == b[x][y]);
        }
    }
}

} // verus!
