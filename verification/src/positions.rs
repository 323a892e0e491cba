//! Which boards a game that starts on the empty board can come to: a
//! description that looks at the board alone, and the proof that play
//! reaches exactly the boards it describes.

use crate::board::{
    cell, count_empty, count_marks, empty_board, is_mark, lemma_boards_equal,
    lemma_with_mark_cells, vacancy, well_formed, with_mark, Board, EMPTY, O, X,
};
use crate::generate::{is_move, opponent, reaches};
use crate::terminal::{has_line, terminal, three_alike};
use vstd::prelude::*;

verus! {

/// 1 for a cell that holds `m`, 0 for any other.
pub open spec fn holds(c: char, m: char) -> int {
    if c == m {
        1
    } else {
        0
    }
}

/// How many of the nine cells hold the mark `m`.
pub open spec fn count_of(b: Board, m: char) -> int {
    holds(cell(b, 0), m) + holds(cell(b, 1), m) + holds(cell(b, 2), m) + holds(cell(b, 3), m)
        + holds(cell(b, 4), m) + holds(cell(b, 5), m) + holds(cell(b, 6), m) + holds(
        cell(b, 7),
        m,
    ) + holds(cell(b, 8), m)
}

/// By how many marks `X` is ahead of `O`.
pub open spec fn balance(b: Board) -> int {
    count_of(b, X) - count_of(b, O)
}

/// A board as alternate play from the empty board leaves it while nobody has
/// completed a line: well formed, without a line, and with as many `X` as
/// `O`, or one more.
pub open spec fn lineless(b: Board) -> bool {
    well_formed(b) && !has_line(b) && (balance(b) == 0 || balance(b) == 1)
}

/// Who moves next on a lineless board: `X` when the marks are level, else
/// `O`.
pub open spec fn mover(b: Board) -> char {
    if balance(b) == 0 {
        X
    } else {
        O
    }
}

/// The mark on cell `k` can have been the last one played: without it the
/// board is lineless, and it is the mark of the player who moves next there.
pub open spec fn last_move_at(t: Board, k: int) -> bool {
    &&& cell(t, k) != EMPTY
    &&& lineless(with_mark(t, k, EMPTY))
    &&& mover(with_mark(t, k, EMPTY)) == cell(t, k)
}

/// Some mark of `t` can have been the last one played.
pub open spec fn played(t: Board) -> bool {
    exists|k: int| 0 <= k < 9 && #[trigger] last_move_at(t, k)
}

/// A board on which a game from the empty board can end.
pub open spec fn final_position(t: Board) -> bool {
    terminal(t) && played(t)
}

/// The player who makes move number `n + 1` when `p` makes the first move.
pub open spec fn mover_after(p: char, n: nat) -> char {
    if n % 2 == 0 {
        p
    } else {
        opponent(p)
    }
}

/// The cells of a well-formed board are empty, `X` or `O`, nine in all.
pub proof fn lemma_counts_add_up(b: Board)
    requires
        well_formed(b),
    ensures
        count_of(b, X) + count_of(b, O) + count_empty(b) == 9,
        count_of(b, X) >= 0,
        count_of(b, O) >= 0,
{
    assert forall|j: int| 0 <= j < 9 implies holds(#[trigger] cell(b, j), X) + holds(
        cell(b, j),
        O,
    ) + vacancy(cell(b, j)) == 1 by {
        assert(is_mark(cell(b, j)));
    }
    assert(holds(cell(b, 0), X) + holds(cell(b, 0), O) + vacancy(cell(b, 0)) == 1);
    assert(holds(cell(b, 1), X) + holds(cell(b, 1), O) + vacancy(cell(b, 1)) == 1);
    assert(holds(cell(b, 2), X) + holds(cell(b, 2), O) + vacancy(cell(b, 2)) == 1);
    assert(holds(cell(b, 3), X) + holds(cell(b, 3), O) + vacancy(cell(b, 3)) == 1);
    assert(holds(cell(b, 4), X) + holds(cell(b, 4), O) + vacancy(cell(b, 4)) == 1);
    assert(holds(cell(b, 5), X) + holds(cell(b, 5), O) + vacancy(cell(b, 5)) == 1);
    assert(holds(cell(b, 6), X) + holds(cell(b, 6), O) + vacancy(cell(b, 6)) == 1);
    assert(holds(cell(b, 7), X) + holds(cell(b, 7), O) + vacancy(cell(b, 7)) == 1);
    assert(holds(cell(b, 8), X) + holds(cell(b, 8), O) + vacancy(cell(b, 8)) == 1);
}

/// What a new mark on cell `k` does to the number of cells that hold `x`.
pub proof fn lemma_count_after_mark(b: Board, k: int, m: char, x: char)
    requires
        0 <= k < 9,
    ensures
        count_of(with_mark(b, k, m), x) == count_of(b, x) - holds(cell(b, k), x) + holds(m, x),
{
    lemma_with_mark_cells(b, k, m);
    let w = with_mark(b, k, m);
    assert forall|j: int| 0 <= j < 9 && j != k implies holds(#[trigger] cell(w, j), x) == holds(
        cell(b, j),
        x,
    ) by {}
    assert(holds(cell(w, k), x) == holds(m, x));
    if k == 0 {
    } else if k == 1 {
    } else if k == 2 {
    } else if k == 3 {
    } else if k == 4 {
    } else if k == 5 {
    } else if k == 6 {
    } else if k == 7 {
    } else {
    }
}

/// Taking a mark off and putting it back gives the board back, and so does
/// putting a mark on an empty cell and taking it off.
proof fn lemma_mark_off_and_on(b: Board, k: int, m: char)
    requires
        0 <= k < 9,
    ensures
        cell(b, k) == m ==> with_mark(with_mark(b, k, EMPTY), k, m) == b,
        cell(b, k) == EMPTY ==> with_mark(with_mark(b, k, m), k, EMPTY) == b,
{
    lemma_with_mark_cells(b, k, EMPTY);
    lemma_with_mark_cells(b, k, m);
    lemma_with_mark_cells(with_mark(b, k, EMPTY), k, m);
    lemma_with_mark_cells(with_mark(b, k, m), k, EMPTY);
    if cell(b, k) == m {
        lemma_same_cells(with_mark(with_mark(b, k, EMPTY), k, m), b);
    }
    if cell(b, k) == EMPTY {
        lemma_same_cells(with_mark(with_mark(b, k, m), k, EMPTY), b);
    }
}

/// Two boards that agree in each cell by its row-major index are the same
/// board.
pub proof fn lemma_same_cells(a: Board, b: Board)
    requires
        forall|j: int| 0 <= j < 9 ==> cell(a, j) == cell(b, j),
    ensures
        a == b,
{
    assert forall|x: int, y: int| 0 <= x < 3 && 0 <= y < 3 implies a[x][y] == b[x][y] by {
        assert(cell(a, 3 * x + y) == cell(b, 3 * x + y));
    }
    lemma_boards_equal(a, b);
}

/// A line is a line of three cells by their row-major indices.
pub proof fn lemma_line_cells(b: Board)
    ensures
        has_line(b) <==> (three_alike(cell(b, 0), cell(b, 1), cell(b, 2)) || three_alike(
            cell(b, 3),
            cell(b, 4),
            cell(b, 5),
        ) || three_alike(cell(b, 6), cell(b, 7), cell(b, 8)) || three_alike(
            cell(b, 0),
            cell(b, 3),
            cell(b, 6),
        ) || three_alike(cell(b, 1), cell(b, 4), cell(b, 7)) || three_alike(
            cell(b, 2),
            cell(b, 5),
            cell(b, 8),
        ) || three_alike(cell(b, 0), cell(b, 4), cell(b, 8)) || three_alike(
            cell(b, 2),
            cell(b, 4),
            cell(b, 6),
        )),
{
    assert(cell(b, 0) == b[0][0] && cell(b, 1) == b[0][1] && cell(b, 2) == b[0][2]);
    assert(cell(b, 3) == b[1][0] && cell(b, 4) == b[1][1] && cell(b, 5) == b[1][2]);
    assert(cell(b, 6) == b[2][0] && cell(b, 7) == b[2][1] && cell(b, 8) == b[2][2]);
    if has_line(b) {
        if exists|i: int| 0 <= i < 3 && #[trigger] crate::terminal::row_complete(b, i) {
            let i = choose|i: int| 0 <= i < 3 && #[trigger] crate::terminal::row_complete(b, i);
            assert(i == 0 || i == 1 || i == 2);
        } else if exists|i: int| 0 <= i < 3 && #[trigger] crate::terminal::column_complete(b, i) {
            let i = choose|i: int|
                0 <= i < 3 && #[trigger] crate::terminal::column_complete(b, i);
            assert(i == 0 || i == 1 || i == 2);
        }
    } else {
        assert(!crate::terminal::row_complete(b, 0) && !crate::terminal::row_complete(b, 1)
            && !crate::terminal::row_complete(b, 2));
        assert(!crate::terminal::column_complete(b, 0) && !crate::terminal::column_complete(b, 1)
            && !crate::terminal::column_complete(b, 2));
    }
}

/// Taking a mark off completes no line.
proof fn lemma_mark_off_keeps_lineless(b: Board, k: int)
    requires
        0 <= k < 9,
        !has_line(b),
    ensures
        !has_line(with_mark(b, k, EMPTY)),
{
    lemma_with_mark_cells(b, k, EMPTY);
    lemma_line_cells(b);
    lemma_line_cells(with_mark(b, k, EMPTY));
}

/// A move of the player whose turn it is, on a lineless board, leaves a
/// board that is lineless again unless the move completes a line, and on
/// which the other player moves next.
proof fn lemma_move_keeps_balance(b: Board, k: int)
    requires
        0 <= k < 9,
        lineless(b),
        cell(b, k) == EMPTY,
    ensures
        well_formed(with_mark(b, k, mover(b))),
        balance(with_mark(b, k, mover(b))) == 0 || balance(with_mark(b, k, mover(b))) == 1,
        mover(with_mark(b, k, mover(b))) == opponent(mover(b)),
{
    lemma_with_mark_cells(b, k, mover(b));
    lemma_count_after_mark(b, k, mover(b), X);
    lemma_count_after_mark(b, k, mover(b), O);
}

/// Play that starts on a lineless board with the player whose turn it is
/// comes only to boards whose last mark can have been the last one played.
proof fn lemma_reached_is_played(b: Board, t: Board, n: nat)
    requires
        lineless(b),
        reaches(b, mover(b), t, n),
    ensures
        played(t),
    decreases n,
{
    let p = mover(b);
    if n == 0 {
        let k = choose|k: int| 0 <= k < 9 && cell(b, k) == EMPTY && t == #[trigger] with_mark(b, k, p);
        lemma_with_mark_cells(b, k, p);
        lemma_mark_off_and_on(b, k, p);
        assert(last_move_at(t, k));
    } else {
        let c = choose|c: Board| #[trigger]
            is_move(b, p, c) && reaches(c, opponent(p), t, (n - 1) as nat);
        let k = choose|k: int| 0 <= k < 9 && cell(b, k) == EMPTY && c == #[trigger] with_mark(b, k, p);
        lemma_move_keeps_balance(b, k);
        lemma_reached_is_played(c, t, (n - 1) as nat);
    }
}

/// One more move at the end of play that has reached a board on which the
/// game has not ended.
proof fn lemma_one_more_move(b: Board, p: char, c: Board, n: nat, t: Board)
    requires
        p == X || p == O,
        reaches(b, p, c, n),
        !terminal(c),
        is_move(c, mover_after(p, n + 1), t),
    ensures
        reaches(b, p, t, n + 1),
    decreases n,
{
    if n == 0 {
        assert(reaches(c, opponent(p), t, 0));
        assert(is_move(b, p, c));
    } else {
        let d = choose|d: Board| #[trigger]
            is_move(b, p, d) && reaches(d, opponent(p), c, (n - 1) as nat);
        assert(mover_after(opponent(p), n) == mover_after(p, n + 1));
        lemma_one_more_move(d, opponent(p), c, (n - 1) as nat, t);
        assert(is_move(b, p, d) && reaches(d, opponent(p), t, n));
    }
}

/// A mark that is counted stands on some cell.
proof fn lemma_counted_mark_stands(c: Board, q: char) -> (k: int)
    requires
        count_of(c, q) >= 1,
    ensures
        0 <= k < 9,
        cell(c, k) == q,
{
    if cell(c, 0) == q {
        0
    } else if cell(c, 1) == q {
        1
    } else if cell(c, 2) == q {
        2
    } else if cell(c, 3) == q {
        3
    } else if cell(c, 4) == q {
        4
    } else if cell(c, 5) == q {
        5
    } else if cell(c, 6) == q {
        6
    } else if cell(c, 7) == q {
        7
    } else {
        8
    }
}

/// The board with nine empty cells is the empty board.
proof fn lemma_no_mark_is_empty(c: Board)
    requires
        count_empty(c) == 9,
    ensures
        c == empty_board(),
{
    let e = empty_board();
    assert(e[0][0] == EMPTY && e[0][1] == EMPTY && e[0][2] == EMPTY);
    assert(e[1][0] == EMPTY && e[1][1] == EMPTY && e[1][2] == EMPTY);
    assert(e[2][0] == EMPTY && e[2][1] == EMPTY && e[2][2] == EMPTY);
    assert(vacancy(cell(c, 0)) == 1 && vacancy(cell(c, 1)) == 1 && vacancy(cell(c, 2)) == 1);
    assert(vacancy(cell(c, 3)) == 1 && vacancy(cell(c, 4)) == 1 && vacancy(cell(c, 5)) == 1);
    assert(vacancy(cell(c, 6)) == 1 && vacancy(cell(c, 7)) == 1 && vacancy(cell(c, 8)) == 1);
    assert forall|j: int| 0 <= j < 9 implies cell(c, j) == cell(e, j) by {
        assert(cell(e, j) == e[j / 3][j % 3]);
    }
    lemma_same_cells(c, e);
}

/// On a lineless board that is not empty, the player who moved last has a
/// mark.
proof fn lemma_last_mover_has_mark(c: Board)
    requires
        lineless(c),
        c != empty_board(),
    ensures
        balance(c) == 1 ==> count_of(c, X) >= 1,
        balance(c) == 0 ==> count_of(c, O) >= 1,
{
    lemma_counts_add_up(c);
    if count_empty(c) == 9 {
        lemma_no_mark_is_empty(c);
    }
}

/// On a lineless board that is not empty, some mark can have been the last
/// one played.
proof fn lemma_take_back(c: Board) -> (k: int)
    requires
        lineless(c),
        c != empty_board(),
    ensures
        0 <= k < 9,
        last_move_at(c, k),
{
    let q = if balance(c) == 1 {
        X
    } else {
        O
    };
    lemma_last_mover_has_mark(c);
    let k = lemma_counted_mark_stands(c, q);
    lemma_with_mark_cells(c, k, EMPTY);
    lemma_mark_off_keeps_lineless(c, k);
    lemma_count_after_mark(c, k, EMPTY, X);
    lemma_count_after_mark(c, k, EMPTY, O);
    k
}

/// On a lineless board `X` moves next after an even number of marks, and `O`
/// after an odd number.
proof fn lemma_turn_by_marks(b: Board)
    requires
        lineless(b),
    ensures
        mover(b) == mover_after(X, count_marks(b)),
{
    lemma_counts_add_up(b);
}

/// A board on which the mark of cell `k` can have been the last one played
/// is reached from the empty board when `X` moves first, in as many moves as
/// it has marks.
proof fn lemma_played_is_reached(t: Board, k: int) -> (n: nat)
    requires
        0 <= k < 9,
        last_move_at(t, k),
    ensures
        reaches(empty_board(), X, t, n),
        n + 1 == count_marks(t),
    decreases count_marks(t),
{
    let before = with_mark(t, k, EMPTY);
    let q = cell(t, k);
    lemma_with_mark_cells(t, k, EMPTY);
    lemma_mark_off_and_on(t, k, q);
    crate::board::lemma_move_fills_one_cell(before, k, q);
    assert(before[k / 3][k % 3] == EMPTY);
    assert(!terminal(before));
    assert(is_move(before, q, t));
    if before == empty_board() {
        lemma_empty_board_lineless();
        lemma_empty_board_has_no_mark();
        0
    } else {
        let j = lemma_take_back(before);
        let m = lemma_played_is_reached(before, j);
        lemma_turn_by_marks(before);
        lemma_one_more_move(empty_board(), X, before, m, t);
        m + 1
    }
}

/// The empty board has nine empty cells.
proof fn lemma_empty_board_has_no_mark()
    ensures
        count_marks(empty_board()) == 0,
{
    let e = empty_board();
    assert(e[0][0] == EMPTY && e[0][1] == EMPTY && e[0][2] == EMPTY);
    assert(e[1][0] == EMPTY && e[1][1] == EMPTY && e[1][2] == EMPTY);
    assert(e[2][0] == EMPTY && e[2][1] == EMPTY && e[2][2] == EMPTY);
}

/// The empty board is lineless, and `X` moves first on it.
proof fn lemma_empty_board_lineless()
    ensures
        lineless(empty_board()),
        mover(empty_board()) == X,
{
    let e = empty_board();
    crate::terminal::lemma_empty_board_in_play();
    assert(e[0][0] == EMPTY && e[0][1] == EMPTY && e[0][2] == EMPTY);
    assert(e[1][0] == EMPTY && e[1][1] == EMPTY && e[1][2] == EMPTY);
    assert(e[2][0] == EMPTY && e[2][1] == EMPTY && e[2][2] == EMPTY);
    assert forall|k: int| 0 <= k < 9 implies is_mark(#[trigger] cell(e, k)) by {
        assert(cell(e, k) == e[k / 3][k % 3]);
    }
}

/// Play from the empty board, `X` moving first, reaches exactly the boards
/// on which some mark can have been the last one played.
pub proof fn lemma_reached_iff_played(t: Board)
    ensures
        (exists|n: nat| reaches(empty_board(), X, t, n)) <==> played(t),
{
    lemma_empty_board_lineless();
    if exists|n: nat| reaches(empty_board(), X, t, n) {
        let n = choose|n: nat| reaches(empty_board(), X, t, n);
        lemma_reached_is_played(empty_board(), t, n);
    }
    if played(t) {
        let k = choose|k: int| 0 <= k < 9 && #[trigger] last_move_at(t, k);
        let n = lemma_played_is_reached(t, k);
    }
}

/// A board that play has reached is well formed, and `X` is level with `O`
/// on it or one mark ahead.
pub proof fn lemma_played_is_well_formed(t: Board)
    requires
        played(t),
    ensures
        well_formed(t),
        balance(t) == 0 || balance(t) == 1,
{
    let k = choose|k: int| 0 <= k < 9 && #[trigger] last_move_at(t, k);
    let before = with_mark(t, k, EMPTY);
    lemma_with_mark_cells(t, k, EMPTY);
    lemma_mark_off_and_on(t, k, cell(t, k));
    lemma_move_keeps_balance(before, k);
}

} // verus!
