//! The game tree: every board that play can reach from a given board, in the
//! order in which a depth-first walk meets them.

use crate::board::{
    cell, count_empty, count_marks, is_mark, lemma_boards_equal, lemma_move_fills_one_cell,
    lemma_with_mark_cells, well_formed, with_mark, Board, EMPTY, O, X,
};
use crate::methods::BoardMethods;
use crate::terminal::terminal;
use vstd::prelude::*;

verus! {

/// The mark that moves after `p`: `O` after `X`, and `X` after anything else.
pub open spec fn opponent(p: char) -> char {
    if p == X {
        O
    } else {
        X
    }
}

/// 1 for a mover whose mark is `EMPTY`, whose move leaves the board as it
/// was; 0 for every other mover.
pub open spec fn idle(p: char) -> nat {
    if p == EMPTY {
        1
    } else {
        0
    }
}

/// Every board that play reaches from `b` when `p` moves first and the marks
/// alternate from there: `b` itself is not among them, and nothing follows a
/// board on which the game has ended. Each board stands before the boards
/// that are reached through it, and the moves of one board are tried cell by
/// cell in row-major order.
pub open spec fn generated(b: Board, p: char) -> Seq<Board>
    decreases count_empty(b), idle(p), 10nat,
{
    if terminal(b) {
        Seq::empty()
    } else {
        moves_before(b, p, 9)
    }
}

/// What `generated` lists for the moves on the cells before cell `k`.
pub open spec fn moves_before(b: Board, p: char, k: nat) -> Seq<Board>
    decreases count_empty(b), idle(p), k,
{
    if k == 0 || k > 9 {
        Seq::empty()
    } else {
        moves_before(b, p, (k - 1) as nat) + moves_at(b, p, k - 1)
    }
}

/// What `generated` lists for the move on cell `k`: nothing where the cell is
/// taken, else the board with `p` on that cell, followed by all that play
/// reaches from it.
pub open spec fn moves_at(b: Board, p: char, k: int) -> Seq<Board>
    decreases count_empty(b), idle(p), 0nat,
{
    if 0 <= k < 9 && cell(b, k) == EMPTY {
        let child = with_mark(b, k, p);
        proof {
            lemma_with_mark_cells(b, k, p);
        }
        seq![child] + generated(child, opponent(p))
    } else {
        Seq::empty()
    }
}

/// `c` is `b` after `p` has played on one of its empty cells.
pub open spec fn is_move(b: Board, p: char, c: Board) -> bool {
    exists|k: int| 0 <= k < 9 && cell(b, k) == EMPTY && c == #[trigger] with_mark(b, k, p)
}

/// Play leads from `b` to `t` in `n + 1` moves, `p` moving first and the
/// marks alternating, and the game has ended on no board before `t`, `b`
/// included.
pub open spec fn reaches(b: Board, p: char, t: Board, n: nat) -> bool
    decreases n,
{
    &&& !terminal(b)
    &&& if n == 0 {
        is_move(b, p, t)
    } else {
        exists|c: Board| #[trigger]
            is_move(b, p, c) && reaches(c, opponent(p), t, (n - 1) as nat)
    }
}

/// Every board reachable by playing on from `board`, `to_play` moving first
/// and the two players alternating after that: `O` moves after `X`, and `X`
/// after any other mark. The boards come in depth-first order: a board, then
/// all that follows from it, then its next sibling; siblings in row-major
/// order of the cell played. `board` itself is not listed, and nothing is
/// listed past a board on which the game has ended, so a `board` that is
/// terminal already gives an empty list.
pub fn all_boards(board: Board, to_play: char) -> (boards: Vec<Board>)
    ensures
        boards@ == generated(board, to_play),
        lists_what_play_reaches(boards@, board, to_play),
        terminal(board) ==> boards@.len() == 0,
        to_play != EMPTY ==> all_carry_more_marks(boards@, board),
    decreases count_empty(board), idle(to_play),
{
    let mut boards: Vec<Board> = Vec::new();
    if !board.is_terminal() {
        let to_play_next = if to_play == X {
            O
        } else {
            X
        };
        for x in 0..3usize
            invariant
                boards@ == moves_before(board, to_play, (3 * x) as nat),
                to_play_next == opponent(to_play),
        {
            for y in 0..3usize
                invariant
                    0 <= x < 3,
                    boards@ == moves_before(board, to_play, (3 * x + y) as nat),
                    to_play_next == opponent(to_play),
            {
                let ghost k: int = 3 * x + y;
                assert(cell(board, k) == board[x as int][y as int]);
                if board[x][y] == EMPTY {
                    let mut b = board;
                    b[x][y] = to_play;
                    proof {
                        lemma_placed(board, b, x as int, y as int, to_play);
                    }
                    boards.push(b);
                    let mut below = all_boards(b, to_play_next);
                    boards.append(&mut below);
                }
                assert(boards@ == moves_before(board, to_play, k as nat) + moves_at(
                    board,
                    to_play,
                    k,
                ));
                assert(moves_before(board, to_play, (k + 1) as nat) == moves_before(
                    board,
                    to_play,
                    k as nat,
                ) + moves_at(board, to_play, k));
            }
        }
    }
    proof {
        lemma_generated_exactly_reached(board, to_play);
        if to_play != EMPTY {
            lemma_generated_all_add_marks(board, to_play);
        }
    }
    boards
}

/// The boards of `s` are the boards that play reaches from `b` when `p`
/// moves first, and no others.
#[verifier::opaque]
pub open spec fn lists_what_play_reaches(s: Seq<Board>, b: Board, p: char) -> bool {
    forall|t: Board| #[trigger] s.contains(t) <==> exists|n: nat| reaches(b, p, t, n)
}

/// Each board of `s` carries more marks than `b`.
#[verifier::opaque]
pub open spec fn all_carry_more_marks(s: Seq<Board>, b: Board) -> bool {
    forall|i: int| 0 <= i < s.len() ==> count_marks(#[trigger] s[i]) > count_marks(b)
}

/// A board that differs from `b` in the cell of row `x` and column `y`
/// alone, which holds `m`, is `with_mark(b, 3 * x + y, m)`.
proof fn lemma_placed(b: Board, c: Board, x: int, y: int, m: char)
    requires
        0 <= x < 3,
        0 <= y < 3,
        c[x][y] == m,
        forall|j: int| 0 <= j < 3 && j != y ==> c[x][j] == b[x][j],
        forall|i: int| 0 <= i < 3 && i != x ==> c[i] == b[i],
    ensures
        c == with_mark(b, 3 * x + y, m),
{
    let w = with_mark(b, 3 * x + y, m);
    lemma_with_mark_cells(b, 3 * x + y, m);
    assert forall|i: int, j: int| 0 <= i < 3 && 0 <= j < 3 implies c[i][j] == w[i][j] by {
        assert(cell(w, 3 * i + j) == w[i][j]);
        assert(cell(b, 3 * i + j) == b[i][j]);
    }
    lemma_boards_equal(c, w);
}

/// A board listed for the cells before `k` is listed for one of them.
proof fn lemma_listed_at_some_cell(b: Board, p: char, k: nat, t: Board) -> (j: int)
    requires
        k <= 9,
        moves_before(b, p, k).contains(t),
    ensures
        0 <= j < k,
        moves_at(b, p, j).contains(t),
    decreases k,
{
    let earlier = moves_before(b, p, (k - 1) as nat);
    let last = moves_at(b, p, k - 1);
    let i = choose|i: int| 0 <= i < moves_before(b, p, k).len() && moves_before(b, p, k)[i] == t;
    if i < earlier.len() {
        assert(earlier[i] == t);
        lemma_listed_at_some_cell(b, p, (k - 1) as nat, t)
    } else {
        assert(last[i - earlier.len()] == t);
        k - 1
    }
}

/// A board listed for cell `j` is listed for the cells before any later `k`.
proof fn lemma_listed_before_later_cell(b: Board, p: char, k: nat, j: int, t: Board)
    requires
        0 <= j < k <= 9,
        moves_at(b, p, j).contains(t),
    ensures
        moves_before(b, p, k).contains(t),
    decreases k,
{
    let earlier = moves_before(b, p, (k - 1) as nat);
    let last = moves_at(b, p, k - 1);
    if j == k - 1 {
        let i = choose|i: int| 0 <= i < last.len() && last[i] == t;
        assert((earlier + last)[earlier.len() + i] == t);
    } else {
        lemma_listed_before_later_cell(b, p, (k - 1) as nat, j, t);
        let i = choose|i: int| 0 <= i < earlier.len() && earlier[i] == t;
        assert((earlier + last)[i] == t);
    }
}

/// Whatever `generated` lists is reached by play: the result is the number
/// of moves after the first that lead to `t`.
pub proof fn lemma_generated_is_reached(b: Board, p: char, t: Board) -> (n: nat)
    requires
        generated(b, p).contains(t),
    ensures
        reaches(b, p, t, n),
    decreases count_empty(b), idle(p),
{
    let k = lemma_listed_at_some_cell(b, p, 9, t);
    let child = with_mark(b, k, p);
    let below = generated(child, opponent(p));
    let listed = moves_at(b, p, k);
    lemma_with_mark_cells(b, k, p);
    assert(is_move(b, p, child));
    let i = choose|i: int| 0 <= i < listed.len() && listed[i] == t;
    if i == 0 {
        0
    } else {
        assert(below[i - 1] == t);
        let m = lemma_generated_is_reached(child, opponent(p), t);
        (m + 1) as nat
    }
}

/// Whatever play reaches, `generated` lists.
pub proof fn lemma_reached_is_generated(b: Board, p: char, t: Board, n: nat)
    requires
        reaches(b, p, t, n),
    ensures
        generated(b, p).contains(t),
    decreases n,
{
    if n == 0 {
        let k = choose|k: int| 0 <= k < 9 && cell(b, k) == EMPTY && t == #[trigger] with_mark(b, k, p);
        assert(moves_at(b, p, k)[0] == t);
        lemma_listed_before_later_cell(b, p, 9, k, t);
    } else {
        let c = choose|c: Board| #[trigger]
            is_move(b, p, c) && reaches(c, opponent(p), t, (n - 1) as nat);
        let k = choose|k: int| 0 <= k < 9 && cell(b, k) == EMPTY && c == #[trigger] with_mark(b, k, p);
        lemma_reached_is_generated(c, opponent(p), t, (n - 1) as nat);
        let below = generated(c, opponent(p));
        let i = choose|i: int| 0 <= i < below.len() && below[i] == t;
        assert(moves_at(b, p, k)[i + 1] == t);
        lemma_listed_before_later_cell(b, p, 9, k, t);
    }
}

/// `generated` lists exactly the boards that play reaches: each board that
/// one or more alternating moves lead to, where the game has ended on no
/// board on the way.
pub proof fn lemma_generated_iff_reached(b: Board, p: char, t: Board)
    ensures
        generated(b, p).contains(t) <==> exists|n: nat| reaches(b, p, t, n),
{
    if generated(b, p).contains(t) {
        let n = lemma_generated_is_reached(b, p, t);
    }
    if exists|n: nat| reaches(b, p, t, n) {
        let n = choose|n: nat| reaches(b, p, t, n);
        lemma_reached_is_generated(b, p, t, n);
    }
}

/// `generated` lists the boards that play reaches, and no others.
pub proof fn lemma_generated_exactly_reached(b: Board, p: char)
    ensures
        lists_what_play_reaches(generated(b, p), b, p),
{
    reveal(lists_what_play_reaches);
    assert forall|t: Board| #[trigger]
        generated(b, p).contains(t) <==> exists|n: nat| reaches(b, p, t, n) by {
        lemma_generated_iff_reached(b, p, t);
    }
}

/// Nothing is generated from a board on which the game has ended.
pub proof fn lemma_nothing_follows_the_end(b: Board, p: char)
    requires
        terminal(b),
    ensures
        generated(b, p) == Seq::<Board>::empty(),
{
}

/// Each move of a player adds one mark: a board reached in `n + 1` moves
/// carries `n + 1` marks more than the board that play started from, so at
/// most nine moves follow one another.
pub proof fn lemma_reached_counts_moves(b: Board, p: char, t: Board, n: nat)
    requires
        p != EMPTY,
        reaches(b, p, t, n),
    ensures
        count_marks(t) == count_marks(b) + n + 1,
        n + 1 <= count_empty(b) <= 9,
    decreases n,
{
    if n == 0 {
        let k = choose|k: int| 0 <= k < 9 && cell(b, k) == EMPTY && t == #[trigger] with_mark(b, k, p);
        lemma_move_fills_one_cell(b, k, p);
    } else {
        let c = choose|c: Board| #[trigger]
            is_move(b, p, c) && reaches(c, opponent(p), t, (n - 1) as nat);
        let k = choose|k: int| 0 <= k < 9 && cell(b, k) == EMPTY && c == #[trigger] with_mark(b, k, p);
        lemma_move_fills_one_cell(b, k, p);
        lemma_reached_counts_moves(c, opponent(p), t, (n - 1) as nat);
    }
}

/// Every generated board carries more marks than the board it was generated
/// from.
pub proof fn lemma_generated_adds_marks(b: Board, p: char, t: Board)
    requires
        p != EMPTY,
        generated(b, p).contains(t),
    ensures
        count_marks(t) > count_marks(b),
{
    let n = lemma_generated_is_reached(b, p, t);
    lemma_reached_counts_moves(b, p, t, n);
}

/// All generated boards carry more marks than the board they were generated
/// from.
pub proof fn lemma_generated_all_add_marks(b: Board, p: char)
    requires
        p != EMPTY,
    ensures
        all_carry_more_marks(generated(b, p), b),
{
    reveal(all_carry_more_marks);
    assert forall|i: int| 0 <= i < generated(b, p).len() implies count_marks(
        #[trigger] generated(b, p)[i],
    ) > count_marks(b) by {
        lemma_generated_adds_marks(b, p, generated(b, p)[i]);
    }
}

/// Play between the two players keeps a board well formed.
pub proof fn lemma_generated_well_formed(b: Board, p: char, t: Board)
    requires
        well_formed(b),
        is_mark(p),
        generated(b, p).contains(t),
    ensures
        well_formed(t),
{
    let n = lemma_generated_is_reached(b, p, t);
    lemma_reached_well_formed(b, p, t, n);
}

proof fn lemma_reached_well_formed(b: Board, p: char, t: Board, n: nat)
    requires
        well_formed(b),
        is_mark(p),
        reaches(b, p, t, n),
    ensures
        well_formed(t),
    decreases n,
{
    if n == 0 {
        let k = choose|k: int| 0 <= k < 9 && cell(b, k) == EMPTY && t == #[trigger] with_mark(b, k, p);
        lemma_with_mark_cells(b, k, p);
    } else {
        let c = choose|c: Board| #[trigger]
            is_move(b, p, c) && reaches(c, opponent(p), t, (n - 1) as nat);
        let k = choose|k: int| 0 <= k < 9 && cell(b, k) == EMPTY && c == #[trigger] with_mark(b, k, p);
        lemma_with_mark_cells(b, k, p);
        lemma_reached_well_formed(c, opponent(p), t, (n - 1) as nat);
    }
}

} // verus!
