//! The eight symmetries of the square, applied to a board: four rotations,
//! each of them plain or mirrored in the main diagonal.

use crate::board::{cell, grid, is_mark, lemma_boards_equal, well_formed, Board};
use vstd::prelude::*;

verus! {

/// The board turned by a quarter: cell `(x, y)` of the result is cell
/// `(2 - y, x)` of `b`, so the columns become the rows, read upwards.
pub open spec fn rotated(b: Board) -> Board {
    [
        [b[2][0], b[1][0], b[0][0]],
        [b[2][1], b[1][1], b[0][1]],
        [b[2][2], b[1][2], b[0][2]],
    ]
}

/// The board mirrored in its main diagonal: cell `(y, x)` of the result is
/// cell `(x, y)` of `b`.
pub open spec fn transposed(b: Board) -> Board {
    [
        [b[0][0], b[1][0], b[2][0]],
        [b[0][1], b[1][1], b[2][1]],
        [b[0][2], b[1][2], b[2][2]],
    ]
}

/// The `i`-th of the eight symmetric forms of `b`: form `2 * n` is `b` turned
/// by `n` quarters, form `2 * n + 1` is the transpose of that.
pub open spec fn symmetry(b: Board, i: int) -> Board {
    if i == 0 {
        b
    } else if i == 1 {
        transposed(b)
    } else if i == 2 {
        rotated(b)
    } else if i == 3 {
        transposed(rotated(b))
    } else if i == 4 {
        rotated(rotated(b))
    } else if i == 5 {
        transposed(rotated(rotated(b)))
    } else if i == 6 {
        rotated(rotated(rotated(b)))
    } else {
        transposed(rotated(rotated(rotated(b))))
    }
}

/// The keys of the eight symmetric forms of `b`, in the order of `symmetry`.
/// A board that a symmetry maps to itself has some key more than once.
pub open spec fn representations(b: Board) -> Seq<Seq<char>> {
    Seq::new(8, |i: int| grid(symmetry(b, i)))
}

/// `b` is one of the eight symmetric forms of `a`.
pub open spec fn equivalent(a: Board, b: Board) -> bool {
    exists|i: int| 0 <= i < 8 && #[trigger] symmetry(a, i) == b
}

/// The form that undoes form `i`: the quarter turn and the three quarter
/// turns undo each other, every other form undoes itself.
pub open spec fn inverse(i: int) -> int {
    if i == 2 {
        6
    } else if i == 6 {
        2
    } else {
        i
    }
}

/// The form that a quarter turn makes of form `i`.
pub open spec fn turn(i: int) -> int {
    if i % 2 == 0 {
        (i + 2) % 8
    } else {
        (i + 6) % 8
    }
}

/// The form that is form `j` of form `i`.
pub open spec fn compose(i: int, j: int) -> int {
    let r = if j / 2 == 0 {
        i
    } else if j / 2 == 1 {
        turn(i)
    } else if j / 2 == 2 {
        turn(turn(i))
    } else {
        turn(turn(turn(i)))
    };
    if j % 2 == 0 {
        r
    } else if r % 2 == 0 {
        r + 1
    } else {
        r - 1
    }
}

/// Two boards that agree in each of the nine cells are the same board.
proof fn lemma_same_cells(a: Board, b: Board)
    requires
        a[0][0] == b[0][0],
        a[0][1] == b[0][1],
        a[0][2] == b[0][2],
        a[1][0] == b[1][0],
        a[1][1] == b[1][1],
        a[1][2] == b[1][2],
        a[2][0] == b[2][0],
        a[2][1] == b[2][1],
        a[2][2] == b[2][2],
    ensures
        a == b,
{
    lemma_boards_equal(a, b);
}

/// Cell by cell, what a quarter turn does.
pub proof fn lemma_rotated_cells(b: Board)
    ensures
        forall|x: int, y: int| 0 <= x < 3 && 0 <= y < 3 ==> rotated(b)[x][y] == b[2 - y][x],
{
    let r = rotated(b);
    assert(r[0][0] == b[2][0] && r[0][1] == b[1][0] && r[0][2] == b[0][0]);
    assert(r[1][0] == b[2][1] && r[1][1] == b[1][1] && r[1][2] == b[0][1]);
    assert(r[2][0] == b[2][2] && r[2][1] == b[1][2] && r[2][2] == b[0][2]);
}

/// Cell by cell, what mirroring in the main diagonal does.
pub proof fn lemma_transposed_cells(b: Board)
    ensures
        forall|x: int, y: int| 0 <= x < 3 && 0 <= y < 3 ==> transposed(b)[y][x] == b[x][y],
{
    let t = transposed(b);
    assert(t[0][0] == b[0][0] && t[0][1] == b[1][0] && t[0][2] == b[2][0]);
    assert(t[1][0] == b[0][1] && t[1][1] == b[1][1] && t[1][2] == b[2][1]);
    assert(t[2][0] == b[0][2] && t[2][1] == b[1][2] && t[2][2] == b[2][2]);
}

/// Four quarter turns bring every board back to itself.
pub proof fn lemma_four_rotations(b: Board)
    ensures
        rotated(rotated(rotated(rotated(b)))) == b,
{
    lemma_same_cells(rotated(rotated(rotated(rotated(b)))), b);
}

/// Mirroring twice brings every board back to itself.
pub proof fn lemma_two_transpositions(b: Board)
    ensures
        transposed(transposed(b)) == b,
{
    lemma_same_cells(transposed(transposed(b)), b);
}

/// A quarter turn after a reflection is the reflection after three quarter
/// turns.
pub proof fn lemma_rotated_transposed(b: Board)
    ensures
        rotated(transposed(b)) == transposed(rotated(rotated(rotated(b)))),
{
    lemma_same_cells(rotated(transposed(b)), transposed(rotated(rotated(rotated(b)))));
}

/// A quarter turn of a symmetric form of `b` is a symmetric form of `b`.
pub proof fn lemma_turn(b: Board, i: int)
    requires
        0 <= i < 8,
    ensures
        0 <= turn(i) < 8,
        rotated(symmetry(b, i)) == symmetry(b, turn(i)),
{
    if i == 1 {
        lemma_rotated_transposed(b);
    } else if i == 3 {
        lemma_rotated_transposed(rotated(b));
        lemma_four_rotations(b);
    } else if i == 5 {
        lemma_rotated_transposed(rotated(rotated(b)));
        lemma_four_rotations(rotated(b));
    } else if i == 6 {
        lemma_four_rotations(b);
    } else if i == 7 {
        lemma_rotated_transposed(rotated(rotated(rotated(b))));
        lemma_four_rotations(rotated(rotated(b)));
    }
}

/// The mirror image of a symmetric form of `b` is a symmetric form of `b`.
pub proof fn lemma_mirror(b: Board, i: int)
    requires
        0 <= i < 8,
    ensures
        i % 2 == 0 ==> transposed(symmetry(b, i)) == symmetry(b, i + 1),
        i % 2 == 1 ==> transposed(symmetry(b, i)) == symmetry(b, i - 1),
{
    if i == 1 {
        lemma_two_transpositions(b);
    } else if i == 3 {
        lemma_two_transpositions(rotated(b));
    } else if i == 5 {
        lemma_two_transpositions(rotated(rotated(b)));
    } else if i == 7 {
        lemma_two_transpositions(rotated(rotated(rotated(b))));
    }
}

/// The symmetric forms are closed under composition: form `j` of form `i` of
/// a board is its form `compose(i, j)`.
pub proof fn lemma_compose(b: Board, i: int, j: int)
    requires
        0 <= i < 8,
        0 <= j < 8,
    ensures
        0 <= compose(i, j) < 8,
        symmetry(symmetry(b, i), j) == symmetry(b, compose(i, j)),
{
    let a = symmetry(b, i);
    let i1 = turn(i);
    let i2 = turn(i1);
    let i3 = turn(i2);
    lemma_turn(b, i);
    lemma_turn(b, i1);
    lemma_turn(b, i2);
    let r = if j / 2 == 0 {
        i
    } else if j / 2 == 1 {
        i1
    } else if j / 2 == 2 {
        i2
    } else {
        i3
    };
    assert(symmetry(a, 2 * (j / 2)) == symmetry(b, r));
    lemma_mirror(b, r);
}

/// Each symmetric form is undone by a symmetric form.
pub proof fn lemma_inverse(b: Board, i: int)
    requires
        0 <= i < 8,
    ensures
        0 <= inverse(i) < 8,
        symmetry(symmetry(b, i), inverse(i)) == b,
{
    lemma_compose(b, i, inverse(i));
}

/// Every board is equivalent to itself.
pub proof fn lemma_equivalent_reflexive(a: Board)
    ensures
        equivalent(a, a),
{
    assert(symmetry(a, 0) == a);
}

/// If `b` is a symmetric form of `a`, then `a` is a symmetric form of `b`.
pub proof fn lemma_equivalent_symmetric(a: Board, b: Board)
    requires
        equivalent(a, b),
    ensures
        equivalent(b, a),
{
    let i = choose|i: int| 0 <= i < 8 && #[trigger] symmetry(a, i) == b;
    lemma_inverse(a, i);
    assert(symmetry(b, inverse(i)) == a);
}

/// A symmetric form of a symmetric form of `a` is a symmetric form of `a`.
pub proof fn lemma_equivalent_transitive(a: Board, b: Board, c: Board)
    requires
        equivalent(a, b),
        equivalent(b, c),
    ensures
        equivalent(a, c),
{
    let i = choose|i: int| 0 <= i < 8 && #[trigger] symmetry(a, i) == b;
    let j = choose|j: int| 0 <= j < 8 && #[trigger] symmetry(b, j) == c;
    lemma_compose(a, i, j);
    assert(symmetry(a, compose(i, j)) == c);
}

/// Two boards are equivalent exactly when the key of one is among the eight
/// keys of the other.
pub proof fn lemma_equivalent_iff_key_listed(a: Board, b: Board)
    ensures
        equivalent(a, b) <==> representations(a).contains(grid(b)),
{
    if equivalent(a, b) {
        let i = choose|i: int| 0 <= i < 8 && #[trigger] symmetry(a, i) == b;
        assert(representations(a)[i] == grid(b));
    }
    if representations(a).contains(grid(b)) {
        let i = choose|i: int| 0 <= i < 8 && representations(a)[i] == grid(b);
        crate::board::lemma_grid_injective(symmetry(a, i), b);
    }
}

/// Two boards are equivalent exactly when their sets of eight keys meet.
pub proof fn lemma_equivalent_iff_keys_meet(a: Board, b: Board)
    ensures
        equivalent(a, b) <==> exists|i: int, j: int|
            0 <= i < 8 && 0 <= j < 8 && #[trigger] representations(a)[i]
                == #[trigger] representations(b)[j],
{
    if equivalent(a, b) {
        let i = choose|i: int| 0 <= i < 8 && #[trigger] symmetry(a, i) == b;
        assert(representations(a)[i] == representations(b)[0]);
    }
    if exists|i: int, j: int|
        0 <= i < 8 && 0 <= j < 8 && #[trigger] representations(a)[i]
            == #[trigger] representations(b)[j] {
        let (i, j) = choose|i: int, j: int|
            0 <= i < 8 && 0 <= j < 8 && #[trigger] representations(a)[i]
                == #[trigger] representations(b)[j];
        crate::board::lemma_grid_injective(symmetry(a, i), symmetry(b, j));
        assert(equivalent(a, symmetry(b, j)));
        assert(equivalent(b, symmetry(b, j)));
        lemma_equivalent_symmetric(b, symmetry(b, j));
        lemma_equivalent_transitive(a, symmetry(b, j), b);
    }
}

/// A board of one mark in all nine cells has the same key eight times.
pub proof fn lemma_uniform_board_one_key(b: Board, m: char)
    requires
        forall|k: int| 0 <= k < 9 ==> #[trigger] cell(b, k) == m,
    ensures
        forall|i: int| 0 <= i < 8 ==> #[trigger] representations(b)[i] == Seq::new(9, |k: int| m),
{
    assert(cell(b, 0) == m && cell(b, 1) == m && cell(b, 2) == m);
    assert(cell(b, 3) == m && cell(b, 4) == m && cell(b, 5) == m);
    assert(cell(b, 6) == m && cell(b, 7) == m && cell(b, 8) == m);
    lemma_same_cells(rotated(b), b);
    lemma_same_cells(transposed(b), b);
    assert forall|i: int| 0 <= i < 8 implies #[trigger] representations(b)[i] == Seq::new(
        9,
        |k: int| m,
    ) by {
        assert(symmetry(b, i) == b);
        assert(grid(b) =~= Seq::new(9, |k: int| m));
    }
}

/// Turning and mirroring keep a board well formed.
pub proof fn lemma_symmetry_well_formed(b: Board, i: int)
    requires
        well_formed(b),
        0 <= i < 8,
    ensures
        well_formed(symmetry(b, i)),
{
    lemma_rotated_well_formed(b);
    lemma_rotated_well_formed(rotated(b));
    lemma_rotated_well_formed(rotated(rotated(b)));
    lemma_transposed_well_formed(b);
    lemma_transposed_well_formed(rotated(b));
    lemma_transposed_well_formed(rotated(rotated(b)));
    lemma_transposed_well_formed(rotated(rotated(rotated(b))));
}

proof fn lemma_rotated_well_formed(b: Board)
    requires
        well_formed(b),
    ensures
        well_formed(rotated(b)),
{
    lemma_rotated_cells(b);
    assert forall|k: int| 0 <= k < 9 implies is_mark(#[trigger] cell(rotated(b), k)) by {
        assert(rotated(b)[k / 3][k % 3] == cell(b, 3 * (2 - k % 3) + k / 3));
    }
}

proof fn lemma_transposed_well_formed(b: Board)
    requires
        well_formed(b),
    ensures
        well_formed(transposed(b)),
{
    lemma_transposed_cells(b);
    assert forall|k: int| 0 <= k < 9 implies is_mark(#[trigger] cell(transposed(b), k)) by {
        assert(transposed(b)[k / 3][k % 3] == cell(b, 3 * (k % 3) + k / 3));
    }
}

} // verus!
