//! How many final boards there are up to symmetry: the census lists one
//! board for each class, and the boards that `terminal_boards` keeps match
//! its entries one to one.

use crate::board::{
    cell, empty_board, is_mark, lemma_with_mark_cells, well_formed, with_mark, Board, EMPTY, O, X,
};
use crate::generate::{generated, lemma_generated_is_reached, lemma_reached_is_generated, reaches};
use crate::packed::{
    cell_at, census_at, count_in, digit, final_in, form, full_in, in_census, last_at,
    lemma_cell_range, lemma_census_entries, lemma_census_place, lemma_pack_then_read,
    lemma_pack_without, lemma_read_then_pack, lemma_survey, line_in, mark, mirrored, pack, place,
    played_in, turned, valid, without,
};
use crate::positions::{
    balance, count_of, final_position, last_move_at, lemma_count_after_mark, lemma_counts_add_up,
    lemma_line_cells, lemma_played_is_well_formed, lemma_reached_iff_played, lemma_same_cells,
    played,
};
use crate::registry::{lemma_representatives, lists_form_of, representatives};
use crate::symmetry::{
    equivalent, lemma_equivalent_symmetric, lemma_equivalent_transitive, lemma_rotated_cells,
    lemma_symmetry_well_formed, lemma_transposed_cells, rotated, symmetry, transposed,
};
use crate::terminal::{has_line, is_full, terminal};
use vstd::prelude::*;

verus! {

/// The number that packs a board.
pub open spec fn code_of(b: Board) -> u32 {
    pack(
        digit(cell(b, 0)),
        digit(cell(b, 1)),
        digit(cell(b, 2)),
        digit(cell(b, 3)),
        digit(cell(b, 4)),
        digit(cell(b, 5)),
        digit(cell(b, 6)),
        digit(cell(b, 7)),
        digit(cell(b, 8)),
    )
}

/// The board that a number packs.
pub open spec fn board_of(v: u32) -> Board {
    [
        [mark(cell_at(v, 0)), mark(cell_at(v, 1)), mark(cell_at(v, 2))],
        [mark(cell_at(v, 3)), mark(cell_at(v, 4)), mark(cell_at(v, 5))],
        [mark(cell_at(v, 6)), mark(cell_at(v, 7)), mark(cell_at(v, 8))],
    ]
}

/// The board of entry `j` of the census.
pub open spec fn census_board(j: int) -> Board {
    board_of(census_at(j as u32))
}

/// `t` belongs to the class of entry `j` of the census.
pub open spec fn in_class(t: Board, j: int) -> bool {
    0 <= j < 138 && equivalent(t, census_board(j))
}

/// The entry of the census to whose class a board belongs.
pub open spec fn class_of(t: Board) -> int {
    choose|j: int| in_class(t, j)
}

/// The cells of a well-formed board are marks, cell by cell.
proof fn lemma_marks(t: Board)
    requires
        well_formed(t),
    ensures
        is_mark(cell(t, 0)) && is_mark(cell(t, 1)) && is_mark(cell(t, 2)),
        is_mark(cell(t, 3)) && is_mark(cell(t, 4)) && is_mark(cell(t, 5)),
        is_mark(cell(t, 6)) && is_mark(cell(t, 7)) && is_mark(cell(t, 8)),
{
}

/// The number that packs a well-formed board is valid, and its cells are the
/// digits of the cells of the board.
pub proof fn lemma_code_cells(t: Board)
    requires
        well_formed(t),
    ensures
        valid(code_of(t)),
        forall|k: u32| k < 9 ==> #[trigger] cell_at(code_of(t), k) == digit(cell(t, k as int)),
{
    lemma_pack_then_read(
        digit(cell(t, 0)),
        digit(cell(t, 1)),
        digit(cell(t, 2)),
        digit(cell(t, 3)),
        digit(cell(t, 4)),
        digit(cell(t, 5)),
        digit(cell(t, 6)),
        digit(cell(t, 7)),
        digit(cell(t, 8)),
    );
    assert forall|k: u32| k < 9 implies #[trigger] cell_at(code_of(t), k) == digit(
        cell(t, k as int),
    ) by {
        if k == 0 {
        } else if k == 1 {
        } else if k == 2 {
        } else if k == 3 {
        } else if k == 4 {
        } else if k == 5 {
        } else if k == 6 {
        } else if k == 7 {
        } else {
        }
    }
}

/// A valid number packs a well-formed board, and that board packs to the
/// number.
pub proof fn lemma_code_of_board(v: u32)
    requires
        valid(v),
    ensures
        well_formed(board_of(v)),
        code_of(board_of(v)) == v,
{
    let b = board_of(v);
    assert(b[0][0] == mark(cell_at(v, 0)) && b[0][1] == mark(cell_at(v, 1)) && b[0][2] == mark(
        cell_at(v, 2),
    ));
    assert(b[1][0] == mark(cell_at(v, 3)) && b[1][1] == mark(cell_at(v, 4)) && b[1][2] == mark(
        cell_at(v, 5),
    ));
    assert(b[2][0] == mark(cell_at(v, 6)) && b[2][1] == mark(cell_at(v, 7)) && b[2][2] == mark(
        cell_at(v, 8),
    ));
    lemma_cell_range(v, 0);
    lemma_cell_range(v, 1);
    lemma_cell_range(v, 2);
    lemma_cell_range(v, 3);
    lemma_cell_range(v, 4);
    lemma_cell_range(v, 5);
    lemma_cell_range(v, 6);
    lemma_cell_range(v, 7);
    lemma_cell_range(v, 8);
    assert forall|k: int| 0 <= k < 9 implies is_mark(#[trigger] cell(b, k)) by {
        assert(cell(b, k) == b[k / 3][k % 3]);
    }
    lemma_read_then_pack(v);
}

/// A well-formed board is the board that its number packs.
pub proof fn lemma_board_of_code(t: Board)
    requires
        well_formed(t),
    ensures
        board_of(code_of(t)) == t,
{
    lemma_code_cells(t);
    lemma_marks(t);
    let b = board_of(code_of(t));
    let v = code_of(t);
    assert(b[0][0] == mark(cell_at(v, 0)) && b[0][1] == mark(cell_at(v, 1)) && b[0][2] == mark(
        cell_at(v, 2),
    ));
    assert(b[1][0] == mark(cell_at(v, 3)) && b[1][1] == mark(cell_at(v, 4)) && b[1][2] == mark(
        cell_at(v, 5),
    ));
    assert(b[2][0] == mark(cell_at(v, 6)) && b[2][1] == mark(cell_at(v, 7)) && b[2][2] == mark(
        cell_at(v, 8),
    ));
    assert forall|k: int| 0 <= k < 9 implies cell(b, k) == cell(t, k) by {
        assert(cell_at(v, k as u32) == digit(cell(t, k)));
        assert(is_mark(cell(t, k)));
        assert(cell(b, k) == b[k / 3][k % 3]);
    }
    lemma_same_cells(b, t);
}

/// Turning a well-formed board turns its number, and mirroring it mirrors
/// its number.
proof fn lemma_code_turned(t: Board)
    requires
        well_formed(t),
    ensures
        code_of(rotated(t)) == turned(code_of(t)),
        code_of(transposed(t)) == mirrored(code_of(t)),
        well_formed(rotated(t)),
        well_formed(transposed(t)),
{
    lemma_code_cells(t);
    lemma_rotated_cells(t);
    lemma_transposed_cells(t);
    lemma_symmetry_well_formed(t, 2);
    lemma_symmetry_well_formed(t, 1);
    let r = rotated(t);
    assert(cell(r, 0) == cell(t, 6) && cell(r, 1) == cell(t, 3) && cell(r, 2) == cell(t, 0));
    assert(cell(r, 3) == cell(t, 7) && cell(r, 4) == cell(t, 4) && cell(r, 5) == cell(t, 1));
    assert(cell(r, 6) == cell(t, 8) && cell(r, 7) == cell(t, 5) && cell(r, 8) == cell(t, 2));
    let m = transposed(t);
    assert(cell(m, 0) == cell(t, 0) && cell(m, 1) == cell(t, 3) && cell(m, 2) == cell(t, 6));
    assert(cell(m, 3) == cell(t, 1) && cell(m, 4) == cell(t, 4) && cell(m, 5) == cell(t, 7));
    assert(cell(m, 6) == cell(t, 2) && cell(m, 7) == cell(t, 5) && cell(m, 8) == cell(t, 8));
}

/// Each symmetric form of a well-formed board packs to the same form of its
/// number.
pub proof fn lemma_code_of_form(t: Board, f: int)
    requires
        well_formed(t),
        0 <= f < 8,
    ensures
        code_of(symmetry(t, f)) == form(code_of(t), f),
        well_formed(symmetry(t, f)),
{
    lemma_code_turned(t);
    lemma_code_turned(rotated(t));
    lemma_code_turned(rotated(rotated(t)));
    lemma_code_turned(rotated(rotated(rotated(t))));
}

/// A line on a well-formed board is a line in its number, and a full board
/// packs to a full number.
proof fn lemma_code_lines(t: Board)
    requires
        well_formed(t),
    ensures
        has_line(t) <==> line_in(code_of(t)),
        is_full(t) <==> full_in(code_of(t)),
        terminal(t) <==> line_in(code_of(t)) || full_in(code_of(t)),
{
    lemma_code_cells(t);
    lemma_line_cells(t);
    lemma_marks(t);
    if is_full(t) {
        assert(t[0][0] != EMPTY && t[0][1] != EMPTY && t[0][2] != EMPTY);
        assert(t[1][0] != EMPTY && t[1][1] != EMPTY && t[1][2] != EMPTY);
        assert(t[2][0] != EMPTY && t[2][1] != EMPTY && t[2][2] != EMPTY);
    }
    if full_in(code_of(t)) {
        assert forall|x: int, y: int| 0 <= x < 3 && 0 <= y < 3 implies t[x][y] != EMPTY by {
            assert(cell(t, 3 * x + y) == t[x][y]);
            assert(cell_at(code_of(t), (3 * x + y) as u32) == digit(cell(t, 3 * x + y)));
        }
    }
}

/// The marks of a well-formed board are counted in its number.
proof fn lemma_code_counts(t: Board)
    requires
        well_formed(t),
    ensures
        count_in(code_of(t), 1) == count_of(t, X),
        count_in(code_of(t), 2) == count_of(t, O),
{
    lemma_code_cells(t);
    lemma_marks(t);
}

/// Taking a mark off a well-formed board takes it off its number.
proof fn lemma_code_without(t: Board, k: int)
    requires
        well_formed(t),
        0 <= k < 9,
    ensures
        code_of(with_mark(t, k, EMPTY)) == without(code_of(t), k as u32),
        well_formed(with_mark(t, k, EMPTY)),
{
    let w = with_mark(t, k, EMPTY);
    lemma_with_mark_cells(t, k, EMPTY);
    lemma_pack_without(
        digit(cell(t, 0)),
        digit(cell(t, 1)),
        digit(cell(t, 2)),
        digit(cell(t, 3)),
        digit(cell(t, 4)),
        digit(cell(t, 5)),
        digit(cell(t, 6)),
        digit(cell(t, 7)),
        digit(cell(t, 8)),
        k as u32,
    );
    assert(digit(cell(w, 0)) == if k as u32 == 0 { 0 } else { digit(cell(t, 0)) });
    assert(digit(cell(w, 1)) == if k as u32 == 1 { 0 } else { digit(cell(t, 1)) });
    assert(digit(cell(w, 2)) == if k as u32 == 2 { 0 } else { digit(cell(t, 2)) });
    assert(digit(cell(w, 3)) == if k as u32 == 3 { 0 } else { digit(cell(t, 3)) });
    assert(digit(cell(w, 4)) == if k as u32 == 4 { 0 } else { digit(cell(t, 4)) });
    assert(digit(cell(w, 5)) == if k as u32 == 5 { 0 } else { digit(cell(t, 5)) });
    assert(digit(cell(w, 6)) == if k as u32 == 6 { 0 } else { digit(cell(t, 6)) });
    assert(digit(cell(w, 7)) == if k as u32 == 7 { 0 } else { digit(cell(t, 7)) });
    assert(digit(cell(w, 8)) == if k as u32 == 8 { 0 } else { digit(cell(t, 8)) });
}

/// Whether a mark can have been the last one played, told in two ways: by
/// the board without the mark, and by the counts of the board with it.
proof fn lemma_last_mark_by_counts(
    c: char,
    marks_x: int,
    marks_o: int,
    balance_without: int,
    line_without: bool,
)
    requires
        is_mark(c),
        balance_without == marks_x - marks_o - crate::positions::holds(c, X)
            + crate::positions::holds(c, O),
    ensures
        (c != EMPTY && !line_without && (balance_without == 0 || balance_without == 1) && c == (
        if balance_without == 0 {
            X
        } else {
            O
        })) <==> (!line_without && ((digit(c) == 1 && marks_x == marks_o + 1) || (digit(c) == 2
            && marks_x == marks_o))),
{
}

/// On a well-formed board the mark on cell `k` can have been the last one
/// played exactly when its number says so.
proof fn lemma_code_last(t: Board, k: int)
    requires
        well_formed(t),
        0 <= k < 9,
    ensures
        last_move_at(t, k) <==> last_at(code_of(t), k as u32),
{
    let w = with_mark(t, k, EMPTY);
    let v = code_of(t);
    lemma_code_without(t, k);
    lemma_code_lines(w);
    lemma_code_counts(t);
    lemma_count_after_mark(t, k, EMPTY, X);
    lemma_count_after_mark(t, k, EMPTY, O);
    lemma_counts_add_up(t);
    assert(cell_at(v, k as u32) == digit(cell(t, k))) by {
        lemma_code_cells(t);
    }
    assert(is_mark(cell(t, k)));
    lemma_last_mark_by_counts(
        cell(t, k),
        count_of(t, X),
        count_of(t, O),
        balance(w),
        has_line(w),
    );
    assert(last_at(v, k as u32) <==> (!line_in(without(v, k as u32)) && ((cell_at(v, k as u32) == 1
        && count_in(v, 1) == count_in(v, 2) + 1) || (cell_at(v, k as u32) == 2 && count_in(v, 1)
        == count_in(v, 2)))));
    assert(last_move_at(t, k) <==> (cell(t, k) != EMPTY && !has_line(w) && (balance(w) == 0
        || balance(w) == 1) && cell(t, k) == (if balance(w) == 0 {
        X
    } else {
        O
    })));
}

/// A game can end on a well-formed board exactly when its number says so.
pub proof fn lemma_code_final(t: Board)
    requires
        well_formed(t),
    ensures
        final_position(t) <==> final_in(code_of(t)),
{
    lemma_code_lines(t);
    lemma_code_last(t, 0);
    lemma_code_last(t, 1);
    lemma_code_last(t, 2);
    lemma_code_last(t, 3);
    lemma_code_last(t, 4);
    lemma_code_last(t, 5);
    lemma_code_last(t, 6);
    lemma_code_last(t, 7);
    lemma_code_last(t, 8);
    if played(t) {
        let k = choose|k: int| 0 <= k < 9 && #[trigger] last_move_at(t, k);
        assert(k == 0 || k == 1 || k == 2 || k == 3 || k == 4 || k == 5 || k == 6 || k == 7 || k
            == 8);
    }
    if played_in(code_of(t)) {
        assert(last_move_at(t, 0) || last_move_at(t, 1) || last_move_at(t, 2) || last_move_at(t, 3)
            || last_move_at(t, 4) || last_move_at(t, 5) || last_move_at(t, 6) || last_move_at(t, 7)
            || last_move_at(t, 8));
    }
}

/// The board of each entry of the census is a well-formed board on which a
/// game can end, and none of its symmetric forms packs to a smaller number.
pub proof fn lemma_census_board(j: int)
    requires
        0 <= j < 138,
    ensures
        well_formed(census_board(j)),
        final_position(census_board(j)),
        code_of(census_board(j)) == census_at(j as u32),
        place(census_at(j as u32)) == j,
        forall|f: int| 0 <= f < 8 ==> census_at(j as u32) <= code_of(#[trigger] symmetry(census_board(j), f)),
{
    let v = census_at(j as u32);
    let e = census_board(j);
    lemma_census_entries(j as u32, v);
    lemma_code_of_board(v);
    lemma_code_final(e);
    assert forall|f: int| 0 <= f < 8 implies v <= code_of(#[trigger] symmetry(e, f)) by {
        lemma_code_of_form(e, f);
    }
}

/// Every board on which a game can end belongs to the class of an entry of
/// the census.
pub proof fn lemma_final_in_class(t: Board) -> (j: int)
    requires
        final_position(t),
    ensures
        in_class(t, j),
{
    lemma_played_is_well_formed(t);
    let v = code_of(t);
    lemma_code_cells(t);
    lemma_code_final(t);
    lemma_survey(v, form(v, 1), form(v, 2), form(v, 3), form(v, 4), form(v, 5), form(v, 6), form(v, 7));
    let f = if in_census(form(v, 0)) {
        0int
    } else if in_census(form(v, 1)) {
        1
    } else if in_census(form(v, 2)) {
        2
    } else if in_census(form(v, 3)) {
        3
    } else if in_census(form(v, 4)) {
        4
    } else if in_census(form(v, 5)) {
        5
    } else if in_census(form(v, 6)) {
        6
    } else {
        7
    };
    let j = place(form(v, f));
    lemma_census_place(form(v, f), j);
    lemma_code_of_form(t, f);
    lemma_board_of_code(symmetry(t, f));
    assert(symmetry(t, f) == census_board(j as int));
    j as int
}

/// Two entries of the census whose boards are symmetric forms of each other
/// are one entry.
pub proof fn lemma_classes_apart(i: int, j: int)
    requires
        0 <= i < 138,
        0 <= j < 138,
        equivalent(census_board(i), census_board(j)),
    ensures
        i == j,
{
    let a = census_board(i);
    let b = census_board(j);
    lemma_census_board(i);
    lemma_census_board(j);
    lemma_equivalent_symmetric(a, b);
    let f = choose|f: int| 0 <= f < 8 && #[trigger] symmetry(a, f) == b;
    let g = choose|g: int| 0 <= g < 8 && #[trigger] symmetry(b, g) == a;
    assert(census_at(i as u32) <= code_of(symmetry(a, f)));
    assert(census_at(j as u32) <= code_of(symmetry(b, g)));
    assert(census_at(i as u32) == census_at(j as u32));
    assert(place(census_at(i as u32)) == i);
    assert(place(census_at(j as u32)) == j);
}

/// A board on which a game can end belongs to the class of one entry of the
/// census only.
pub proof fn lemma_one_class(t: Board, i: int, j: int)
    requires
        in_class(t, i),
        in_class(t, j),
    ensures
        i == j,
{
    lemma_equivalent_symmetric(t, census_board(i));
    lemma_equivalent_transitive(census_board(i), t, census_board(j));
    lemma_classes_apart(i, j);
}

/// The final boards of the whole game, one for each class of symmetric
/// boards, are 138 boards: they match the entries of the census one to one.
pub proof fn lemma_number_of_classes()
    ensures
        representatives(generated(empty_board(), X)).len() == 138,
{
    let all = generated(empty_board(), X);
    let kept = representatives(all);
    lemma_representatives(all);
    let classes = Seq::new(kept.len(), |i: int| class_of(kept[i]));
    assert forall|i: int| 0 <= i < kept.len() implies in_class(kept[i], #[trigger] classes[i]) by {
        let n = lemma_generated_is_reached(empty_board(), X, kept[i]);
        lemma_reached_iff_played(kept[i]);
        let j = lemma_final_in_class(kept[i]);
    }
    assert forall|i: int, j: int| 0 <= i < j < kept.len() implies classes[i] != classes[j] by {
        if classes[i] == classes[j] {
            let c = census_board(classes[i]);
            lemma_equivalent_symmetric(kept[j], c);
            lemma_equivalent_transitive(kept[i], c, kept[j]);
        }
    }
    assert(classes.no_duplicates());
    assert forall|j: int| 0 <= j < 138 implies classes.contains(j) by {
        lemma_census_board(j);
        let e = census_board(j);
        lemma_reached_iff_played(e);
        let n = choose|n: nat| reaches(empty_board(), X, e, n);
        lemma_reached_is_generated(empty_board(), X, e, n);
        let at = choose|at: int| 0 <= at < all.len() && all[at] == e;
        assert(lists_form_of(kept, all[at]));
        let i = choose|i: int| 0 <= i < kept.len() && equivalent(e, #[trigger] kept[i]);
        lemma_equivalent_symmetric(e, kept[i]);
        lemma_one_class(kept[i], classes[i], j);
        assert(classes[i] == j);
    }
    assert(classes.to_set() =~= vstd::set_lib::set_int_range(0, 138)) by {
        assert forall|j: int| classes.to_set().contains(j) implies 0 <= j < 138 by {
            let i = choose|i: int| 0 <= i < classes.len() && classes[i] == j;
            assert(in_class(kept[i], classes[i]));
        }
    }
    classes.unique_seq_to_set();
    vstd::set_lib::lemma_int_range(0, 138);
}

} // verus!
