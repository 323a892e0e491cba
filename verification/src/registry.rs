//! The registry of final boards: one board for each class of boards that the
//! symmetries of the square turn into one another.

use crate::board::{empty_board, grid, lemma_boards_equal, lemma_grid_injective, Board, EMPTY, X};
use crate::generate::{all_boards, generated};
use crate::methods::BoardMethods;
use crate::symmetry::{
    equivalent, lemma_equivalent_iff_key_listed, lemma_equivalent_symmetric, representations,
};
use crate::terminal::terminal;
use vstd::hash_map::StringHashMap;
use vstd::prelude::*;

verus! {

/// Boards by their keys. Seen as a `Map` from keys to boards.
pub type Boards = StringHashMap<Board>;

/// What the registry is asked and told. `Boards` is the one type that has
/// these methods; the contracts stand with them below.
pub trait BoardsMethods {
    /// Whether a symmetric form of `b` is in the registry.
    fn contains(&self, b: Board) -> bool;

    /// Puts `b` into the registry under its own key.
    fn insert_board(&mut self, b: Board);
}

/// One of the eight keys of `b` is a key of the registry.
pub open spec fn holds_form_of(m: Map<Seq<char>, Board>, b: Board) -> bool {
    exists|i: int| 0 <= i < 8 && m.contains_key(#[trigger] representations(b)[i])
}

/// Every board of the registry is found under its own key.
pub open spec fn keyed_by_grid(m: Map<Seq<char>, Board>) -> bool {
    forall|k: Seq<char>| m.contains_key(k) ==> grid(#[trigger] m[k]) == k
}

/// No two boards of the registry are symmetric forms of each other.
pub open spec fn one_per_class(m: Map<Seq<char>, Board>) -> bool {
    forall|j: Seq<char>, k: Seq<char>|
        m.contains_key(j) && m.contains_key(k) && j != k ==> !equivalent(
            #[trigger] m[j],
            #[trigger] m[k],
        )
}

/// What holds of a registry that was filled with boards not held before:
/// each board is found under its own key, and each class of symmetric boards
/// has at most one board in it.
pub open spec fn well_kept(m: Map<Seq<char>, Board>) -> bool {
    keyed_by_grid(m) && one_per_class(m)
}

/// `b` has a symmetric form among the boards of `s`.
pub open spec fn lists_form_of(s: Seq<Board>, b: Board) -> bool {
    exists|j: int| 0 <= j < s.len() && equivalent(b, #[trigger] s[j])
}

/// The final boards of `s`, one for each class of symmetric boards: a board
/// is kept if the game has ended on it and no symmetric form of it was kept
/// before, so of each class the first board in `s` stays, in the form in
/// which it stands there.
pub open spec fn representatives(s: Seq<Board>) -> Seq<Board>
    decreases s.len(),
{
    if s.len() == 0 {
        Seq::empty()
    } else {
        let kept = representatives(s.drop_last());
        if terminal(s.last()) && !lists_form_of(kept, s.last()) {
            kept.push(s.last())
        } else {
            kept
        }
    }
}

/// The registry `m` holds the boards of `s`, each under its own key, and
/// nothing else.
pub open spec fn holds_exactly(m: Map<Seq<char>, Board>, s: Seq<Board>) -> bool {
    &&& forall|j: int|
        0 <= j < s.len() ==> m.contains_key(grid(#[trigger] s[j])) && m[grid(s[j])] == s[j]
    &&& forall|k: Seq<char>|
        m.contains_key(k) ==> exists|j: int| 0 <= j < s.len() && grid(#[trigger] s[j]) == k
}

impl BoardsMethods for Boards {
    /// Whether the registry holds a symmetric form of `board`: whether one
    /// of the eight keys of `board` is a key of the registry.
    fn contains(&self, board: Board) -> (r: bool)
        ensures
            r == holds_form_of(self@, board),
    {
        let keys = board.all_representations();
        for i in 0..8usize
            invariant
                forall|j: int| 0 <= j < 8 ==> keys[j]@ == #[trigger] representations(board)[j],
                forall|j: int| 0 <= j < i ==> !self@.contains_key(#[trigger] representations(board)[j]),
        {
            if self.contains_key(keys[i].as_str()) {
                assert(self@.contains_key(representations(board)[i as int]));
                return true;
            }
        }
        false
    }

    /// Puts `b` into the registry under its own key, the key of none of its
    /// other symmetric forms. A board that the key stood for before is
    /// replaced, and that can only be `b` itself where every board was put
    /// in this way.
    fn insert_board(&mut self, b: Board)
        ensures
            final(self)@ == old(self)@.insert(grid(b), b),
            keyed_by_grid(old(self)@) ==> keyed_by_grid(final(self)@),
            well_kept(old(self)@) && !holds_form_of(old(self)@, b) ==> well_kept(final(self)@),
    {
        proof {
            if well_kept(self@) && !holds_form_of(self@, b) {
                lemma_insert_keeps_one_per_class(self@, b);
            }
        }
        self.insert(b.representation(), b);
    }
}

/// The final boards of the whole game, one for each class of symmetric
/// boards: of all the boards that play reaches from the empty board when `X`
/// moves first, in the order in which `all_boards` lists them, those on which
/// the game has ended and of which no symmetric form came before. There are
/// 138 of them.
pub fn terminal_boards() -> (found: Vec<Board>)
    ensures
        found@ == representatives(generated(empty_board(), X)),
        found@.len() == 138,
        forall|i: int|
            0 <= i < found@.len() ==> terminal(#[trigger] found@[i]) && generated(
                empty_board(),
                X,
            ).contains(found@[i]),
        forall|i: int, j: int|
            0 <= i < j < found@.len() ==> !equivalent(#[trigger] found@[i], #[trigger] found@[j])
                && !equivalent(found@[j], found@[i]),
        forall|n: int|
            0 <= n < generated(empty_board(), X).len() && terminal(
                #[trigger] generated(empty_board(), X)[n],
            ) ==> lists_form_of(found@, generated(empty_board(), X)[n]),
{
    let start = [[EMPTY; 3]; 3];
    proof {
        lemma_boards_equal(start, empty_board());
    }
    let mut final_boards = StringHashMap::new();
    let mut found: Vec<Board> = Vec::new();
    let boards = all_boards(start, X);
    for n in 0..boards.len()
        invariant
            found@ == representatives(boards@.take(n as int)),
            holds_exactly(final_boards@, found@),
    {
        let board = boards[n];
        proof {
            assert(boards@.take(n + 1).drop_last() == boards@.take(n as int));
            lemma_held_iff_listed(final_boards@, found@, board);
        }
        if board.is_terminal() && !final_boards.contains(board) {
            proof {
                lemma_insert_holds_exactly(final_boards@, found@, board);
            }
            final_boards.insert_board(board);
            found.push(board);
        }
    }
    assert(boards@.take(boards.len() as int) == boards@);
    proof {
        lemma_representatives(boards@);
        crate::census::lemma_number_of_classes();
    }
    found
}

/// A registry that holds exactly the boards of `s`, once `b` is put in,
/// holds exactly the boards of `s` and `b`.
pub proof fn lemma_insert_holds_exactly(m: Map<Seq<char>, Board>, s: Seq<Board>, b: Board)
    requires
        holds_exactly(m, s),
    ensures
        holds_exactly(m.insert(grid(b), b), s.push(b)),
{
    let after = m.insert(grid(b), b);
    let longer = s.push(b);
    assert forall|j: int| 0 <= j < longer.len() implies after.contains_key(
        grid(#[trigger] longer[j]),
    ) && after[grid(longer[j])] == longer[j] by {
        if j < s.len() && grid(s[j]) == grid(b) {
            lemma_grid_injective(s[j], b);
        }
    }
    assert forall|k: Seq<char>| after.contains_key(k) implies exists|j: int|
        0 <= j < longer.len() && grid(#[trigger] longer[j]) == k by {
        if k == grid(b) {
            assert(grid(longer[s.len() as int]) == k);
        } else {
            let j = choose|j: int| 0 <= j < s.len() && grid(#[trigger] s[j]) == k;
            assert(grid(longer[j]) == k);
        }
    }
}

/// A registry that holds exactly the boards of `s` holds a symmetric form
/// of `b` if and only if `s` lists one.
pub proof fn lemma_held_iff_listed(m: Map<Seq<char>, Board>, s: Seq<Board>, b: Board)
    requires
        holds_exactly(m, s),
    ensures
        holds_form_of(m, b) <==> lists_form_of(s, b),
{
    if holds_form_of(m, b) {
        let i = choose|i: int| 0 <= i < 8 && m.contains_key(#[trigger] representations(b)[i]);
        let k = representations(b)[i];
        let j = choose|j: int| 0 <= j < s.len() && grid(#[trigger] s[j]) == k;
        lemma_equivalent_iff_key_listed(b, s[j]);
        assert(equivalent(b, s[j]));
    }
    if lists_form_of(s, b) {
        let j = choose|j: int| 0 <= j < s.len() && equivalent(b, #[trigger] s[j]);
        lemma_equivalent_iff_key_listed(b, s[j]);
        let i = choose|i: int| 0 <= i < 8 && representations(b)[i] == grid(s[j]);
        assert(m.contains_key(representations(b)[i]));
    }
}

/// A registry in which every board is found under its own key holds a
/// symmetric form of `b` if and only if one of its boards is equivalent to
/// `b`.
pub proof fn lemma_held_iff_equivalent(m: Map<Seq<char>, Board>, b: Board)
    requires
        keyed_by_grid(m),
    ensures
        holds_form_of(m, b) <==> exists|k: Seq<char>|
            m.contains_key(k) && equivalent(#[trigger] m[k], b),
{
    if holds_form_of(m, b) {
        let i = choose|i: int| 0 <= i < 8 && m.contains_key(#[trigger] representations(b)[i]);
        let k = representations(b)[i];
        lemma_equivalent_iff_key_listed(b, m[k]);
        lemma_equivalent_symmetric(b, m[k]);
    }
    if exists|k: Seq<char>| m.contains_key(k) && equivalent(#[trigger] m[k], b) {
        let k = choose|k: Seq<char>| m.contains_key(k) && equivalent(#[trigger] m[k], b);
        lemma_equivalent_symmetric(m[k], b);
        lemma_equivalent_iff_key_listed(b, m[k]);
        let i = choose|i: int| 0 <= i < 8 && representations(b)[i] == grid(m[k]);
        assert(m.contains_key(representations(b)[i]));
    }
}

/// Putting a board in keeps every board under its own key.
pub proof fn lemma_insert_keeps_keys(m: Map<Seq<char>, Board>, b: Board)
    requires
        keyed_by_grid(m),
    ensures
        keyed_by_grid(m.insert(grid(b), b)),
{
}

/// A registry never holds two symmetric forms of one board, as long as a
/// board is put in only where the registry holds no symmetric form of it: it
/// stays well kept, and the board is one more.
pub proof fn lemma_insert_keeps_one_per_class(m: Map<Seq<char>, Board>, b: Board)
    requires
        well_kept(m),
        !holds_form_of(m, b),
    ensures
        well_kept(m.insert(grid(b), b)),
        !m.contains_key(grid(b)),
{
    let after = m.insert(grid(b), b);
    lemma_held_iff_equivalent(m, b);
    assert(representations(b)[0] == grid(b));
    assert forall|j: Seq<char>, k: Seq<char>|
        after.contains_key(j) && after.contains_key(k) && j != k implies !equivalent(
        #[trigger] after[j],
        #[trigger] after[k],
    ) by {
        if j == grid(b) {
            if equivalent(b, m[k]) {
                lemma_equivalent_symmetric(b, m[k]);
            }
        } else if k == grid(b) {
        }
    }
}

/// The representatives of `s` are boards of `s` on which the game has ended,
/// no two of them are symmetric forms of each other, and each board of `s` on
/// which the game has ended has a symmetric form among them.
pub proof fn lemma_representatives(s: Seq<Board>)
    ensures
        forall|i: int|
            0 <= i < representatives(s).len() ==> terminal(#[trigger] representatives(s)[i])
                && s.contains(representatives(s)[i]),
        forall|i: int, j: int|
            0 <= i < j < representatives(s).len() ==> !equivalent(
                #[trigger] representatives(s)[i],
                #[trigger] representatives(s)[j],
            ) && !equivalent(representatives(s)[j], representatives(s)[i]),
        forall|n: int|
            0 <= n < s.len() && terminal(#[trigger] s[n]) ==> lists_form_of(
                representatives(s),
                s[n],
            ),
{
    assert forall|i: int| 0 <= i < representatives(s).len() implies terminal(
        #[trigger] representatives(s)[i],
    ) && s.contains(representatives(s)[i]) by {
        lemma_representatives_are_final(s, i);
    }
    assert forall|i: int, j: int| 0 <= i < j < representatives(s).len() implies !equivalent(
        #[trigger] representatives(s)[i],
        #[trigger] representatives(s)[j],
    ) && !equivalent(representatives(s)[j], representatives(s)[i]) by {
        lemma_representatives_distinct(s, i, j);
    }
    assert forall|n: int| 0 <= n < s.len() && terminal(#[trigger] s[n]) implies lists_form_of(
        representatives(s),
        s[n],
    ) by {
        lemma_representatives_cover(s, n);
    }
}

/// No two of the representatives are symmetric forms of each other.
pub proof fn lemma_representatives_distinct(s: Seq<Board>, i: int, j: int)
    requires
        0 <= i < j < representatives(s).len(),
    ensures
        !equivalent(representatives(s)[i], representatives(s)[j]),
        !equivalent(representatives(s)[j], representatives(s)[i]),
    decreases s.len(),
{
    let kept = representatives(s.drop_last());
    if j < kept.len() {
        lemma_representatives_distinct(s.drop_last(), i, j);
    } else {
        if equivalent(kept[i], s.last()) {
            lemma_equivalent_symmetric(kept[i], s.last());
        }
    }
}

/// Each representative is a board of `s` on which the game has ended.
pub proof fn lemma_representatives_are_final(s: Seq<Board>, i: int)
    requires
        0 <= i < representatives(s).len(),
    ensures
        terminal(representatives(s)[i]),
        s.contains(representatives(s)[i]),
    decreases s.len(),
{
    let kept = representatives(s.drop_last());
    if i < kept.len() {
        lemma_representatives_are_final(s.drop_last(), i);
        let n = choose|n: int| 0 <= n < s.drop_last().len() && s.drop_last()[n] == kept[i];
        assert(s[n] == kept[i]);
    } else {
        assert(s[s.len() - 1] == representatives(s)[i]);
    }
}

/// Each board of `s` on which the game has ended has a symmetric form among
/// the representatives.
pub proof fn lemma_representatives_cover(s: Seq<Board>, n: int)
    requires
        0 <= n < s.len(),
        terminal(s[n]),
    ensures
        lists_form_of(representatives(s), s[n]),
    decreases s.len(),
{
    let kept = representatives(s.drop_last());
    let all = representatives(s);
    if n < s.len() - 1 {
        lemma_representatives_cover(s.drop_last(), n);
        let j = choose|j: int| 0 <= j < kept.len() && equivalent(s[n], #[trigger] kept[j]);
        assert(equivalent(s[n], all[j]));
    } else if lists_form_of(kept, s.last()) {
        let j = choose|j: int| 0 <= j < kept.len() && equivalent(s[n], #[trigger] kept[j]);
        assert(equivalent(s[n], all[j]));
    } else {
        crate::symmetry::lemma_equivalent_reflexive(s[n]);
        assert(equivalent(s[n], all[all.len() - 1]));
    }
}

} // verus!
