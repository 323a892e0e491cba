//! Boards as text: what a printed board looks like, and what is taken for
//! granted of the strings that hold it.

use crate::board::Board;
use vstd::prelude::*;

verus! {

/// `String::push` of the standard library, which appends one character to
/// the end of a string: afterwards the string holds the characters it held
/// before, in their order, and then `ch`. Verus is told so and does not
/// check it.
pub assume_specification[ String::push ](s: &mut String, ch: char)
    ensures
        final(s)@ == old(s)@.push(ch),
;

/// Row `x` of a board as a line of text: a bar before each cell and after the
/// last, then a line feed. An empty cell shows as a blank.
pub open spec fn rendered_row(b: Board, x: int) -> Seq<char> {
    seq!['|', b[x][0], '|', b[x][1], '|', b[x][2], '|', '\n']
}

/// A board as three lines of text, one for each row from the top.
pub open spec fn rendered(b: Board) -> Seq<char> {
    rendered_row(b, 0) + rendered_row(b, 1) + rendered_row(b, 2)
}

} // verus!
