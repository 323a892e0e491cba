//! What a board can be asked: whether the game is over on it, how it looks
//! turned or mirrored, and which keys stand for it.

use crate::board::{cell, grid, lemma_boards_equal, Board, EMPTY};
use crate::symmetry::{representations, rotated, symmetry, transposed};
use crate::terminal::{column_complete, has_line, row_complete, terminal};
use crate::text::{rendered, rendered_row};
use vstd::prelude::*;
use vstd::string::StringExecFns;

verus! {

/// The keys of the eight symmetric forms of one board.
pub type Representations = [String; 8];

/// The questions a board answers. `Board` is the one type that has them; the
/// contracts stand with its methods below.
pub trait BoardMethods {
    /// The board as text, one line for each row.
    fn display(&self) -> String;

    /// Whether the game has ended.
    fn is_terminal(&self) -> bool;

    /// The key of the board.
    fn representation(&self) -> String;

    /// The keys of the eight symmetric forms of the board.
    fn all_representations(&self) -> Representations;

    /// The board turned by a quarter.
    fn rotate(&self) -> Board;

    /// The board mirrored in its main diagonal.
    fn transpose(&self) -> Board;
}

impl BoardMethods for Board {
    /// The board as three lines of text, each made of a bar before every
    /// cell, a bar after the last, and a line feed.
    fn display(&self) -> (s: String)
        ensures
            s@ == rendered(*self),
    {
        let mut s = String::new();
        for x in 0..3usize
            invariant
                x == 0 ==> s@ == Seq::<char>::empty(),
                x == 1 ==> s@ == rendered_row(*self, 0),
                x == 2 ==> s@ == rendered_row(*self, 0) + rendered_row(*self, 1),
                x == 3 ==> s@ == rendered(*self),
        {
            let ghost before = s@;
            for y in 0..3usize
                invariant
                    0 <= x < 3,
                    y == 0 ==> s@ == before,
                    y == 1 ==> s@ == before + seq!['|', self[x as int][0]],
                    y == 2 ==> s@ == before + seq!['|', self[x as int][0], '|', self[x as int][1]],
                    y == 3 ==> s@ == before + seq![
                        '|',
                        self[x as int][0],
                        '|',
                        self[x as int][1],
                        '|',
                        self[x as int][2],
                    ],
            {
                s.push('|');
                s.push(self[x][y]);
            }
            proof {
                reveal_strlit("|\n");
            }
            s.append("|\n");
            assert(s@ == before + rendered_row(*self, x as int));
        }
        s
    }

    /// Whether the game has ended on this board: one of the three rows, the
    /// three columns or the two diagonals holds three equal marks, or no
    /// cell is empty.
    fn is_terminal(&self) -> (r: bool)
        ensures
            r == terminal(*self),
    {
        for i in 0..3usize
            invariant
                forall|j: int| 0 <= j < i ==> !row_complete(*self, j) && !column_complete(*self, j),
        {
            if self[i][0] != EMPTY && self[i][0] == self[i][1] && self[i][1] == self[i][2] {
                assert(row_complete(*self, i as int));
                return true;
            }
            if self[0][i] != EMPTY && self[0][i] == self[1][i] && self[1][i] == self[2][i] {
                assert(column_complete(*self, i as int));
                return true;
            }
        }
        if self[0][0] != EMPTY && self[0][0] == self[1][1] && self[1][1] == self[2][2] {
            return true;
        }
        if self[0][2] != EMPTY && self[0][2] == self[1][1] && self[1][1] == self[2][0] {
            return true;
        }
        assert(!has_line(*self));
        for x in 0..3usize
            invariant
                !has_line(*self),
                forall|i: int, j: int| 0 <= i < x && 0 <= j < 3 ==> self[i][j] != EMPTY,
        {
            for y in 0..3usize
                invariant
                    0 <= x < 3,
                    !has_line(*self),
                    forall|i: int, j: int| 0 <= i < x && 0 <= j < 3 ==> self[i][j] != EMPTY,
                    forall|j: int| 0 <= j < y ==> self[x as int][j] != EMPTY,
            {
                if self[x][y] == EMPTY {
                    return false;
                }
            }
        }
        true
    }

    /// The key of the board: its nine cells in row-major order. Two boards
    /// have the same key only if they are the same board.
    fn representation(&self) -> (s: String)
        ensures
            s@ == grid(*self),
    {
        let mut s = String::new();
        for x in 0..3usize
            invariant
                s@ == grid(*self).take(3 * x),
        {
            for y in 0..3usize
                invariant
                    0 <= x < 3,
                    s@ == grid(*self).take(3 * x + y),
            {
                s.push(self[x][y]);
                assert(cell(*self, 3 * x + y) == self[x as int][y as int]);
                assert(grid(*self).take(3 * x + y + 1) == grid(*self).take(3 * x + y).push(
                    grid(*self)[3 * x + y],
                ));
            }
        }
        assert(grid(*self).take(9) == grid(*self));
        s
    }

    /// The keys of the eight symmetric forms of the board: of the board
    /// turned by no, one, two and three quarters, each followed by the key of
    /// its transpose. A board that a symmetry maps to itself gives some key
    /// more than once.
    fn all_representations(&self) -> (r: Representations)
        ensures
            forall|i: int| 0 <= i < 8 ==> r[i]@ == #[trigger] representations(*self)[i],
    {
        let r0 = self.representation();
        let r1 = self.transpose().representation();
        let mut b = self.rotate();
        let r2 = b.representation();
        let r3 = b.transpose().representation();
        b = b.rotate();
        let r4 = b.representation();
        let r5 = b.transpose().representation();
        b = b.rotate();
        let r6 = b.representation();
        let r7 = b.transpose().representation();
        let r = [r0, r1, r2, r3, r4, r5, r6, r7];
        assert(r[0]@ == grid(symmetry(*self, 0)));
        assert(r[1]@ == grid(symmetry(*self, 1)));
        assert(r[2]@ == grid(symmetry(*self, 2)));
        assert(r[3]@ == grid(symmetry(*self, 3)));
        assert(r[4]@ == grid(symmetry(*self, 4)));
        assert(r[5]@ == grid(symmetry(*self, 5)));
        assert(r[6]@ == grid(symmetry(*self, 6)));
        assert(r[7]@ == grid(symmetry(*self, 7)));
        r
    }

    /// The board turned by a quarter: cell `(x, y)` of the result is cell
    /// `(2 - y, x)` of this board.
    fn rotate(&self) -> (r: Board)
        ensures
            r == rotated(*self),
            forall|x: int, y: int| 0 <= x < 3 && 0 <= y < 3 ==> r[x][y] == self[2 - y][x],
    {
        let mut b = [[EMPTY; 3]; 3];
        for x in 0..3usize
            invariant
                forall|i: int, j: int| 0 <= i < x && 0 <= j < 3 ==> b[i][j] == self[2 - j][i],
        {
            for y in 0..3usize
                invariant
                    0 <= x < 3,
                    forall|i: int, j: int| 0 <= i < x && 0 <= j < 3 ==> b[i][j] == self[2 - j][i],
                    forall|j: int| 0 <= j < y ==> b[x as int][j] == self[2 - j][x as int],
            {
                b[x][y] = self[3 - y - 1][x];
            }
        }
        proof {
            crate::symmetry::lemma_rotated_cells(*self);
            lemma_boards_equal(b, rotated(*self));
        }
        b
    }

    /// The board mirrored in its main diagonal: cell `(y, x)` of the result
    /// is cell `(x, y)` of this board.
    fn transpose(&self) -> (r: Board)
        ensures
            r == transposed(*self),
            forall|x: int, y: int| 0 <= x < 3 && 0 <= y < 3 ==> r[y][x] == self[x][y],
    {
        let mut b = [[EMPTY; 3]; 3];
        for x in 0..3usize
            invariant
                forall|i: int, j: int| 0 <= i < x && 0 <= j < 3 ==> b[j][i] == self[i][j],
        {
            for y in 0..3usize
                invariant
                    0 <= x < 3,
                    forall|i: int, j: int| 0 <= i < x && 0 <= j < 3 ==> b[j][i] == self[i][j],
                    forall|j: int| 0 <= j < y ==> b[j][x as int] == self[x as int][j],
            {
                b[y][x] = self[x][y];
            }
        }
        proof {
            crate::symmetry::lemma_transposed_cells(*self);
            lemma_boards_equal(b, transposed(*self));
        }
        b
    }
}

} // verus!
