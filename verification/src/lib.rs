//! Every way a game of tic-tac-toe can end, up to the rotations and
//! reflections of the square.
//!
//! [`all_boards`] walks the whole game tree from a board, [`BoardMethods`]
//! tells of a board whether the game is over on it and gives its symmetric
//! forms and their keys, and [`terminal_boards`] keeps one final board for
//! each class of boards that the symmetries of the square turn into one
//! another.
//!
//! The modules `board`, `terminal`, `symmetry`, `generate` and `registry`
//! hold what these functions compute and the laws of it. The modules
//! `positions`, `packed` and `census` hold the proof that the classes are
//! 138: which boards play can come to, a census with one entry for each
//! class, and the match between the census and what `terminal_boards` keeps.

pub mod board;
pub mod census;
pub mod generate;
pub mod methods;
pub mod packed;
pub mod positions;
pub mod registry;
pub mod symmetry;
pub mod terminal;
pub mod text;

pub use crate::board::{Board, EMPTY, O, X};
pub use crate::generate::all_boards;
pub use crate::methods::{BoardMethods, Representations};
pub use crate::registry::{terminal_boards, Boards, BoardsMethods};
