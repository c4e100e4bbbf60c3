//! A sudoku game: puzzle generation, solving and the rules of play.

pub mod game;
pub mod grid;
pub mod laws;
pub mod random;
pub mod sudoku;
pub mod text;
