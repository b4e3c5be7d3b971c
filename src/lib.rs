//! Tic-tac-toe as an immutable game state, with legal-move generation and
//! exhaustive minimax scoring, verified against a model of the board.

pub mod board;
pub mod game;
pub mod laws;
pub mod text;

pub use board::{Cell, Side};
pub use game::{Depth, Game, ScoreError, TicTacToe};
pub use text::BoardError;
