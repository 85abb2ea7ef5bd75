//! Pseudo-legal chess move generation over an immutable position snapshot.
//!
//! The board model lives in [`board`], the per-piece-kind move generators and
//! the single dispatcher [`moves::get_move`] in [`moves`], and the textual
//! position parser behind [`board::Board::new`] in [`fen`].

pub mod board;
pub mod fen;
pub mod moves;
