//! Bitboard board representation for a chess engine, with a FEN decoder that
//! rebuilds the board from a textual position.
pub mod bits;
pub mod board;
pub mod defs;
pub mod display;
pub mod fen;
pub mod parse;
pub mod state;
