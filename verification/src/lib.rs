//! Bitboards for a chess board: 64-bit sets of squares, masks for files,
//! ranks and diagonals, and attack sets for the knight, king and pawns.
//!
//! Squares, files and ranks are 0-based: a1 = 0 … h8 = 63, file a = 0 … h = 7,
//! rank 1 = 0 … rank 8 = 7, so `sq = rank * 8 + file`.

pub mod bits;
pub mod squares;
pub mod bitboard;
pub mod color;
pub mod masks;
pub mod attacks;
