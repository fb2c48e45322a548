//! The two sides of the game.

use vstd::prelude::*;

verus! {

/// A side: White moves up the board (towards rank 8), Black moves down.
/// `color as usize` is 0 for White and 1 for Black, handy as a table index.
#[derive(Clone, Copy, PartialEq, Eq, Structural, Debug)]
pub enum Color {
    White,
    Black,
}

/// The direction a side moves in, in ranks: +1 for White, -1 for Black.
pub open spec fn forward_of(color: Color) -> int {
    match color {
        Color::White => 1,
        Color::Black => -1,
    }
}

impl Color {
    /// +1 for White (moves up), -1 for Black (moves down).
    pub fn forward(self) -> (r: i8)
        ensures
            r == forward_of(self),
    {
        match self {
            Color::White => 1,
            Color::Black => -1,
        }
    }
}

} // verus!
