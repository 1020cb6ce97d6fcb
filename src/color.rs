use vstd::prelude::*;

verus! {

/// The colour of a stone.
#[derive(Clone, Copy, Debug, PartialEq, Eq, Structural)]
pub enum Color {
    Black,
    White,
}

impl Color {
    /// The colour of the other player.
    pub open spec fn opposite_spec(self) -> Color {
        match self {
            Color::Black => Color::White,
            Color::White => Color::Black,
        }
    }

    /// Returns the colour of the other player.
    pub fn opposite(self) -> (r: Color)
        ensures
            r == self.opposite_spec(),
            r != self,
    {
        match self {
            Color::Black => Color::White,
            Color::White => Color::Black,
        }
    }

    /// Row of this colour in the Zobrist table.
    pub open spec fn index_spec(self) -> nat {
        match self {
            Color::Black => 0,
            Color::White => 1,
        }
    }

    /// Returns the row of this colour in the Zobrist table.
    pub fn index(self) -> (r: usize)
        ensures
            r == self.index_spec(),
    {
        match self {
            Color::Black => 0,
            Color::White => 1,
        }
    }
}

} // verus!
