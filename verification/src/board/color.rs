use vstd::prelude::*;

verus! {

/// The two sides of a game.
#[derive(Debug, Copy, Clone, PartialEq, Eq, Hash, Structural)]
pub enum Color {
    White,
    Black,
}

impl Color {
    /// The other side, as a mathematical function.
    pub open spec fn other(self) -> Color {
        match self {
            Color::White => Color::Black,
            Color::Black => Color::White,
        }
    }

    /// +1 for White and -1 for Black: the rank direction in which the
    /// side's pawns advance, and the sign of its material.
    pub open spec fn sign(self) -> int {
        match self {
            Color::White => 1,
            Color::Black => -1,
        }
    }

    /// The other side.
    pub fn opposite(&self) -> (r: Color)
        ensures
            r == self.other(),
            r != *self,
    {
        if *self == Color::White {
            Color::Black
        } else {
            Color::White
        }
    }

    /// Taking the opposite twice gives the side back.
    pub proof fn lemma_opposite_involution(self)
        ensures
            self.other().other() == self,
            self.other() != self,
    {
    }
}

} // verus!
