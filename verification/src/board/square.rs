use vstd::prelude::*;
use vstd::string::*;
use crate::board::color::Color;
use crate::board::piece::Piece;

verus! {

/// One square of the board: empty, or holding a piece.
#[derive(Debug, Copy, Clone, PartialEq, Eq, Hash, Structural)]
pub enum Square {
    Occupied(Piece),
    Empty,
}

impl Square {
    /// Whether the square holds a piece of the given color.
    pub open spec fn holds_color(self, color: Color) -> bool {
        self matches Square::Occupied(p) && p.0 == color
    }

    /// The characters that draw this square in a board diagram.
    pub open spec fn glyph(self) -> Seq<char> {
        match self {
            Square::Empty => seq![' '],
            Square::Occupied(piece) => piece.glyph(),
        }
    }

    /// Whether no piece stands on the square.
    pub fn is_empty(&self) -> (r: bool)
        ensures
            r == (*self == Square::Empty),
    {
        match self {
            Square::Empty => true,
            Square::Occupied(_) => false,
        }
    }

    /// Whether exactly the given piece stands on the square.
    pub fn is_occupied_by(&self, piece: Piece) -> (r: bool)
        ensures
            r == (*self == Square::Occupied(piece)),
    {
        match self {
            Square::Occupied(my_piece) => piece == *my_piece,
            Square::Empty => false,
        }
    }

    /// The square's glyph as text: a blank for an empty square.
    pub fn to_string(&self) -> (s: String)
        ensures
            s@ == self.glyph(),
    {
        match self {
            Square::Empty => {
                proof {
                    reveal_strlit(" ");
                }
                let s = String::from_str(" ");
                s
            },
            Square::Occupied(piece) => piece.to_string(),
        }
    }
}

} // verus!
