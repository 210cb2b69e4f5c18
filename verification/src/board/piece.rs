use vstd::prelude::*;
use vstd::string::*;
use crate::board::color::Color;
use crate::board::kind::Kind;

verus! {

/// A piece: its color and its kind.
#[derive(Debug, Copy, Clone, PartialEq, Eq, Hash, Structural)]
pub struct Piece(pub Color, pub Kind);

impl Piece {
    /// The characters that draw this piece in a board diagram. Every piece
    /// is one character, except the black pawn, which carries a variation
    /// selector behind it.
    pub open spec fn glyph(self) -> Seq<char> {
        match self {
            Piece(Color::White, Kind::Rook) => seq!['\u{2656}'],
            Piece(Color::White, Kind::Knight) => seq!['\u{2658}'],
            Piece(Color::White, Kind::Bishop) => seq!['\u{2657}'],
            Piece(Color::White, Kind::Queen) => seq!['\u{2655}'],
            Piece(Color::White, Kind::King) => seq!['\u{2654}'],
            Piece(Color::White, Kind::Pawn) => seq!['\u{2659}'],
            Piece(Color::Black, Kind::Rook) => seq!['\u{265c}'],
            Piece(Color::Black, Kind::Knight) => seq!['\u{265e}'],
            Piece(Color::Black, Kind::Bishop) => seq!['\u{265d}'],
            Piece(Color::Black, Kind::Queen) => seq!['\u{265b}'],
            Piece(Color::Black, Kind::King) => seq!['\u{265a}'],
            Piece(Color::Black, Kind::Pawn) => seq!['\u{265f}', '\u{fe0e}'],
        }
    }

    /// The piece's glyph as text.
    pub fn to_string(&self) -> (s: String)
        ensures
            s@ == self.glyph(),
    {
        proof {
            reveal_strlit("\u{2656}");
            reveal_strlit("\u{2658}");
            reveal_strlit("\u{2657}");
            reveal_strlit("\u{2655}");
            reveal_strlit("\u{2654}");
            reveal_strlit("\u{2659}");
            reveal_strlit("\u{265c}");
            reveal_strlit("\u{265e}");
            reveal_strlit("\u{265d}");
            reveal_strlit("\u{265b}");
            reveal_strlit("\u{265a}");
            reveal_strlit("\u{265f}\u{fe0e}");
        }
        let text = match *self {
            Piece(Color::White, Kind::Rook) => "\u{2656}",
            Piece(Color::White, Kind::Knight) => "\u{2658}",
            Piece(Color::White, Kind::Bishop) => "\u{2657}",
            Piece(Color::White, Kind::Queen) => "\u{2655}",
            Piece(Color::White, Kind::King) => "\u{2654}",
            Piece(Color::White, Kind::Pawn) => "\u{2659}",
            Piece(Color::Black, Kind::Rook) => "\u{265c}",
            Piece(Color::Black, Kind::Knight) => "\u{265e}",
            Piece(Color::Black, Kind::Bishop) => "\u{265d}",
            Piece(Color::Black, Kind::Queen) => "\u{265b}",
            Piece(Color::Black, Kind::King) => "\u{265a}",
            Piece(Color::Black, Kind::Pawn) => "\u{265f}\u{fe0e}",
        };
        let s = String::from_str(text);
        s
    }
}

} // verus!
