use vstd::prelude::*;

verus! {

/// The six kinds of chess pieces.
#[derive(Debug, Copy, Clone, PartialEq, Eq, Hash, Structural)]
pub enum Kind {
    Rook,
    Knight,
    Bishop,
    Queen,
    King,
    Pawn,
}

} // verus!
