use vstd::prelude::*;

verus! {

/// The steps of a rook, as (file, rank) offsets.
pub const ROOK_OFFSETS: [(i8, i8); 4] = [(0, -1), (0, 1), (-1, 0), (1, 0)];

/// The jumps of a knight, as (file, rank) offsets.
pub const KNIGHT_OFFSETS: [(i8, i8); 8] = [
    (-2, -1),
    (-2, 1),
    (-1, -2),
    (-1, 2),
    (1, -2),
    (1, 2),
    (2, -1),
    (2, 1),
];

/// The steps of a bishop, as (file, rank) offsets.
pub const BISHOP_OFFSETS: [(i8, i8); 4] = [(-1, -1), (1, -1), (-1, 1), (1, 1)];

/// The steps of a king, as (file, rank) offsets.
pub const KING_OFFSETS: [(i8, i8); 8] = [
    (-1, -1),
    (-1, 0),
    (-1, 1),
    (0, -1),
    (0, 1),
    (1, -1),
    (1, 0),
    (1, 1),
];

/// Whether every offset of a table moves away from the square it starts on.
pub open spec fn all_nonzero(table: Seq<(i8, i8)>) -> bool {
    forall|i: int| 0 <= i < table.len() ==> (#[trigger] table[i]).0 != 0 || table[i].1 != 0
}

} // verus!
