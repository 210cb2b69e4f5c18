use vstd::prelude::*;
use crate::board::board::{Board, BoardView};
use crate::board::color::Color;
use crate::board::coordinates::Coordinates;
use crate::board::kind::Kind;
use crate::board::piece::Piece;
use crate::board::square::Square;
use crate::engine::offsets::{
    all_nonzero,
    BISHOP_OFFSETS,
    KING_OFFSETS,
    KNIGHT_OFFSETS,
    ROOK_OFFSETS,
};

verus! {

/// Whether the given piece stands at the given offset from a square.
pub open spec fn piece_at_offset(
    b: BoardView,
    c: Coordinates,
    file_offset: int,
    rank_offset: int,
    piece: Piece,
) -> bool {
    match c.shifted(file_offset, rank_offset) {
        Some(n) => b.at(n) == Square::Occupied(piece),
        None => false,
    }
}

/// Whether the given piece stands at one of a table's offsets from a square.
pub open spec fn piece_at_some_offset(
    b: BoardView,
    c: Coordinates,
    table: Seq<(i8, i8)>,
    piece: Piece,
) -> bool {
    exists|i: int|
        0 <= i < table.len() && #[trigger] piece_at_offset(
            b,
            c,
            table[i].0 as int,
            table[i].1 as int,
            piece,
        )
}

/// Whether the first piece met along a path is of the given color and of
/// one of the two given kinds: it stands on the path, and every square of
/// the path before it is empty.
pub open spec fn first_piece_is(
    b: BoardView,
    path: Seq<Coordinates>,
    color: Color,
    kind: Kind,
    other_kind: Kind,
) -> bool {
    exists|i: int|
        0 <= i < path.len() && #[trigger] attacker_at(b, path[i], color, kind, other_kind)
            && forall|j: int| 0 <= j < i ==> b.at(#[trigger] path[j]) == Square::Empty
}

/// Whether a piece of the given color and of one of the two given kinds
/// stands on a square.
pub open spec fn attacker_at(
    b: BoardView,
    c: Coordinates,
    color: Color,
    kind: Kind,
    other_kind: Kind,
) -> bool {
    b.at(c) == Square::Occupied(Piece(color, kind)) || b.at(c) == Square::Occupied(
        Piece(color, other_kind),
    )
}

/// Whether the first piece met along the ray from a square in the given
/// direction is the given color's queen or its piece of the given kind.
pub open spec fn slider_on_ray(
    b: BoardView,
    c: Coordinates,
    file_offset: int,
    rank_offset: int,
    color: Color,
    kind: Kind,
) -> bool {
    first_piece_is(b, c.ray(file_offset, rank_offset), color, kind, Kind::Queen)
}

/// Whether along one of a table's directions the first piece met from a
/// square is the given color's queen or its piece of the given kind.
pub open spec fn slider_on_some_ray(
    b: BoardView,
    c: Coordinates,
    table: Seq<(i8, i8)>,
    color: Color,
    kind: Kind,
) -> bool {
    exists|i: int|
        0 <= i < table.len() && #[trigger] slider_on_ray(
            b,
            c,
            table[i].0 as int,
            table[i].1 as int,
            color,
            kind,
        )
}

/// Whether a pawn of the given color attacks a square: it stands one file
/// to the side and one rank behind the square, seen in the direction in
/// which the color's pawns advance.
pub open spec fn pawn_threat(b: BoardView, c: Coordinates, color: Color) -> bool {
    piece_at_offset(b, c, -1, -color.sign(), Piece(color, Kind::Pawn)) || piece_at_offset(
        b,
        c,
        1,
        -color.sign(),
        Piece(color, Kind::Pawn),
    )
}

/// Whether some piece of the given color attacks a square: a king next to
/// it, a bishop or queen first on a diagonal, a rook or queen first on the
/// rank or file, a knight a jump away, or a pawn.
pub open spec fn threatened(b: BoardView, c: Coordinates, color: Color) -> bool {
    ||| piece_at_some_offset(b, c, KING_OFFSETS@, Piece(color, Kind::King))
    ||| slider_on_some_ray(b, c, BISHOP_OFFSETS@, color, Kind::Bishop)
    ||| slider_on_some_ray(b, c, ROOK_OFFSETS@, color, Kind::Rook)
    ||| piece_at_some_offset(b, c, KNIGHT_OFFSETS@, Piece(color, Kind::Knight))
    ||| pawn_threat(b, c, color)
}

/// Whether the given color's king stands on the square with the given
/// flat index.
pub open spec fn king_at(b: BoardView, index: int, color: Color) -> bool {
    b.squares[index] == Square::Occupied(Piece(color, Kind::King))
}

/// Whether a side is in check: its king, the first in index order should
/// there be several, stands on a square that the other side attacks. A
/// side without a king is not in check.
pub open spec fn in_check(b: BoardView, color: Color) -> bool {
    exists|i: int|
        0 <= i < 64 && #[trigger] king_at(b, i, color) && (forall|j: int|
            0 <= j < i ==> !#[trigger] king_at(b, j, color)) && threatened(
            b,
            Coordinates::from_flat(i),
            color.other(),
        )
}

/// Whether a board holds nothing but one piece on one square.
pub open spec fn lone_piece(b: BoardView, place: Coordinates, piece: Piece) -> bool {
    &&& b.wf()
    &&& b.at(place) == Square::Occupied(piece)
    &&& forall|c: Coordinates| c != place ==> b.at(c) == Square::Empty
}

/// A pawn alone on the board attacks exactly the two squares diagonally
/// before it, seen in the direction in which its color advances, and it
/// attacks them for its own color only.
pub proof fn lemma_lone_pawn_threat(
    b: BoardView,
    place: Coordinates,
    owner: Color,
    target: Coordinates,
    by: Color,
)
    requires
        lone_piece(b, place, Piece(owner, Kind::Pawn)),
    ensures
        threatened(b, target, by) <==> (by == owner && (place.shifted(-1, owner.sign()) == Some(
            target,
        ) || place.shifted(1, owner.sign()) == Some(target))),
{
    place.lemma_flat();
    target.lemma_flat();
    assert forall|c: Coordinates, piece: Piece| piece.1 != Kind::Pawn implies b.at(c)
        != Square::Occupied(piece) by {
        if c != place {
            assert(b.at(c) == Square::Empty);
        }
    }
    assert(!piece_at_some_offset(b, target, KNIGHT_OFFSETS@, Piece(by, Kind::Knight)));
    let left = target.shifted(-1, -by.sign());
    let right = target.shifted(1, -by.sign());
    if let Some(n) = left {
        n.lemma_flat();
        Coordinates::lemma_at(target.file.ordinal() - 1, target.rank.ordinal() - by.sign());
        if n != place {
            assert(b.at(n) == Square::Empty);
        }
    }
    if let Some(n) = right {
        n.lemma_flat();
        Coordinates::lemma_at(target.file.ordinal() + 1, target.rank.ordinal() - by.sign());
        if n != place {
            assert(b.at(n) == Square::Empty);
        }
    }
    if let Some(n) = place.shifted(-1, owner.sign()) {
        n.lemma_flat();
        Coordinates::lemma_at(place.file.ordinal() - 1, place.rank.ordinal() + owner.sign());
    }
    if let Some(n) = place.shifted(1, owner.sign()) {
        n.lemma_flat();
        Coordinates::lemma_at(place.file.ordinal() + 1, place.rank.ordinal() + owner.sign());
    }
}

/// A piece on a path hides what stands behind it: if the first piece
/// met along a path is not an attacker, then no attacker is the first
/// piece met, whatever stands further along the path and whatever the
/// color of the piece in the way.
pub proof fn lemma_blocked_path(
    b: BoardView,
    path: Seq<Coordinates>,
    blocker: int,
    color: Color,
    kind: Kind,
    other_kind: Kind,
)
    requires
        0 <= blocker < path.len(),
        b.at(path[blocker]) != Square::Empty,
        !attacker_at(b, path[blocker], color, kind, other_kind),
        forall|j: int| 0 <= j < blocker ==> b.at(#[trigger] path[j]) == Square::Empty,
    ensures
        !first_piece_is(b, path, color, kind, other_kind),
{
    assert forall|i: int|
        0 <= i < path.len() && #[trigger] attacker_at(
            b,
            path[i],
            color,
            kind,
            other_kind,
        ) implies !(forall|j: int| 0 <= j < i ==> b.at(#[trigger] path[j])
        == Square::Empty) by {
        if i > blocker {
            assert(b.at(path[blocker]) != Square::Empty);
        }
    }
}

/// An attacker with nothing before it on a path is the first piece met
/// there.
pub proof fn lemma_open_path(
    b: BoardView,
    path: Seq<Coordinates>,
    attacker: int,
    color: Color,
    kind: Kind,
    other_kind: Kind,
)
    requires
        0 <= attacker < path.len(),
        attacker_at(b, path[attacker], color, kind, other_kind),
        forall|j: int| 0 <= j < attacker ==> b.at(#[trigger] path[j]) == Square::Empty,
    ensures
        first_piece_is(b, path, color, kind, other_kind),
{
}

/// A side without a king is not in check.
pub proof fn lemma_no_king_no_check(b: BoardView, color: Color)
    requires
        forall|i: int| 0 <= i < 64 ==> !king_at(b, i, color),
    ensures
        !in_check(b, color),
{
}

/// Whether the given piece stands at one of a table's offsets from a square.
fn stands_at_offsets(board: &Board, c: Coordinates, table: &[(i8, i8)], piece: Piece) -> (r: bool)
    ensures
        r == piece_at_some_offset(board@, c, table@, piece),
{
    let mut i: usize = 0;
    while i < table.len()
        invariant
            i <= table.len(),
            forall|k: int|
                0 <= k < i ==> !#[trigger] piece_at_offset(
                    board@,
                    c,
                    table@[k].0 as int,
                    table@[k].1 as int,
                    piece,
                ),
        decreases table.len() - i,
    {
        let (file_offset, rank_offset) = table[i];
        if let Some(n) = c.offset(file_offset, rank_offset) {
            if board.get_square(n).is_occupied_by(piece) {
                assert(piece_at_offset(
                    board@,
                    c,
                    table@[i as int].0 as int,
                    table@[i as int].1 as int,
                    piece,
                ));
                return true;
            }
        }
        i = i + 1;
    }
    false
}

/// Whether the first piece met along the ray from a square in the given
/// direction is the given color's queen or its piece of the given kind.
fn slides_along(
    board: &Board,
    c: Coordinates,
    file_offset: i8,
    rank_offset: i8,
    color: Color,
    kind: Kind,
) -> (r: bool)
    requires
        file_offset != 0 || rank_offset != 0,
    ensures
        r == slider_on_ray(board@, c, file_offset as int, rank_offset as int, color, kind),
{
    let path = c.offsets_repeated(file_offset, rank_offset);
    let mut i: usize = 0;
    while i < path.len()
        invariant
            i <= path.len(),
            path@ == c.ray(file_offset as int, rank_offset as int),
            forall|j: int| 0 <= j < i ==> board@.at(#[trigger] path@[j]) == Square::Empty,
        decreases path.len() - i,
    {
        let square = board.get_square(path[i]);
        if square.is_occupied_by(Piece(color, kind)) || square.is_occupied_by(
            Piece(color, Kind::Queen),
        ) {
            assert(attacker_at(board@, path@[i as int], color, kind, Kind::Queen));
            return true;
        }
        if !square.is_empty() {
            assert forall|k: int| 0 <= k < path@.len() && #[trigger] attacker_at(
                board@,
                path@[k],
                color,
                kind,
                Kind::Queen,
            ) implies !(forall|j: int| 0 <= j < k ==> board@.at(#[trigger] path@[j])
                == Square::Empty) by {
                if k > i {
                    assert(board@.at(path@[i as int]) != Square::Empty);
                }
            }
            return false;
        }
        i = i + 1;
    }
    false
}

/// Whether along one of a table's directions the first piece met from a
/// square is the given color's queen or its piece of the given kind.
fn slides_along_some(
    board: &Board,
    c: Coordinates,
    table: &[(i8, i8)],
    color: Color,
    kind: Kind,
) -> (r: bool)
    requires
        all_nonzero(table@),
    ensures
        r == slider_on_some_ray(board@, c, table@, color, kind),
{
    let mut i: usize = 0;
    while i < table.len()
        invariant
            i <= table.len(),
            all_nonzero(table@),
            forall|k: int|
                0 <= k < i ==> !#[trigger] slider_on_ray(
                    board@,
                    c,
                    table@[k].0 as int,
                    table@[k].1 as int,
                    color,
                    kind,
                ),
        decreases table.len() - i,
    {
        let (file_offset, rank_offset) = table[i];
        if slides_along(board, c, file_offset, rank_offset, color, kind) {
            return true;
        }
        i = i + 1;
    }
    false
}

/// Whether some piece of the given color attacks the given square.
pub fn is_threatened_by(board: &Board, coordinates: Coordinates, color: Color) -> (r: bool)
    ensures
        r == threatened(board@, coordinates, color),
{
    if stands_at_offsets(board, coordinates, &KING_OFFSETS, Piece(color, Kind::King)) {
        return true;
    }
    if slides_along_some(board, coordinates, &BISHOP_OFFSETS, color, Kind::Bishop) {
        return true;
    }
    if slides_along_some(board, coordinates, &ROOK_OFFSETS, color, Kind::Rook) {
        return true;
    }
    if stands_at_offsets(board, coordinates, &KNIGHT_OFFSETS, Piece(color, Kind::Knight)) {
        return true;
    }
    let behind: i8 = match color {
        Color::White => -1,
        Color::Black => 1,
    };
    let pawn = Piece(color, Kind::Pawn);
    if let Some(n) = coordinates.offset(-1, behind) {
        if board.get_square(n).is_occupied_by(pawn) {
            return true;
        }
    }
    if let Some(n) = coordinates.offset(1, behind) {
        if board.get_square(n).is_occupied_by(pawn) {
            return true;
        }
    }
    false
}

/// Whether the given side is in check. A side without a king is not.
pub fn is_checked(board: &Board, color: Color) -> (r: bool)
    ensures
        r == in_check(board@, color),
{
    let king = Piece(color, Kind::King);
    let squares = board.squares();
    let mut i: usize = 0;
    while i < 64
        invariant
            i <= 64,
            king == Piece(color, Kind::King),
            squares@ == board@.squares,
            squares@.len() == 64,
            forall|j: int| 0 <= j < i ==> !#[trigger] king_at(board@, j, color),
        decreases 64 - i,
    {
        if squares[i].is_occupied_by(king) {
            assert(king_at(board@, i as int, color));
            let king_coordinates = Coordinates::new_from_index(i).unwrap();
            let r = is_threatened_by(board, king_coordinates, color.opposite());
            assert(r == in_check(board@, color)) by {
                if in_check(board@, color) {
                    let w = choose|w: int|
                        0 <= w < 64 && #[trigger] king_at(board@, w, color) && (forall|j: int|
                            0 <= j < w ==> !#[trigger] king_at(board@, j, color)) && threatened(
                            board@,
                            Coordinates::from_flat(w),
                            color.other(),
                        );
                }
            }
            return r;
        }
        i = i + 1;
    }
    false
}

} // verus!
