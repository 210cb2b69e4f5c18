use vstd::prelude::*;
use crate::board::board::{Board, BoardView};
use crate::board::color::Color;
use crate::board::coordinates::Coordinates;
use crate::board::kind::Kind;
use crate::board::piece::Piece;
use crate::board::square::Square;

verus! {

/// The material value of a kind of piece.
pub open spec fn kind_value(kind: Kind) -> int {
    match kind {
        Kind::Pawn => 1,
        Kind::Knight => 3,
        Kind::Bishop => 3,
        Kind::Rook => 5,
        Kind::Queen => 9,
        Kind::King => 0,
    }
}

/// The material value of a piece: that of its kind, counted for White and
/// against Black.
pub open spec fn piece_value(piece: Piece) -> int {
    match piece.0 {
        Color::White => kind_value(piece.1),
        Color::Black => -kind_value(piece.1),
    }
}

/// What a square adds to the material balance.
pub open spec fn square_value(square: Square) -> int {
    match square {
        Square::Occupied(piece) => piece_value(piece),
        Square::Empty => 0,
    }
}

/// The material balance of the first `count` squares.
pub open spec fn material_of_first(squares: Seq<Square>, count: nat) -> int
    decreases count,
{
    if count == 0 {
        0
    } else {
        material_of_first(squares, (count - 1) as nat) + square_value(squares[count - 1])
    }
}

/// The material balance of a position: the sum of the values of all
/// pieces, White's counted positive and Black's negative.
pub open spec fn material(b: BoardView) -> int {
    material_of_first(b.squares, 64)
}

/// The material balance of any number of squares is at most nine points
/// a square, either way.
pub proof fn lemma_material_bound(squares: Seq<Square>, count: nat)
    ensures
        -9 * count <= material_of_first(squares, count) <= 9 * count,
    decreases count,
{
    if count > 0 {
        lemma_material_bound(squares, (count - 1) as nat);
    }
}

/// Replacing one square changes the balance of the squares by the
/// difference of the two values, where the square is among them.
pub proof fn lemma_material_update(squares: Seq<Square>, at: int, value: Square, count: nat)
    requires
        0 <= at < squares.len(),
        count <= squares.len(),
    ensures
        material_of_first(squares.update(at, value), count) == material_of_first(squares, count)
            + (if at < count {
            square_value(value) - square_value(squares[at])
        } else {
            0
        }),
    decreases count,
{
    if count > 0 {
        lemma_material_update(squares, at, value, (count - 1) as nat);
    }
}

/// Putting something on a square changes the material balance by what it
/// is worth, less what stood there before. Taking a piece off the board
/// thus costs its side the piece's value, and taking one of equal value
/// from each side leaves the balance as it was.
pub proof fn lemma_material_put(b: BoardView, c: Coordinates, value: Square)
    requires
        b.wf(),
    ensures
        material(b.put(c, value)) == material(b) + square_value(value) - square_value(b.at(c)),
{
    c.lemma_flat();
    lemma_material_update(b.squares, c.flat(), value, 64);
}

/// The empty board is balanced.
pub proof fn lemma_material_empty()
    ensures
        material(BoardView::empty()) == 0,
{
    lemma_material_all_empty(BoardView::empty().squares, 64);
}

/// Empty squares add nothing to the balance.
pub proof fn lemma_material_all_empty(squares: Seq<Square>, count: nat)
    requires
        forall|i: int| 0 <= i < count ==> squares[i] == Square::Empty,
    ensures
        material_of_first(squares, count) == 0,
    decreases count,
{
    if count > 0 {
        lemma_material_all_empty(squares, (count - 1) as nat);
    }
}

/// The squares of a board with the colors of the pieces exchanged and
/// the ranks mirrored: what stands on a square comes from the square
/// opposite, and changes sides.
pub open spec fn mirrored(squares: Seq<Square>) -> Seq<Square> {
    Seq::new(
        64,
        |i: int|
            match squares[(7 - i / 8) * 8 + i % 8] {
                Square::Occupied(piece) => Square::Occupied(Piece(piece.0.other(), piece.1)),
                Square::Empty => Square::Empty,
            },
    )
}

/// The balance of one rank: of the eight squares from `start` on.
pub open spec fn rank_material(squares: Seq<Square>, start: int) -> int {
    square_value(squares[start]) + square_value(squares[start + 1]) + square_value(
        squares[start + 2],
    ) + square_value(squares[start + 3]) + square_value(squares[start + 4]) + square_value(
        squares[start + 5],
    ) + square_value(squares[start + 6]) + square_value(squares[start + 7])
}

/// The balance of the first ranks is the sum of the balances of each.
pub proof fn lemma_material_by_ranks(squares: Seq<Square>, ranks: nat)
    ensures
        material_of_first(squares, 8 * ranks) == material_of_first(
            squares,
            (8 * ranks - 8 * (if ranks > 0 {
                1int
            } else {
                0int
            })) as nat,
        ) + (if ranks > 0 {
            rank_material(squares, 8 * ranks - 8)
        } else {
            0
        }),
{
    if ranks > 0 {
        reveal_with_fuel(material_of_first, 9);
    }
}

/// A position that is its own mirror image with the colors exchanged is
/// balanced. The starting position is such a position.
pub proof fn lemma_material_symmetric(b: BoardView)
    requires
        b.wf(),
        mirrored(b.squares) == b.squares,
    ensures
        material(b) == 0,
{
    let s = b.squares;
    assert forall|i: int| 0 <= i < 64 implies square_value(#[trigger] s[i]) == -square_value(
        s[(7 - i / 8) * 8 + i % 8],
    ) by {
        assert(mirrored(s)[i] == s[i]);
    }
    lemma_material_by_ranks(s, 8);
    lemma_material_by_ranks(s, 7);
    lemma_material_by_ranks(s, 6);
    lemma_material_by_ranks(s, 5);
    lemma_material_by_ranks(s, 4);
    lemma_material_by_ranks(s, 3);
    lemma_material_by_ranks(s, 2);
    lemma_material_by_ranks(s, 1);
    assert(material_of_first(s, 0) == 0);
    assert(rank_material(s, 0) == -rank_material(s, 56)) by {
        assert(square_value(s[0]) == -square_value(s[56]));
        assert(square_value(s[1]) == -square_value(s[57]));
        assert(square_value(s[2]) == -square_value(s[58]));
        assert(square_value(s[3]) == -square_value(s[59]));
        assert(square_value(s[4]) == -square_value(s[60]));
        assert(square_value(s[5]) == -square_value(s[61]));
        assert(square_value(s[6]) == -square_value(s[62]));
        assert(square_value(s[7]) == -square_value(s[63]));
    }
    assert(rank_material(s, 8) == -rank_material(s, 48)) by {
        assert(square_value(s[8]) == -square_value(s[48]));
        assert(square_value(s[9]) == -square_value(s[49]));
        assert(square_value(s[10]) == -square_value(s[50]));
        assert(square_value(s[11]) == -square_value(s[51]));
        assert(square_value(s[12]) == -square_value(s[52]));
        assert(square_value(s[13]) == -square_value(s[53]));
        assert(square_value(s[14]) == -square_value(s[54]));
        assert(square_value(s[15]) == -square_value(s[55]));
    }
    assert(rank_material(s, 16) == -rank_material(s, 40)) by {
        assert(square_value(s[16]) == -square_value(s[40]));
        assert(square_value(s[17]) == -square_value(s[41]));
        assert(square_value(s[18]) == -square_value(s[42]));
        assert(square_value(s[19]) == -square_value(s[43]));
        assert(square_value(s[20]) == -square_value(s[44]));
        assert(square_value(s[21]) == -square_value(s[45]));
        assert(square_value(s[22]) == -square_value(s[46]));
        assert(square_value(s[23]) == -square_value(s[47]));
    }
    assert(rank_material(s, 24) == -rank_material(s, 32)) by {
        assert(square_value(s[24]) == -square_value(s[32]));
        assert(square_value(s[25]) == -square_value(s[33]));
        assert(square_value(s[26]) == -square_value(s[34]));
        assert(square_value(s[27]) == -square_value(s[35]));
        assert(square_value(s[28]) == -square_value(s[36]));
        assert(square_value(s[29]) == -square_value(s[37]));
        assert(square_value(s[30]) == -square_value(s[38]));
        assert(square_value(s[31]) == -square_value(s[39]));
    }
}

/// The starting position is balanced.
pub proof fn lemma_material_standard()
    ensures
        material(BoardView::standard()) == 0,
{
    let b = BoardView::standard();
    assert forall|i: int| 0 <= i < 64 implies mirrored(b.squares)[i] == b.squares[i] by {}
    assert(mirrored(b.squares) =~= b.squares);
    lemma_material_symmetric(b);
}

/// The material value of a kind of piece.
fn kind_score(kind: Kind) -> (r: i32)
    ensures
        r == kind_value(kind),
{
    match kind {
        Kind::Pawn => 1,
        Kind::Knight => 3,
        Kind::Bishop => 3,
        Kind::Rook => 5,
        Kind::Queen => 9,
        Kind::King => 0,
    }
}

/// The material value of a piece, counted for White and against Black.
fn piece_score(piece: Piece) -> (r: i32)
    ensures
        r == piece_value(piece),
{
    match piece.0 {
        Color::White => kind_score(piece.1),
        Color::Black => -kind_score(piece.1),
    }
}

/// The material balance of the position: positive where White is ahead,
/// negative where Black is.
pub fn score_board(board: &Board) -> (r: i32)
    ensures
        r == material(board@),
        -576 <= r <= 576,
{
    let squares = board.squares();
    let mut pieces_score: i32 = 0;
    let mut i: usize = 0;
    while i < 64
        invariant
            i <= 64,
            squares@ == board@.squares,
            squares@.len() == 64,
            pieces_score == material_of_first(board@.squares, i as nat),
            -9 * i <= pieces_score <= 9 * i,
        decreases 64 - i,
    {
        let value: i32 = match squares[i] {
            Square::Occupied(piece) => piece_score(piece),
            Square::Empty => 0,
        };
        pieces_score = pieces_score + value;
        i = i + 1;
    }
    pieces_score
}

} // verus!
