use vstd::prelude::*;
use crate::board::color::Color;
use crate::board::kind::Kind;
use crate::board::piece::Piece;
use crate::board::square::Square;
use crate::board::coordinates::{Coordinates, File, Rank};

verus! {

/// The side of the board on which a king castles.
#[derive(Debug, Copy, Clone, PartialEq, Eq, Hash, Structural)]
pub enum CastlingSide {
    King,
    Queen,
}

/// The mathematical model of a board: the 64 squares by flat index, the
/// square that may be captured en passant in the next ply, and the four
/// castling rights.
pub struct BoardView {
    pub squares: Seq<Square>,
    pub en_passant: Option<Coordinates>,
    pub white_king_side: bool,
    pub white_queen_side: bool,
    pub black_king_side: bool,
    pub black_queen_side: bool,
}

/// The square on which a side's rook of the given wing starts the game.
pub open spec fn rook_home(color: Color, side: CastlingSide) -> Coordinates {
    Coordinates {
        file: match side {
            CastlingSide::Queen => File::A,
            CastlingSide::King => File::H,
        },
        rank: back_rank(color),
    }
}

/// The rank on which a side's pieces start the game.
pub open spec fn back_rank(color: Color) -> Rank {
    match color {
        Color::White => Rank::R1,
        Color::Black => Rank::R8,
    }
}

/// The rank on which a side's pawns start the game.
pub open spec fn pawn_rank(color: Color) -> Rank {
    match color {
        Color::White => Rank::R2,
        Color::Black => Rank::R7,
    }
}

/// The kind of piece that starts the game on the given file of a back rank.
pub open spec fn home_kind(file: File) -> Kind {
    match file {
        File::A => Kind::Rook,
        File::B => Kind::Knight,
        File::C => Kind::Bishop,
        File::D => Kind::Queen,
        File::E => Kind::King,
        File::F => Kind::Bishop,
        File::G => Kind::Knight,
        File::H => Kind::Rook,
    }
}

/// What the standard setup puts on a square: the pieces on the two back
/// ranks, the pawns before them, and on the four middle ranks whatever
/// stood there before.
pub open spec fn setup_square(c: Coordinates, before: Square) -> Square {
    match c.rank {
        Rank::R1 => Square::Occupied(Piece(Color::White, home_kind(c.file))),
        Rank::R2 => Square::Occupied(Piece(Color::White, Kind::Pawn)),
        Rank::R7 => Square::Occupied(Piece(Color::Black, Kind::Pawn)),
        Rank::R8 => Square::Occupied(Piece(Color::Black, home_kind(c.file))),
        _ => before,
    }
}

/// The square that a pawn passes over when it goes from `from` to `to`, if
/// that move is an advance of exactly two ranks on one file.
pub open spec fn passed_over(from: Coordinates, to: Coordinates) -> Option<Coordinates> {
    if to.flat() == from.flat() + 16 {
        Some(Coordinates::from_flat(from.flat() + 8))
    } else if from.flat() == to.flat() + 16 {
        Some(Coordinates::from_flat(to.flat() + 8))
    } else {
        None
    }
}

impl BoardView {
    /// A board has exactly 64 squares.
    pub open spec fn wf(self) -> bool {
        self.squares.len() == 64
    }

    /// What stands on a square.
    pub open spec fn at(self, c: Coordinates) -> Square {
        self.squares[c.flat()]
    }

    /// The board with one square replaced.
    pub open spec fn put(self, c: Coordinates, value: Square) -> BoardView {
        BoardView { squares: self.squares.update(c.flat(), value), ..self }
    }

    /// Whether a side still has the right to castle on a wing.
    pub open spec fn may_castle(self, color: Color, side: CastlingSide) -> bool {
        match (color, side) {
            (Color::White, CastlingSide::King) => self.white_king_side,
            (Color::White, CastlingSide::Queen) => self.white_queen_side,
            (Color::Black, CastlingSide::King) => self.black_king_side,
            (Color::Black, CastlingSide::Queen) => self.black_queen_side,
        }
    }

    /// The board with one castling right replaced.
    pub open spec fn with_castling(
        self,
        color: Color,
        side: CastlingSide,
        allowed: bool,
    ) -> BoardView {
        match (color, side) {
            (Color::White, CastlingSide::King) => BoardView { white_king_side: allowed, ..self },
            (Color::White, CastlingSide::Queen) => BoardView { white_queen_side: allowed, ..self },
            (Color::Black, CastlingSide::King) => BoardView { black_king_side: allowed, ..self },
            (Color::Black, CastlingSide::Queen) => BoardView { black_queen_side: allowed, ..self },
        }
    }

    /// The board with the en-passant target replaced.
    pub open spec fn with_en_passant(self, target: Option<Coordinates>) -> BoardView {
        BoardView { en_passant: target, ..self }
    }

    /// The empty board: no piece, no castling right, no en-passant target.
    pub open spec fn empty() -> BoardView {
        BoardView {
            squares: Seq::new(64, |i: int| Square::Empty),
            en_passant: None,
            white_king_side: false,
            white_queen_side: false,
            black_king_side: false,
            black_queen_side: false,
        }
    }

    /// The board after the standard setup was laid over it: both sides'
    /// pieces and pawns on their starting squares, all four castling rights
    /// granted, no en-passant target.
    pub open spec fn set_up(self) -> BoardView {
        BoardView {
            squares: Seq::new(
                64,
                |i: int| setup_square(Coordinates::from_flat(i), self.squares[i]),
            ),
            en_passant: None,
            white_king_side: true,
            white_queen_side: true,
            black_king_side: true,
            black_queen_side: true,
        }
    }

    /// The position from which a game starts.
    pub open spec fn standard() -> BoardView {
        BoardView::empty().set_up()
    }

    /// The castling rights that are left when `square` is what stands on,
    /// or leaves, the square `place`: a rook on its own starting square
    /// takes the right to castle on its wing with it.
    pub open spec fn without_rook_right(self, square: Square, place: Coordinates) -> BoardView {
        match square {
            Square::Occupied(Piece(color, Kind::Rook)) => {
                if place == rook_home(color, CastlingSide::Queen) {
                    self.with_castling(color, CastlingSide::Queen, false)
                } else if place == rook_home(color, CastlingSide::King) {
                    self.with_castling(color, CastlingSide::King, false)
                } else {
                    self
                }
            },
            _ => self,
        }
    }

    /// The board with the content of `from` carried over to `to`, and
    /// `from` left empty.
    pub open spec fn relocated(self, from: Coordinates, to: Coordinates) -> BoardView {
        self.put(to, self.at(from)).put(from, Square::Empty)
    }

    /// The board without the pawn that a capture en passant takes: when a
    /// pawn has just arrived on `to` and `to` was the en-passant target,
    /// the square one rank behind `to`, seen from the arriving pawn, is
    /// emptied.
    pub open spec fn without_passed_pawn(self, was_target: bool, to: Coordinates) -> BoardView {
        match self.at(to) {
            Square::Occupied(Piece(color, Kind::Pawn)) if was_target => {
                match to.shifted(0, -color.sign()) {
                    Some(behind) => self.put(behind, Square::Empty),
                    None => self,
                }
            },
            _ => self,
        }
    }

    /// The board once a move from `from` to `to` has been carried out on
    /// the squares: the en-passant target is cleared, and set anew only by
    /// a pawn that advanced two ranks; a king that moved loses both
    /// castling rights of its side, a rook that left its starting square
    /// the right of its wing.
    pub open spec fn settled(self, from: Coordinates, to: Coordinates) -> BoardView {
        let cleared = self.with_en_passant(None);
        match self.at(to) {
            Square::Occupied(Piece(_, Kind::Pawn)) => cleared.with_en_passant(
                passed_over(from, to),
            ),
            Square::Occupied(Piece(color, Kind::King)) => cleared.with_castling(
                color,
                CastlingSide::King,
                false,
            ).with_castling(color, CastlingSide::Queen, false),
            Square::Occupied(Piece(_, Kind::Rook)) => cleared.without_rook_right(
                self.at(to),
                from,
            ),
            _ => cleared,
        }
    }

    /// The board after the piece on `from` went to `to`.
    ///
    /// A rook captured on its starting square loses its side the right to
    /// castle on that wing. The piece is carried over. A pawn that arrives
    /// on the en-passant target takes the pawn that passed it. Then the
    /// en-passant target and the castling rights are settled.
    pub open spec fn after_move(self, from: Coordinates, to: Coordinates) -> BoardView {
        self.without_rook_right(self.at(to), to).relocated(from, to).without_passed_pawn(
            self.en_passant == Some(to),
            to,
        ).settled(from, to)
    }
}

/// A move leaves the board with 64 squares.
pub proof fn lemma_move_keeps_shape(b: BoardView, from: Coordinates, to: Coordinates)
    requires
        b.wf(),
    ensures
        b.after_move(from, to).wf(),
{
}

/// A move never grants a castling right: whatever right stands after
/// the move stood before it.
pub proof fn lemma_castling_never_regranted(
    b: BoardView,
    from: Coordinates,
    to: Coordinates,
    color: Color,
    side: CastlingSide,
)
    ensures
        b.after_move(from, to).may_castle(color, side) ==> b.may_castle(color, side),
{
}

/// A king that moves loses both castling rights of its side, whatever
/// they were.
pub proof fn lemma_king_move_revokes(b: BoardView, from: Coordinates, to: Coordinates, color: Color)
    requires
        b.wf(),
        from != to,
        b.at(from) == Square::Occupied(Piece(color, Kind::King)),
    ensures
        !b.after_move(from, to).may_castle(color, CastlingSide::King),
        !b.after_move(from, to).may_castle(color, CastlingSide::Queen),
{
    from.lemma_flat();
    to.lemma_flat();
}

/// After a move there is an en-passant target only if a pawn has just
/// advanced two ranks on its file, and the target is then the square it
/// passed over. What the target was before the move does not matter.
pub proof fn lemma_en_passant_after_move(b: BoardView, from: Coordinates, to: Coordinates)
    requires
        b.wf(),
    ensures
        b.after_move(from, to).en_passant == (if from != to && b.at(from) matches Square::Occupied(
            Piece(_, Kind::Pawn),
        ) {
            passed_over(from, to)
        } else {
            None
        }),
        b.after_move(from, to).en_passant matches Some(target) ==> target.file == from.file
            && target.file == to.file && 2 * target.rank.ordinal() == from.rank.ordinal()
            + to.rank.ordinal(),
{
    from.lemma_flat();
    to.lemma_flat();
    if let Some(target) = passed_over(from, to) {
        if to.flat() == from.flat() + 16 {
            Coordinates::lemma_at(from.file.ordinal(), from.rank.ordinal() + 1);
        } else {
            Coordinates::lemma_at(to.file.ordinal(), to.rank.ordinal() + 1);
        }
    }
}

/// Castling rights and the en-passant target have no part in what
/// stands on the squares after a move.
pub proof fn lemma_move_squares(b: BoardView, from: Coordinates, to: Coordinates)
    ensures
        b.after_move(from, to).squares == b.relocated(from, to).without_passed_pawn(
            b.en_passant == Some(to),
            to,
        ).squares,
{
}

/// Carrying a piece over changes the two squares of the move and no
/// other.
pub proof fn lemma_relocated(b: BoardView, from: Coordinates, to: Coordinates, c: Coordinates)
    requires
        b.wf(),
        from != to,
    ensures
        b.relocated(from, to).at(to) == b.at(from),
        b.relocated(from, to).at(from) == Square::Empty,
        c != from && c != to ==> b.relocated(from, to).at(c) == b.at(c),
{
    from.lemma_flat();
    to.lemma_flat();
    c.lemma_flat();
}

/// Taking the passed pawn changes at most the square behind the landing
/// square, on the same file, and only where a pawn has landed on the
/// en-passant target.
pub proof fn lemma_without_passed_pawn(
    b: BoardView,
    was_target: bool,
    to: Coordinates,
    c: Coordinates,
)
    requires
        b.wf(),
    ensures
        c == to || c.file != to.file || !was_target || !(b.at(to) matches Square::Occupied(
            Piece(_, Kind::Pawn),
        )) ==> b.without_passed_pawn(was_target, to).at(c) == b.at(c),
{
    to.lemma_flat();
    c.lemma_flat();
    if let Some(behind) = to.shifted(0, 1) {
        behind.lemma_flat();
        Coordinates::lemma_at(to.file.ordinal(), to.rank.ordinal() + 1);
    }
    if let Some(behind) = to.shifted(0, -1) {
        behind.lemma_flat();
        Coordinates::lemma_at(to.file.ordinal(), to.rank.ordinal() - 1);
    }
}

/// A move carries the content of `from` to `to` and leaves `from`
/// empty, unless `from` is the square behind the en-passant target that a
/// pawn has just taken, which is empty either way. Every other square
/// stays as it is, but for that one square.
pub proof fn lemma_move_relocates(b: BoardView, from: Coordinates, to: Coordinates)
    requires
        b.wf(),
        from != to,
    ensures
        b.after_move(from, to).at(to) == b.at(from),
        b.after_move(from, to).at(from) == Square::Empty,
        forall|c: Coordinates|
            c != from && c != to && !(b.en_passant == Some(to) && c.file == to.file)
                ==> b.after_move(from, to).at(c) == b.at(c),
        forall|c: Coordinates|
            c != from && c != to && !(b.at(from) matches Square::Occupied(Piece(_, Kind::Pawn)))
                ==> b.after_move(from, to).at(c) == b.at(c),
{
    let carried = b.relocated(from, to);
    let was_target = b.en_passant == Some(to);
    lemma_move_squares(b, from, to);
    lemma_relocated(b, from, to, to);
    lemma_without_passed_pawn(carried, was_target, to, to);
    assert(b.after_move(from, to).at(from) == Square::Empty) by {
        lemma_from_is_left(b, from, to);
    }
    assert forall|c: Coordinates|
        c != from && c != to && !(b.en_passant == Some(to) && c.file == to.file)
            implies b.after_move(from, to).at(c) == b.at(c) by {
        lemma_relocated(b, from, to, c);
        lemma_without_passed_pawn(carried, was_target, to, c);
    }
    assert forall|c: Coordinates|
        c != from && c != to && !(b.at(from) matches Square::Occupied(Piece(_, Kind::Pawn)))
            implies b.after_move(from, to).at(c) == b.at(c) by {
        lemma_relocated(b, from, to, c);
        lemma_without_passed_pawn(carried, was_target, to, c);
    }
}

/// The square that a piece has left is empty after the move.
pub proof fn lemma_from_is_left(b: BoardView, from: Coordinates, to: Coordinates)
    requires
        b.wf(),
        from != to,
    ensures
        b.after_move(from, to).at(from) == Square::Empty,
{
    lemma_move_squares(b, from, to);
    lemma_relocated(b, from, to, from);
    from.lemma_flat();
    to.lemma_flat();
    if let Some(behind) = to.shifted(0, 1) {
        behind.lemma_flat();
    }
    if let Some(behind) = to.shifted(0, -1) {
        behind.lemma_flat();
    }
}

/// A pawn that takes en passant removes the pawn that passed it: the
/// square beside its start and behind its landing square ends up empty.
pub proof fn lemma_en_passant_capture(
    b: BoardView,
    from: Coordinates,
    to: Coordinates,
    color: Color,
)
    requires
        b.wf(),
        b.at(from) == Square::Occupied(Piece(color, Kind::Pawn)),
        b.en_passant == Some(to),
        from != to,
        to.shifted(0, -color.sign()) is Some,
    ensures
        b.after_move(from, to).at(to) == Square::Occupied(Piece(color, Kind::Pawn)),
        b.after_move(from, to).at(to.shifted(0, -color.sign())->0) == Square::Empty,
{
    from.lemma_flat();
    to.lemma_flat();
    let behind = to.shifted(0, -color.sign())->0;
    behind.lemma_flat();
    Coordinates::lemma_at(to.file.ordinal(), to.rank.ordinal() - color.sign());
}

/// A chess position: 64 squares, the en-passant target and the castling
/// rights.
#[derive(Debug, Copy, Clone, PartialEq, Eq, Hash)]
pub struct Board {
    squares: [Square; 64],
    en_passant_capturable: Option<Coordinates>,
    white_can_king_castle: bool,
    white_can_queen_castle: bool,
    black_can_king_castle: bool,
    black_can_queen_castle: bool,
}

impl View for Board {
    type V = BoardView;

    closed spec fn view(&self) -> BoardView {
        BoardView {
            squares: self.squares@,
            en_passant: self.en_passant_capturable,
            white_king_side: self.white_can_king_castle,
            white_queen_side: self.white_can_queen_castle,
            black_king_side: self.black_can_king_castle,
            black_queen_side: self.black_can_queen_castle,
        }
    }
}

impl DeepView for Board {
    type V = BoardView;

    open spec fn deep_view(&self) -> BoardView {
        self@
    }
}

/// Every board has 64 squares.
pub proof fn lemma_board_wf(board: Board)
    ensures
        board@.wf(),
{
}

impl Board {
    /// The empty board.
    pub fn new() -> (r: Board)
        ensures
            r@ == BoardView::empty(),
    {
        let board = Board {
            squares: [Square::Empty;64],
            en_passant_capturable: None,
            white_can_king_castle: false,
            white_can_queen_castle: false,
            black_can_king_castle: false,
            black_can_queen_castle: false,
        };
        assert(board@.squares =~= BoardView::empty().squares);
        board
    }

    /// Lays the standard setup over the board: the pieces and pawns of
    /// both sides on their starting squares, all castling rights granted,
    /// no en-passant target. The four middle ranks are left as they are.
    pub fn setup(&mut self)
        ensures
            final(self)@ == old(self)@.set_up(),
    {
        let mut i: usize = 0;
        while i < 64
            invariant
                i <= 64,
                forall|j: int|
                    0 <= j < i ==> self.squares@[j] == setup_square(
                        Coordinates::from_flat(j),
                        old(self).squares@[j],
                    ),
                forall|j: int| i <= j < 64 ==> self.squares@[j] == old(self).squares@[j],
            decreases 64 - i,
        {
            let c = Coordinates::new_from_index(i).unwrap();
            let square = match c.rank() {
                Rank::R1 => Square::Occupied(Piece(Color::White, start_kind(c.file()))),
                Rank::R2 => Square::Occupied(Piece(Color::White, Kind::Pawn)),
                Rank::R7 => Square::Occupied(Piece(Color::Black, Kind::Pawn)),
                Rank::R8 => Square::Occupied(Piece(Color::Black, start_kind(c.file()))),
                _ => self.squares[i],
            };
            self.squares[i] = square;
            i = i + 1;
        }
        self.en_passant_capturable = None;
        self.white_can_king_castle = true;
        self.white_can_queen_castle = true;
        self.black_can_king_castle = true;
        self.black_can_queen_castle = true;
        assert(self@.squares =~= old(self)@.set_up().squares);
    }

    /// Moves whatever stands on `from` to `to` and brings the en-passant
    /// target and the castling rights up to date.
    pub fn move_piece(&mut self, from: Coordinates, to: Coordinates)
        ensures
            final(self)@ == old(self)@.after_move(from, to),
    {
        let was_target = self.is_en_passant_capturable(to);
        let captured = self.get_square(to);
        self.revoke_rook_right(captured, to);
        self.carry(from, to);
        self.take_passed_pawn(was_target, to);
        self.settle(from, to);
    }

    /// Carries the content of `from` over to `to` and leaves `from` empty.
    fn carry(&mut self, from: Coordinates, to: Coordinates)
        ensures
            final(self)@ == old(self)@.relocated(from, to),
    {
        let index = from.index();
        let target_index = to.index();
        self.squares[target_index] = self.squares[index];
        self.squares[index] = Square::Empty;
    }

    /// Removes the pawn that a capture en passant takes, if a pawn has
    /// just arrived on `to` and `to` was the en-passant target.
    fn take_passed_pawn(&mut self, was_target: bool, to: Coordinates)
        ensures
            final(self)@ == old(self)@.without_passed_pawn(was_target, to),
    {
        if was_target {
            if let Square::Occupied(Piece(color, Kind::Pawn)) = self.get_square(to) {
                let backward: i8 = match color {
                    Color::White => -1,
                    Color::Black => 1,
                };
                if let Some(behind) = to.offset(0, backward) {
                    self.set_square(behind, Square::Empty);
                }
            }
        }
    }

    /// Brings the en-passant target and the castling rights up to date
    /// after the squares have changed.
    fn settle(&mut self, from: Coordinates, to: Coordinates)
        ensures
            final(self)@ == old(self)@.settled(from, to),
    {
        let index = from.index();
        let target_index = to.index();
        let moved = self.get_square(to);
        self.en_passant_capturable = None;
        match moved {
            Square::Occupied(Piece(_, Kind::Pawn)) => {
                if target_index == index + 16 {
                    self.en_passant_capturable = Coordinates::new_from_index(index + 8);
                } else if index == target_index + 16 {
                    self.en_passant_capturable = Coordinates::new_from_index(target_index + 8);
                }
            },
            Square::Occupied(Piece(color, Kind::King)) => {
                self.set_castling_allowed(color, CastlingSide::King, false);
                self.set_castling_allowed(color, CastlingSide::Queen, false);
            },
            Square::Occupied(Piece(_, Kind::Rook)) => {
                self.revoke_rook_right(moved, from);
            },
            _ => {},
        }
    }

    /// Clears the castling right that goes with a rook's starting square,
    /// if `square` is that rook and `place` that square.
    fn revoke_rook_right(&mut self, square: Square, place: Coordinates)
        ensures
            final(self)@ == old(self)@.without_rook_right(square, place),
    {
        if let Square::Occupied(Piece(color, Kind::Rook)) = square {
            let home = match color {
                Color::White => Rank::R1,
                Color::Black => Rank::R8,
            };
            if place.rank() == home {
                if place.file() == File::A {
                    self.set_castling_allowed(color, CastlingSide::Queen, false);
                } else if place.file() == File::H {
                    self.set_castling_allowed(color, CastlingSide::King, false);
                }
            }
        }
    }

    /// The board after the piece on `from` went to `to`; this board stays
    /// as it is.
    pub fn clone_move_piece(&self, from: Coordinates, to: Coordinates) -> (r: Board)
        ensures
            r@ == self@.after_move(from, to),
    {
        let mut clone = *self;
        clone.move_piece(from, to);
        clone
    }

    /// What stands on a square.
    pub fn get_square(&self, coordinates: Coordinates) -> (r: Square)
        ensures
            r == self@.at(coordinates),
    {
        self.squares[coordinates.index()]
    }

    /// Replaces what stands on a square.
    pub fn set_square(&mut self, coordinates: Coordinates, value: Square)
        ensures
            final(self)@ == old(self)@.put(coordinates, value),
    {
        self.squares[coordinates.index()] = value;
    }

    /// The 64 squares by flat index, a1 first and h8 last.
    pub fn squares(&self) -> (r: &[Square])
        ensures
            r@ == self@.squares,
            r@.len() == 64,
    {
        &self.squares
    }

    /// Every square with its coordinates, by flat index.
    pub fn squares_coordinates_iter(&self) -> (r: Vec<(Coordinates, Square)>)
        ensures
            r@.len() == 64,
            forall|i: int|
                0 <= i < 64 ==> r@[i] == (Coordinates::from_flat(i), self@.squares[i]),
    {
        let mut pairs: Vec<(Coordinates, Square)> = Vec::new();
        let mut i: usize = 0;
        while i < 64
            invariant
                i <= 64,
                pairs@.len() == i,
                forall|j: int|
                    0 <= j < i ==> pairs@[j] == (Coordinates::from_flat(j), self@.squares[j]),
            decreases 64 - i,
        {
            let c = Coordinates::new_from_index(i).unwrap();
            pairs.push((c, self.squares[i]));
            i = i + 1;
        }
        pairs
    }

    /// Grants or revokes one castling right.
    pub fn set_castling_allowed(&mut self, color: Color, side: CastlingSide, allowed: bool)
        ensures
            final(self)@ == old(self)@.with_castling(color, side, allowed),
    {
        match (color, side) {
            (Color::White, CastlingSide::King) => {
                self.white_can_king_castle = allowed;
            },
            (Color::White, CastlingSide::Queen) => {
                self.white_can_queen_castle = allowed;
            },
            (Color::Black, CastlingSide::King) => {
                self.black_can_king_castle = allowed;
            },
            (Color::Black, CastlingSide::Queen) => {
                self.black_can_queen_castle = allowed;
            },
        }
    }

    /// Whether a side still has the right to castle on a wing.
    pub fn is_castling_allowed(&self, color: Color, side: CastlingSide) -> (r: bool)
        ensures
            r == self@.may_castle(color, side),
    {
        match (color, side) {
            (Color::White, CastlingSide::King) => self.white_can_king_castle,
            (Color::White, CastlingSide::Queen) => self.white_can_queen_castle,
            (Color::Black, CastlingSide::King) => self.black_can_king_castle,
            (Color::Black, CastlingSide::Queen) => self.black_can_queen_castle,
        }
    }

    /// Sets or clears the square that may be captured en passant.
    pub fn set_en_passant_capturable(&mut self, coordinates: Option<Coordinates>)
        ensures
            final(self)@ == old(self)@.with_en_passant(coordinates),
    {
        self.en_passant_capturable = coordinates;
    }

    /// Whether the given square is the one that may be captured en passant.
    pub fn is_en_passant_capturable(&self, coordinates: Coordinates) -> (r: bool)
        ensures
            r == (self@.en_passant == Some(coordinates)),
    {
        match self.en_passant_capturable {
            Some(target) => target == coordinates,
            None => false,
        }
    }
}

impl Default for Board {
    /// The position from which a game starts.
    fn default() -> (r: Board)
        ensures
            r@ == BoardView::standard(),
    {
        let mut board = Board::new();
        board.setup();
        board
    }
}

/// The kind of piece that starts the game on the given file of a back rank.
fn start_kind(file: File) -> (r: Kind)
    ensures
        r == home_kind(file),
{
    match file {
        File::A => Kind::Rook,
        File::B => Kind::Knight,
        File::C => Kind::Bishop,
        File::D => Kind::Queen,
        File::E => Kind::King,
        File::F => Kind::Bishop,
        File::G => Kind::Knight,
        File::H => Kind::Rook,
    }
}

} // verus!
