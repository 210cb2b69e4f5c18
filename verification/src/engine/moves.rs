use vstd::prelude::*;
use crate::board::board::{
    back_rank,
    lemma_castling_never_regranted,
    lemma_en_passant_after_move,
    lemma_king_move_revokes,
    lemma_move_keeps_shape,
    lemma_move_relocates,
    pawn_rank,
    rook_home,
    Board,
    BoardView,
    CastlingSide,
};
use crate::board::color::Color;
use crate::board::coordinates::{Coordinates, File, Rank};
use crate::board::kind::Kind;
use crate::board::piece::Piece;
use crate::board::square::Square;
use crate::engine::analysis::{in_check, is_checked, is_threatened_by, threatened};
use crate::engine::offsets::{
    all_nonzero,
    BISHOP_OFFSETS,
    KING_OFFSETS,
    KNIGHT_OFFSETS,
    ROOK_OFFSETS,
};

verus! {

/// The positions that a sliding piece of the given color reaches from
/// `from` along a path, nearest first: it enters every empty square up to
/// the first piece, takes that piece if it is an enemy, and goes no further.
pub open spec fn slide_moves(
    b: BoardView,
    from: Coordinates,
    color: Color,
    path: Seq<Coordinates>,
) -> Seq<BoardView>
    decreases path.len(),
{
    if path.len() == 0 {
        Seq::empty()
    } else {
        match b.at(path[0]) {
            Square::Occupied(Piece(owner, _)) => {
                if owner == color {
                    Seq::empty()
                } else {
                    seq![b.after_move(from, path[0])]
                }
            },
            Square::Empty => seq![b.after_move(from, path[0])] + slide_moves(
                b,
                from,
                color,
                path.drop_first(),
            ),
        }
    }
}

/// The positions that a sliding piece reaches along the rays of a table of
/// directions, in the table's order.
pub open spec fn ray_moves(
    b: BoardView,
    from: Coordinates,
    color: Color,
    table: Seq<(i8, i8)>,
) -> Seq<BoardView>
    decreases table.len(),
{
    if table.len() == 0 {
        Seq::empty()
    } else {
        ray_moves(b, from, color, table.drop_last()) + slide_moves(
            b,
            from,
            color,
            from.ray(table.last().0 as int, table.last().1 as int),
        )
    }
}

/// The positions that a stepping piece reaches by the offsets of a table,
/// in the table's order: every target on the board that holds no piece of
/// its own color.
pub open spec fn step_moves(
    b: BoardView,
    from: Coordinates,
    color: Color,
    table: Seq<(i8, i8)>,
) -> Seq<BoardView>
    decreases table.len(),
{
    if table.len() == 0 {
        Seq::empty()
    } else {
        let before = step_moves(b, from, color, table.drop_last());
        match from.shifted(table.last().0 as int, table.last().1 as int) {
            Some(to) => {
                if b.at(to).holds_color(color) {
                    before
                } else {
                    before.push(b.after_move(from, to))
                }
            },
            None => before,
        }
    }
}

/// The moves of a rook.
pub open spec fn rook_moves(b: BoardView, from: Coordinates, color: Color) -> Seq<BoardView> {
    ray_moves(b, from, color, ROOK_OFFSETS@)
}

/// The moves of a bishop.
pub open spec fn bishop_moves(b: BoardView, from: Coordinates, color: Color) -> Seq<BoardView> {
    ray_moves(b, from, color, BISHOP_OFFSETS@)
}

/// The moves of a queen: those of a rook, then those of a bishop.
pub open spec fn queen_moves(b: BoardView, from: Coordinates, color: Color) -> Seq<BoardView> {
    rook_moves(b, from, color) + bishop_moves(b, from, color)
}

/// The moves of a knight.
pub open spec fn knight_moves(b: BoardView, from: Coordinates, color: Color) -> Seq<BoardView> {
    step_moves(b, from, color, KNIGHT_OFFSETS@)
}

/// The files between king and rook that must be empty and not attacked
/// for castling on a wing.
pub open spec fn castle_files(side: CastlingSide) -> Seq<File> {
    match side {
        CastlingSide::Queen => seq![File::B, File::C, File::D],
        CastlingSide::King => seq![File::F, File::G],
    }
}

/// Whether a square is empty and not attacked by the given color.
pub open spec fn free_and_safe(b: BoardView, c: Coordinates, attacker: Color) -> bool {
    b.at(c) == Square::Empty && !threatened(b, c, attacker)
}

/// Whether the squares between king and rook allow castling on a wing:
/// each is empty and none is attacked by the other side.
pub open spec fn castle_path_clear(b: BoardView, color: Color, side: CastlingSide) -> bool {
    forall|i: int|
        0 <= i < castle_files(side).len() ==> free_and_safe(
            b,
            Coordinates { file: #[trigger] castle_files(side)[i], rank: back_rank(color) },
            color.other(),
        )
}

/// The position after castling on a wing: the king goes from the e-file
/// two files towards the rook, and the rook from its corner to the square
/// that the king has crossed.
pub open spec fn castled(b: BoardView, color: Color, side: CastlingSide) -> BoardView {
    let rank = back_rank(color);
    match side {
        CastlingSide::Queen => b.after_move(
            Coordinates { file: File::E, rank },
            Coordinates { file: File::C, rank },
        ).after_move(Coordinates { file: File::A, rank }, Coordinates { file: File::D, rank }),
        CastlingSide::King => b.after_move(
            Coordinates { file: File::E, rank },
            Coordinates { file: File::G, rank },
        ).after_move(Coordinates { file: File::H, rank }, Coordinates { file: File::F, rank }),
    }
}

/// The castling move on a wing, where the side still has the right and
/// the path is clear.
pub open spec fn castle_moves(b: BoardView, color: Color, side: CastlingSide) -> Seq<BoardView> {
    if b.may_castle(color, side) && castle_path_clear(b, color, side) {
        seq![castled(b, color, side)]
    } else {
        Seq::empty()
    }
}

/// The moves of a king: its steps, then castling on the queen's wing, then
/// castling on the king's wing.
pub open spec fn king_moves(b: BoardView, from: Coordinates, color: Color) -> Seq<BoardView> {
    step_moves(b, from, color, KING_OFFSETS@) + castle_moves(b, color, CastlingSide::Queen)
        + castle_moves(b, color, CastlingSide::King)
}

/// The advances of a pawn: one rank forward onto an empty square, and from
/// its starting rank two ranks forward if both squares are empty.
pub open spec fn pawn_advances(b: BoardView, from: Coordinates, color: Color) -> Seq<BoardView> {
    match from.shifted(0, color.sign()) {
        Some(one) => {
            if b.at(one) == Square::Empty {
                seq![b.after_move(from, one)] + (if from.rank == pawn_rank(color) {
                    match from.shifted(0, 2 * color.sign()) {
                        Some(two) => {
                            if b.at(two) == Square::Empty {
                                seq![b.after_move(from, two)]
                            } else {
                                Seq::empty()
                            }
                        },
                        None => Seq::empty(),
                    }
                } else {
                    Seq::empty()
                })
            } else {
                Seq::empty()
            }
        },
        None => Seq::empty(),
    }
}

/// The captures of a pawn towards one side (-1 or 1 file): diagonally
/// forward onto an enemy piece, and diagonally forward onto the en-passant
/// target.
pub open spec fn pawn_captures(
    b: BoardView,
    from: Coordinates,
    color: Color,
    file_offset: int,
) -> Seq<BoardView> {
    match from.shifted(file_offset, color.sign()) {
        Some(to) => (if b.at(to).holds_color(color.other()) {
            seq![b.after_move(from, to)]
        } else {
            Seq::empty()
        }) + (if b.en_passant == Some(to) {
            seq![b.after_move(from, to)]
        } else {
            Seq::empty()
        }),
        None => Seq::empty(),
    }
}

/// The moves of a pawn: its advances, then its captures towards the
/// a-file, then its captures towards the h-file.
pub open spec fn pawn_moves(b: BoardView, from: Coordinates, color: Color) -> Seq<BoardView> {
    pawn_advances(b, from, color) + pawn_captures(b, from, color, -1) + pawn_captures(
        b,
        from,
        color,
        1,
    )
}

/// The moves of whatever stands on a square, if it is of the given color.
pub open spec fn piece_moves(b: BoardView, from: Coordinates, color: Color) -> Seq<BoardView> {
    match b.at(from) {
        Square::Occupied(Piece(owner, kind)) => {
            if owner == color {
                match kind {
                    Kind::Rook => rook_moves(b, from, color),
                    Kind::Knight => knight_moves(b, from, color),
                    Kind::Bishop => bishop_moves(b, from, color),
                    Kind::Queen => queen_moves(b, from, color),
                    Kind::King => king_moves(b, from, color),
                    Kind::Pawn => pawn_moves(b, from, color),
                }
            } else {
                Seq::empty()
            }
        },
        Square::Empty => Seq::empty(),
    }
}

/// The moves of the given color's pieces on the first `count` squares, in
/// the order of the squares' flat indices.
pub open spec fn moves_of_first(b: BoardView, color: Color, count: nat) -> Seq<BoardView>
    decreases count,
{
    if count == 0 {
        Seq::empty()
    } else {
        moves_of_first(b, color, (count - 1) as nat) + piece_moves(
            b,
            Coordinates::from_flat(count - 1),
            color,
        )
    }
}

/// Every position that a move of the given color leads to by the pieces'
/// rules of movement alone, whether or not it leaves the mover's king
/// attacked.
pub open spec fn pseudo_legal_moves(b: BoardView, color: Color) -> Seq<BoardView> {
    moves_of_first(b, color, 64)
}

/// The test that a position passes if the given color is not in check in it.
pub open spec fn king_is_safe(color: Color) -> spec_fn(BoardView) -> bool {
    |next: BoardView| !in_check(next, color)
}

/// Every position that a legal move of the given color leads to: the
/// pseudo-legal moves that do not leave the mover in check, in their order.
pub open spec fn legal_moves(b: BoardView, color: Color) -> Seq<BoardView> {
    pseudo_legal_moves(b, color).filter(king_is_safe(color))
}

/// No legal move leaves the mover in check, and every legal move is a
/// pseudo-legal move.
pub proof fn lemma_legal_moves_are_safe(b: BoardView, color: Color)
    ensures
        legal_moves(b, color).len() <= pseudo_legal_moves(b, color).len(),
        forall|i: int|
            0 <= i < legal_moves(b, color).len() ==> !in_check(
                #[trigger] legal_moves(b, color)[i],
                color,
            ) && pseudo_legal_moves(b, color).contains(legal_moves(b, color)[i]),
{
    let all = pseudo_legal_moves(b, color);
    all.lemma_filter_len(king_is_safe(color));
    assert forall|i: int| 0 <= i < legal_moves(b, color).len() implies !in_check(
        #[trigger] legal_moves(b, color)[i],
        color,
    ) && all.contains(legal_moves(b, color)[i]) by {
        all.lemma_filter_pred(king_is_safe(color), i);
        let next = legal_moves(b, color)[i];
        all.lemma_filter_contains_rev(king_is_safe(color), next);
    }
}

/// A pseudo-legal move is legal exactly if it does not leave the mover
/// in check.
pub proof fn lemma_safe_moves_are_legal(b: BoardView, color: Color, i: int)
    requires
        0 <= i < pseudo_legal_moves(b, color).len(),
    ensures
        legal_moves(b, color).contains(pseudo_legal_moves(b, color)[i]) <==> !in_check(
            pseudo_legal_moves(b, color)[i],
            color,
        ),
{
    let all = pseudo_legal_moves(b, color);
    let next = all[i];
    if !in_check(next, color) {
        all.lemma_filter_contains(king_is_safe(color), i);
    }
    if legal_moves(b, color).contains(next) {
        let k = choose|k: int| 0 <= k < legal_moves(b, color).len() && legal_moves(b, color)[k]
            == next;
        all.lemma_filter_pred(king_is_safe(color), k);
    }
}

/// The file on which the king lands when it castles on a wing.
pub open spec fn king_landing(side: CastlingSide) -> File {
    match side {
        CastlingSide::Queen => File::C,
        CastlingSide::King => File::G,
    }
}

/// The file on which the rook lands when its king castles on its wing.
pub open spec fn rook_landing(side: CastlingSide) -> File {
    match side {
        CastlingSide::Queen => File::D,
        CastlingSide::King => File::F,
    }
}

/// Castling puts the king two files towards the rook and the rook on the
/// square that the king has crossed, leaves their starting squares empty,
/// and costs the side both its castling rights.
pub proof fn lemma_castled(b: BoardView, color: Color, side: CastlingSide)
    requires
        b.wf(),
        b.at(Coordinates { file: File::E, rank: back_rank(color) }) == Square::Occupied(
            Piece(color, Kind::King),
        ),
        b.at(rook_home(color, side)) == Square::Occupied(Piece(color, Kind::Rook)),
    ensures
        castled(b, color, side).at(Coordinates { file: king_landing(side), rank: back_rank(color) })
            == Square::Occupied(Piece(color, Kind::King)),
        castled(b, color, side).at(Coordinates { file: rook_landing(side), rank: back_rank(color) })
            == Square::Occupied(Piece(color, Kind::Rook)),
        castled(b, color, side).at(Coordinates { file: File::E, rank: back_rank(color) })
            == Square::Empty,
        castled(b, color, side).at(rook_home(color, side)) == Square::Empty,
        !castled(b, color, side).may_castle(color, CastlingSide::King),
        !castled(b, color, side).may_castle(color, CastlingSide::Queen),
        castled(b, color, side).en_passant is None,
{
    let rank = back_rank(color);
    let king_from = Coordinates { file: File::E, rank };
    let king_to = Coordinates { file: king_landing(side), rank };
    let rook_from = rook_home(color, side);
    let rook_to = Coordinates { file: rook_landing(side), rank };
    let first = b.after_move(king_from, king_to);
    lemma_move_keeps_shape(b, king_from, king_to);
    lemma_move_relocates(b, king_from, king_to);
    lemma_king_move_revokes(b, king_from, king_to, color);
    lemma_move_relocates(first, rook_from, rook_to);
    lemma_castling_never_regranted(first, rook_from, rook_to, color, CastlingSide::King);
    lemma_castling_never_regranted(first, rook_from, rook_to, color, CastlingSide::Queen);
    lemma_en_passant_after_move(first, rook_from, rook_to);
}

/// Appending three sequences one after the other appends their
/// concatenation.
proof fn lemma_append_three<T>(start: Seq<T>, a: Seq<T>, b: Seq<T>, c: Seq<T>)
    ensures
        ((start + a) + b) + c == start + (a + b + c),
        (start + a) + b == start + (a + b),
{
}

/// Appends a board to a list.
fn push_board(boards: &mut Vec<Board>, board: Board)
    ensures
        final(boards).deep_view() == old(boards).deep_view().push(board@),
{
    boards.push(board);
}

/// Appends the positions that a sliding piece reaches along one ray.
fn add_slide_moves(
    board: &Board,
    from: Coordinates,
    color: Color,
    file_offset: i8,
    rank_offset: i8,
    boards: &mut Vec<Board>,
)
    requires
        file_offset != 0 || rank_offset != 0,
    ensures
        final(boards).deep_view() == old(boards).deep_view() + slide_moves(
            board@,
            from,
            color,
            from.ray(file_offset as int, rank_offset as int),
        ),
{
    let path = from.offsets_repeated(file_offset, rank_offset);
    let ghost start = boards.deep_view();
    let mut i: usize = 0;
    assert(path@.skip(0) =~= path@);
    while i < path.len()
        invariant
            i <= path.len(),
            start == old(boards).deep_view(),
            path@ == from.ray(file_offset as int, rank_offset as int),
            start + slide_moves(board@, from, color, path@) == boards.deep_view() + slide_moves(
                board@,
                from,
                color,
                path@.skip(i as int),
            ),
        decreases path.len() - i,
    {
        let to = path[i];
        let ghost rest = path@.skip(i as int);
        let ghost before = boards.deep_view();
        assert(rest.drop_first() =~= path@.skip(i + 1));
        match board.get_square(to) {
            Square::Occupied(Piece(owner, _)) => {
                if owner != color {
                    push_board(boards, board.clone_move_piece(from, to));
                } else {
                    assert(boards.deep_view() =~= before + slide_moves(board@, from, color, rest));
                }
                return ;
            },
            Square::Empty => {
                push_board(boards, board.clone_move_piece(from, to));
            },
        }
        i = i + 1;
    }
}

/// Appends the positions that a sliding piece reaches along the rays of a
/// table of directions.
fn add_ray_moves(
    board: &Board,
    from: Coordinates,
    color: Color,
    table: &[(i8, i8)],
    boards: &mut Vec<Board>,
)
    requires
        all_nonzero(table@),
    ensures
        final(boards).deep_view() == old(boards).deep_view() + ray_moves(
            board@,
            from,
            color,
            table@,
        ),
{
    let ghost start = boards.deep_view();
    let mut d: usize = 0;
    while d < table.len()
        invariant
            d <= table.len(),
            all_nonzero(table@),
            boards.deep_view() == start + ray_moves(board@, from, color, table@.take(d as int)),
        decreases table.len() - d,
    {
        let (file_offset, rank_offset) = table[d];
        add_slide_moves(board, from, color, file_offset, rank_offset, boards);
        proof {
            let next = table@.take(d + 1);
            assert(next.drop_last() =~= table@.take(d as int));
        }
        d = d + 1;
    }
    assert(table@.take(d as int) =~= table@);
}

/// Appends the positions that a stepping piece reaches by the offsets of
/// a table.
fn add_step_moves(
    board: &Board,
    from: Coordinates,
    color: Color,
    table: &[(i8, i8)],
    boards: &mut Vec<Board>,
)
    ensures
        final(boards).deep_view() == old(boards).deep_view() + step_moves(
            board@,
            from,
            color,
            table@,
        ),
{
    let ghost start = boards.deep_view();
    let mut d: usize = 0;
    while d < table.len()
        invariant
            d <= table.len(),
            boards.deep_view() == start + step_moves(board@, from, color, table@.take(d as int)),
        decreases table.len() - d,
    {
        let (file_offset, rank_offset) = table[d];
        let ghost next = table@.take(d + 1);
        assert(next.drop_last() =~= table@.take(d as int));
        if let Some(to) = from.offset(file_offset, rank_offset) {
            let friendly = match board.get_square(to) {
                Square::Occupied(Piece(owner, _)) => owner == color,
                Square::Empty => false,
            };
            if !friendly {
                push_board(boards, board.clone_move_piece(from, to));
            }
        }
        d = d + 1;
    }
    assert(table@.take(d as int) =~= table@);
}

/// Appends the moves of the rook on `from`.
pub fn add_rook_moves(board: &Board, from: Coordinates, color: Color, boards: &mut Vec<Board>)
    ensures
        final(boards).deep_view() == old(boards).deep_view() + rook_moves(board@, from, color),
{
    add_ray_moves(board, from, color, &ROOK_OFFSETS, boards);
}

/// Appends the moves of the knight on `from`.
pub fn add_knight_moves(board: &Board, from: Coordinates, color: Color, boards: &mut Vec<Board>)
    ensures
        final(boards).deep_view() == old(boards).deep_view() + knight_moves(board@, from, color),
{
    add_step_moves(board, from, color, &KNIGHT_OFFSETS, boards);
}

/// Appends the moves of the bishop on `from`.
pub fn add_bishop_moves(board: &Board, from: Coordinates, color: Color, boards: &mut Vec<Board>)
    ensures
        final(boards).deep_view() == old(boards).deep_view() + bishop_moves(board@, from, color),
{
    add_ray_moves(board, from, color, &BISHOP_OFFSETS, boards);
}

/// Appends the moves of the queen on `from`.
pub fn add_queen_moves(board: &Board, from: Coordinates, color: Color, boards: &mut Vec<Board>)
    ensures
        final(boards).deep_view() == old(boards).deep_view() + queen_moves(board@, from, color),
{
    add_rook_moves(board, from, color, boards);
    add_bishop_moves(board, from, color, boards);
    proof {
        lemma_append_three(
            old(boards).deep_view(),
            rook_moves(board@, from, color),
            bishop_moves(board@, from, color),
            Seq::empty(),
        );
    }
}

/// Appends the moves of the king on `from`, castling included.
pub fn add_king_moves(board: &Board, from: Coordinates, color: Color, boards: &mut Vec<Board>)
    ensures
        final(boards).deep_view() == old(boards).deep_view() + king_moves(board@, from, color),
{
    add_step_moves(board, from, color, &KING_OFFSETS, boards);
    if board.is_castling_allowed(color, CastlingSide::Queen) {
        add_queens_castle_move(board, color, boards);
    }
    if board.is_castling_allowed(color, CastlingSide::King) {
        add_kings_castle_move(board, color, boards);
    }
    proof {
        lemma_append_three(
            old(boards).deep_view(),
            step_moves(board@, from, color, KING_OFFSETS@),
            castle_moves(board@, color, CastlingSide::Queen),
            castle_moves(board@, color, CastlingSide::King),
        );
    }
}

/// The back rank of a side.
fn home_rank(color: Color) -> (r: Rank)
    ensures
        r == back_rank(color),
{
    match color {
        Color::White => Rank::R1,
        Color::Black => Rank::R8,
    }
}

/// Whether a square is empty and not attacked by the given color.
fn is_free_and_safe(board: &Board, c: Coordinates, attacker: Color) -> (r: bool)
    ensures
        r == free_and_safe(board@, c, attacker),
{
    board.get_square(c).is_empty() && !is_threatened_by(board, c, attacker)
}

/// Appends the castling move on the queen's wing if the path is clear.
/// The right to castle is the caller's to test.
pub fn add_queens_castle_move(board: &Board, color: Color, boards: &mut Vec<Board>)
    ensures
        final(boards).deep_view() == old(boards).deep_view() + (if castle_path_clear(
            board@,
            color,
            CastlingSide::Queen,
        ) {
            seq![castled(board@, color, CastlingSide::Queen)]
        } else {
            Seq::empty()
        }),
{
    let rank = home_rank(color);
    let opposite_color = color.opposite();
    if is_free_and_safe(board, Coordinates::new(File::B, rank), opposite_color)
        && is_free_and_safe(board, Coordinates::new(File::C, rank), opposite_color)
        && is_free_and_safe(board, Coordinates::new(File::D, rank), opposite_color) {
        let mut new_board = board.clone_move_piece(
            Coordinates::new(File::E, rank),
            Coordinates::new(File::C, rank),
        );
        new_board.move_piece(Coordinates::new(File::A, rank), Coordinates::new(File::D, rank));
        push_board(boards, new_board);
    }
}

/// Appends the castling move on the king's wing if the path is clear.
/// The right to castle is the caller's to test.
pub fn add_kings_castle_move(board: &Board, color: Color, boards: &mut Vec<Board>)
    ensures
        final(boards).deep_view() == old(boards).deep_view() + (if castle_path_clear(
            board@,
            color,
            CastlingSide::King,
        ) {
            seq![castled(board@, color, CastlingSide::King)]
        } else {
            Seq::empty()
        }),
{
    let rank = home_rank(color);
    let opposite_color = color.opposite();
    if is_free_and_safe(board, Coordinates::new(File::F, rank), opposite_color)
        && is_free_and_safe(board, Coordinates::new(File::G, rank), opposite_color) {
        let mut new_board = board.clone_move_piece(
            Coordinates::new(File::E, rank),
            Coordinates::new(File::G, rank),
        );
        new_board.move_piece(Coordinates::new(File::H, rank), Coordinates::new(File::F, rank));
        push_board(boards, new_board);
    }
}

/// Appends the advances of the pawn on `from`.
fn add_pawn_advances(board: &Board, from: Coordinates, color: Color, boards: &mut Vec<Board>)
    ensures
        final(boards).deep_view() == old(boards).deep_view() + pawn_advances(board@, from, color),
{
    let (move_direction, start_rank): (i8, Rank) = match color {
        Color::White => (1, Rank::R2),
        Color::Black => (-1, Rank::R7),
    };
    if let Some(one_forward) = from.offset(0, move_direction) {
        if board.get_square(one_forward).is_empty() {
            push_board(boards, board.clone_move_piece(from, one_forward));
            if from.rank() == start_rank {
                if let Some(two_forward) = from.offset(0, 2 * move_direction) {
                    if board.get_square(two_forward).is_empty() {
                        push_board(boards, board.clone_move_piece(from, two_forward));
                    }
                }
            }
        }
    }
}

/// Appends the captures of the pawn on `from` towards one side.
fn add_pawn_captures(
    board: &Board,
    from: Coordinates,
    color: Color,
    file_offset: i8,
    boards: &mut Vec<Board>,
)
    ensures
        final(boards).deep_view() == old(boards).deep_view() + pawn_captures(
            board@,
            from,
            color,
            file_offset as int,
        ),
{
    let move_direction: i8 = match color {
        Color::White => 1,
        Color::Black => -1,
    };
    if let Some(to) = from.offset(file_offset, move_direction) {
        if let Square::Occupied(Piece(piece_color, _)) = board.get_square(to) {
            if piece_color != color {
                push_board(boards, board.clone_move_piece(from, to));
            }
        }
        if board.is_en_passant_capturable(to) {
            push_board(boards, board.clone_move_piece(from, to));
        }
    }
}

/// Appends the moves of the pawn on `from`.
pub fn add_pawn_moves(board: &Board, from: Coordinates, color: Color, boards: &mut Vec<Board>)
    ensures
        final(boards).deep_view() == old(boards).deep_view() + pawn_moves(board@, from, color),
{
    add_pawn_advances(board, from, color, boards);
    add_pawn_captures(board, from, color, -1, boards);
    add_pawn_captures(board, from, color, 1, boards);
    proof {
        lemma_append_three(
            old(boards).deep_view(),
            pawn_advances(board@, from, color),
            pawn_captures(board@, from, color, -1),
            pawn_captures(board@, from, color, 1),
        );
    }
}

/// Appends the moves of whatever stands on `from`, if it is of the given
/// color.
fn add_piece_moves(board: &Board, from: Coordinates, color: Color, boards: &mut Vec<Board>)
    ensures
        final(boards).deep_view() == old(boards).deep_view() + piece_moves(board@, from, color),
{
    match board.get_square(from) {
        Square::Occupied(Piece(piece_color, kind)) => {
            if piece_color == color {
                match kind {
                    Kind::Rook => add_rook_moves(board, from, color, boards),
                    Kind::Knight => add_knight_moves(board, from, color, boards),
                    Kind::Bishop => add_bishop_moves(board, from, color, boards),
                    Kind::Queen => add_queen_moves(board, from, color, boards),
                    Kind::King => add_king_moves(board, from, color, boards),
                    Kind::Pawn => add_pawn_moves(board, from, color, boards),
                }
            } else {
                assert(boards.deep_view() =~= old(boards).deep_view() + Seq::<BoardView>::empty());
            }
        },
        Square::Empty => {
            assert(boards.deep_view() =~= old(boards).deep_view() + Seq::<BoardView>::empty());
        },
    }
}

/// Every position that a move of the given color leads to by the rules of
/// movement alone.
pub fn pseudo_legal_boards(board: &Board, color: Color) -> (r: Vec<Board>)
    ensures
        r.deep_view() == pseudo_legal_moves(board@, color),
{
    let mut boards: Vec<Board> = Vec::new();
    let mut i: usize = 0;
    while i < 64
        invariant
            i <= 64,
            boards.deep_view() == moves_of_first(board@, color, i as nat),
        decreases 64 - i,
    {
        let from = Coordinates::new_from_index(i).unwrap();
        add_piece_moves(board, from, color, &mut boards);
        i = i + 1;
    }
    boards
}

/// The boards of a list in which the given color is not in check.
pub fn keep_unchecked(boards: &Vec<Board>, color: Color) -> (r: Vec<Board>)
    ensures
        r.deep_view() == boards.deep_view().filter(king_is_safe(color)),
{
    let mut kept: Vec<Board> = Vec::new();
    let mut i: usize = 0;
    proof {
        reveal(Seq::filter);
    }
    while i < boards.len()
        invariant
            i <= boards.len(),
            kept.deep_view() == boards.deep_view().take(i as int).filter(king_is_safe(color)),
        decreases boards.len() - i,
    {
        let candidate = boards[i];
        let checked = is_checked(&candidate, color);
        proof {
            reveal(Seq::filter);
            let next = boards.deep_view().take(i + 1);
            assert(next.drop_last() =~= boards.deep_view().take(i as int));
        }
        if !checked {
            push_board(&mut kept, candidate);
        }
        i = i + 1;
    }
    assert(boards.deep_view().take(i as int) =~= boards.deep_view());
    kept
}

/// Every position that a legal move of the given color leads to, in the
/// order of the moving pieces' squares and of each piece's rules.
pub fn next_boards(board: &Board, color: Color) -> (r: Vec<Board>)
    ensures
        r.deep_view() == legal_moves(board@, color),
{
    let boards = pseudo_legal_boards(board, color);
    keep_unchecked(&boards, color)
}

} // verus!
