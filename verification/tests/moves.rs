use chess_rules::board::{Board, CastlingSide, Color, Coordinates, File, Kind, Piece, Rank, Square};
use chess_rules::engine::{is_checked, is_threatened_by, next_boards, score_board};

fn at(file: File, rank: Rank) -> Coordinates {
    Coordinates::new(file, rank)
}

fn put(board: &mut Board, file: File, rank: Rank, color: Color, kind: Kind) {
    board.set_square(at(file, rank), Square::Occupied(Piece(color, kind)));
}

#[test]
fn test_opening_moves() {
    let mut board = Board::new();
    board.setup();
    assert_eq!(20, next_boards(&board, Color::White).len());
}

#[test]
fn opening_moves_for_black() {
    let board = Board::default();
    assert_eq!(20, next_boards(&board, Color::Black).len());
}

#[test]
fn test_en_passant() {
    let mut board = Board::new();
    put(&mut board, File::A, Rank::R2, Color::White, Kind::Pawn);
    put(&mut board, File::B, Rank::R4, Color::Black, Kind::Pawn);

    let mut found = false;
    for next_board in next_boards(&board, Color::White) {
        for reply in next_boards(&next_board, Color::Black) {
            if reply
                .get_square(at(File::A, Rank::R3))
                .is_occupied_by(Piece(Color::Black, Kind::Pawn))
            {
                found = true;
                assert!(reply.get_square(at(File::A, Rank::R4)).is_empty());
                assert!(reply.get_square(at(File::B, Rank::R4)).is_empty());
            }
        }
    }
    assert_eq!(true, found);
}

#[test]
fn two_square_advance_sets_the_en_passant_target_for_one_ply() {
    let mut board = Board::new();
    put(&mut board, File::A, Rank::R2, Color::White, Kind::Pawn);
    put(&mut board, File::H, Rank::R7, Color::Black, Kind::Pawn);
    let advanced = board.clone_move_piece(at(File::A, Rank::R2), at(File::A, Rank::R4));
    assert!(advanced.is_en_passant_capturable(at(File::A, Rank::R3)));
    let reply = advanced.clone_move_piece(at(File::H, Rank::R7), at(File::H, Rank::R6));
    assert!(!reply.is_en_passant_capturable(at(File::A, Rank::R3)));
    for index in 0..64 {
        let c = Coordinates::new_from_index(index).unwrap();
        assert!(!reply.is_en_passant_capturable(c));
    }
}

#[test]
fn test_check() {
    let mut board = Board::new();
    put(&mut board, File::E, Rank::R4, Color::Black, Kind::King);
    put(&mut board, File::D, Rank::R8, Color::White, Kind::Rook);
    put(&mut board, File::F, Rank::R1, Color::White, Kind::Rook);
    assert_eq!(2, next_boards(&board, Color::Black).len());

    put(&mut board, File::A, Rank::R8, Color::White, Kind::Bishop);
    put(&mut board, File::B, Rank::R7, Color::Black, Kind::Rook);
    assert_eq!(2, next_boards(&board, Color::Black).len());
}

#[test]
fn test_score() {
    let mut board = Board::new();
    assert_eq!(0, score_board(&board));

    board.setup();
    assert_eq!(0, score_board(&board));

    board.set_square(at(File::A, Rank::R1), Square::Empty);
    assert_eq!(true, score_board(&board) < 0);
    assert_eq!(-5, score_board(&board));

    board.set_square(at(File::A, Rank::R8), Square::Empty);
    assert_eq!(0, score_board(&board));

    board.set_square(at(File::A, Rank::R7), Square::Empty);
    assert_eq!(true, score_board(&board) > 0);
    assert_eq!(1, score_board(&board));
}

#[test]
fn castling_on_the_king_side() {
    let mut board = Board::new();
    board.set_castling_allowed(Color::White, CastlingSide::King, true);
    put(&mut board, File::E, Rank::R1, Color::White, Kind::King);
    put(&mut board, File::H, Rank::R1, Color::White, Kind::Rook);
    let castled = |b: &Board| {
        b.get_square(at(File::G, Rank::R1)).is_occupied_by(Piece(Color::White, Kind::King))
            && b.get_square(at(File::F, Rank::R1)).is_occupied_by(Piece(Color::White, Kind::Rook))
            && !b.is_castling_allowed(Color::White, CastlingSide::King)
            && !b.is_castling_allowed(Color::White, CastlingSide::Queen)
    };
    assert_eq!(true, next_boards(&board, Color::White).iter().any(castled));

    put(&mut board, File::G, Rank::R8, Color::Black, Kind::Rook);
    assert_eq!(false, next_boards(&board, Color::White).iter().any(castled));
    assert!(is_threatened_by(&board, at(File::G, Rank::R1), Color::Black));
    assert!(!is_checked(&board, Color::White));
}

#[test]
fn knight_in_the_corner_has_two_moves() {
    let mut board = Board::new();
    put(&mut board, File::A, Rank::R1, Color::White, Kind::Knight);
    let moves = next_boards(&board, Color::White);
    assert_eq!(2, moves.len());
    assert!(moves[0].get_square(at(File::B, Rank::R3)).is_occupied_by(Piece(Color::White, Kind::Knight)));
    assert!(moves[1].get_square(at(File::C, Rank::R2)).is_occupied_by(Piece(Color::White, Kind::Knight)));
    assert!(next_boards(&board, Color::Black).is_empty());
}

#[test]
fn rook_slides_until_blocked_or_capturing() {
    let mut board = Board::new();
    put(&mut board, File::A, Rank::R1, Color::White, Kind::Rook);
    put(&mut board, File::A, Rank::R4, Color::Black, Kind::Pawn);
    put(&mut board, File::D, Rank::R1, Color::White, Kind::Knight);
    let moves: Vec<Board> = next_boards(&board, Color::White)
        .into_iter()
        .filter(|b| b.get_square(at(File::A, Rank::R1)).is_empty())
        .collect();
    assert_eq!(5, moves.len());
    assert!(moves[0].get_square(at(File::A, Rank::R2)).is_occupied_by(Piece(Color::White, Kind::Rook)));
    assert!(moves[1].get_square(at(File::A, Rank::R3)).is_occupied_by(Piece(Color::White, Kind::Rook)));
    assert!(moves[2].get_square(at(File::A, Rank::R4)).is_occupied_by(Piece(Color::White, Kind::Rook)));
    assert!(moves[3].get_square(at(File::B, Rank::R1)).is_occupied_by(Piece(Color::White, Kind::Rook)));
    assert!(moves[4].get_square(at(File::C, Rank::R1)).is_occupied_by(Piece(Color::White, Kind::Rook)));
}

#[test]
fn queen_moves_like_rook_and_bishop() {
    let mut board = Board::new();
    put(&mut board, File::D, Rank::R4, Color::Black, Kind::Queen);
    assert_eq!(27, next_boards(&board, Color::Black).len());
    let mut board = Board::new();
    put(&mut board, File::D, Rank::R4, Color::Black, Kind::Rook);
    assert_eq!(14, next_boards(&board, Color::Black).len());
    let mut board = Board::new();
    put(&mut board, File::D, Rank::R4, Color::Black, Kind::Bishop);
    assert_eq!(13, next_boards(&board, Color::Black).len());
}

#[test]
fn pawn_advances_and_captures() {
    let mut board = Board::new();
    put(&mut board, File::C, Rank::R2, Color::White, Kind::Pawn);
    assert_eq!(2, next_boards(&board, Color::White).len());

    put(&mut board, File::C, Rank::R4, Color::Black, Kind::Knight);
    assert_eq!(1, next_boards(&board, Color::White).len());

    put(&mut board, File::C, Rank::R3, Color::Black, Kind::Knight);
    assert_eq!(0, next_boards(&board, Color::White).len());

    put(&mut board, File::B, Rank::R3, Color::Black, Kind::Knight);
    put(&mut board, File::D, Rank::R3, Color::White, Kind::Knight);
    let captures: Vec<Board> = next_boards(&board, Color::White)
        .into_iter()
        .filter(|b| b.get_square(at(File::C, Rank::R2)).is_empty())
        .collect();
    assert_eq!(1, captures.len());
    assert!(captures[0].get_square(at(File::B, Rank::R3)).is_occupied_by(Piece(Color::White, Kind::Pawn)));
}

#[test]
fn pawn_off_its_starting_rank_steps_once() {
    let mut board = Board::new();
    put(&mut board, File::C, Rank::R3, Color::White, Kind::Pawn);
    assert_eq!(1, next_boards(&board, Color::White).len());
    let mut board = Board::new();
    put(&mut board, File::C, Rank::R7, Color::Black, Kind::Pawn);
    assert_eq!(2, next_boards(&board, Color::Black).len());
    let mut board = Board::new();
    put(&mut board, File::C, Rank::R6, Color::Black, Kind::Pawn);
    let moves = next_boards(&board, Color::Black);
    assert_eq!(1, moves.len());
    assert!(moves[0].get_square(at(File::C, Rank::R5)).is_occupied_by(Piece(Color::Black, Kind::Pawn)));
}

#[test]
fn pawn_on_the_last_rank_stays_a_pawn_without_moves() {
    let mut board = Board::new();
    put(&mut board, File::C, Rank::R8, Color::White, Kind::Pawn);
    assert_eq!(0, next_boards(&board, Color::White).len());
    let mut board = Board::new();
    put(&mut board, File::C, Rank::R7, Color::White, Kind::Pawn);
    let moves = next_boards(&board, Color::White);
    assert_eq!(1, moves.len());
    assert!(moves[0].get_square(at(File::C, Rank::R8)).is_occupied_by(Piece(Color::White, Kind::Pawn)));
}

#[test]
fn king_has_eight_steps_in_the_open() {
    let mut board = Board::new();
    put(&mut board, File::D, Rank::R4, Color::White, Kind::King);
    assert_eq!(8, next_boards(&board, Color::White).len());
    let mut board = Board::new();
    put(&mut board, File::A, Rank::R1, Color::White, Kind::King);
    assert_eq!(3, next_boards(&board, Color::White).len());
}

#[test]
fn castling_on_the_queen_side() {
    let mut board = Board::new();
    board.set_castling_allowed(Color::White, CastlingSide::Queen, true);
    put(&mut board, File::E, Rank::R1, Color::White, Kind::King);
    put(&mut board, File::A, Rank::R1, Color::White, Kind::Rook);
    let castled = |b: &Board| {
        b.get_square(at(File::C, Rank::R1)).is_occupied_by(Piece(Color::White, Kind::King))
            && b.get_square(at(File::D, Rank::R1)).is_occupied_by(Piece(Color::White, Kind::Rook))
            && b.get_square(at(File::A, Rank::R1)).is_empty()
            && b.get_square(at(File::E, Rank::R1)).is_empty()
            && !b.is_castling_allowed(Color::White, CastlingSide::King)
            && !b.is_castling_allowed(Color::White, CastlingSide::Queen)
    };
    assert_eq!(1, next_boards(&board, Color::White).iter().filter(|b| castled(b)).count());

    put(&mut board, File::B, Rank::R8, Color::Black, Kind::Rook);
    assert_eq!(0, next_boards(&board, Color::White).iter().filter(|b| castled(b)).count());
}

#[test]
fn threats_of_each_kind_of_piece() {
    let mut board = Board::new();
    put(&mut board, File::D, Rank::R4, Color::White, Kind::King);
    assert!(is_threatened_by(&board, at(File::E, Rank::R5), Color::White));
    assert!(is_threatened_by(&board, at(File::D, Rank::R3), Color::White));
    assert!(!is_threatened_by(&board, at(File::D, Rank::R6), Color::White));
    assert!(!is_threatened_by(&board, at(File::D, Rank::R4), Color::White));

    let mut board = Board::new();
    put(&mut board, File::D, Rank::R4, Color::Black, Kind::Knight);
    assert!(is_threatened_by(&board, at(File::E, Rank::R6), Color::Black));
    assert!(is_threatened_by(&board, at(File::B, Rank::R3), Color::Black));
    assert!(!is_threatened_by(&board, at(File::D, Rank::R5), Color::Black));
    assert!(!is_threatened_by(&board, at(File::E, Rank::R6), Color::White));

    let mut board = Board::new();
    put(&mut board, File::D, Rank::R4, Color::Black, Kind::Rook);
    assert!(is_threatened_by(&board, at(File::D, Rank::R8), Color::Black));
    assert!(is_threatened_by(&board, at(File::A, Rank::R4), Color::Black));
    assert!(!is_threatened_by(&board, at(File::E, Rank::R5), Color::Black));
    put(&mut board, File::D, Rank::R6, Color::Black, Kind::Pawn);
    assert!(!is_threatened_by(&board, at(File::D, Rank::R8), Color::Black));
    assert!(is_threatened_by(&board, at(File::D, Rank::R6), Color::Black));

    let mut board = Board::new();
    put(&mut board, File::D, Rank::R4, Color::White, Kind::Queen);
    assert!(is_threatened_by(&board, at(File::D, Rank::R8), Color::White));
    assert!(is_threatened_by(&board, at(File::H, Rank::R8), Color::White));
    assert!(is_threatened_by(&board, at(File::A, Rank::R1), Color::White));
    assert!(!is_threatened_by(&board, at(File::E, Rank::R6), Color::White));
}

#[test]
fn check_goes_by_the_first_king_found() {
    let mut board = Board::new();
    put(&mut board, File::A, Rank::R1, Color::White, Kind::King);
    put(&mut board, File::H, Rank::R8, Color::White, Kind::King);
    put(&mut board, File::H, Rank::R1, Color::Black, Kind::Rook);
    assert!(is_checked(&board, Color::White));
    let mut board = Board::new();
    put(&mut board, File::A, Rank::R1, Color::White, Kind::King);
    put(&mut board, File::H, Rank::R8, Color::White, Kind::King);
    put(&mut board, File::H, Rank::R2, Color::Black, Kind::Rook);
    assert!(!is_checked(&board, Color::White));
}

#[test]
fn material_counts_each_kind() {
    let values = [
        (Kind::Pawn, 1),
        (Kind::Knight, 3),
        (Kind::Bishop, 3),
        (Kind::Rook, 5),
        (Kind::Queen, 9),
        (Kind::King, 0),
    ];
    for (kind, value) in values {
        let mut board = Board::new();
        put(&mut board, File::D, Rank::R4, Color::White, kind);
        assert_eq!(value, score_board(&board));
        put(&mut board, File::D, Rank::R4, Color::Black, kind);
        assert_eq!(-value, score_board(&board));
    }
    let mut board = Board::new();
    for index in 0..64 {
        board.set_square(
            Coordinates::new_from_index(index).unwrap(),
            Square::Occupied(Piece(Color::Black, Kind::Queen)),
        );
    }
    assert_eq!(-576, score_board(&board));
}
