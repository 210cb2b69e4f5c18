use chess_rules::board::{
    Board, CastlingSide, Color, Coordinates, File, Kind, Piece, Position, Rank, Square,
};

fn at(file: File, rank: Rank) -> Coordinates {
    Coordinates::new(file, rank)
}

fn piece(color: Color, kind: Kind) -> Square {
    Square::Occupied(Piece(color, kind))
}

#[test]
fn color_opposite_is_an_involution() {
    assert_eq!(Color::Black, Color::White.opposite());
    assert_eq!(Color::White, Color::Black.opposite());
    assert_eq!(Color::White, Color::White.opposite().opposite());
    assert_eq!(Color::Black, Color::Black.opposite().opposite());
}

#[test]
fn square_tells_what_stands_on_it() {
    let rook = Piece(Color::White, Kind::Rook);
    assert!(Square::Empty.is_empty());
    assert!(!Square::Occupied(rook).is_empty());
    assert!(Square::Occupied(rook).is_occupied_by(rook));
    assert!(!Square::Occupied(rook).is_occupied_by(Piece(Color::Black, Kind::Rook)));
    assert!(!Square::Occupied(rook).is_occupied_by(Piece(Color::White, Kind::Queen)));
    assert!(!Square::Empty.is_occupied_by(rook));
}

#[test]
fn glyphs_of_pieces_and_squares() {
    assert_eq!("♖", Piece(Color::White, Kind::Rook).to_string());
    assert_eq!("♘", Piece(Color::White, Kind::Knight).to_string());
    assert_eq!("♗", Piece(Color::White, Kind::Bishop).to_string());
    assert_eq!("♕", Piece(Color::White, Kind::Queen).to_string());
    assert_eq!("♔", Piece(Color::White, Kind::King).to_string());
    assert_eq!("♙", Piece(Color::White, Kind::Pawn).to_string());
    assert_eq!("♜", Piece(Color::Black, Kind::Rook).to_string());
    assert_eq!("♞", Piece(Color::Black, Kind::Knight).to_string());
    assert_eq!("♝", Piece(Color::Black, Kind::Bishop).to_string());
    assert_eq!("♛", Piece(Color::Black, Kind::Queen).to_string());
    assert_eq!("♚", Piece(Color::Black, Kind::King).to_string());
    assert_eq!("♟︎", Piece(Color::Black, Kind::Pawn).to_string());
    assert_eq!(2, Piece(Color::Black, Kind::Pawn).to_string().chars().count());
    assert_eq!(" ", Square::Empty.to_string());
    assert_eq!("♛", piece(Color::Black, Kind::Queen).to_string());
}

#[test]
fn ranks_and_files_by_number() {
    assert_eq!(Some(Rank::R1), Rank::new_from_index(0));
    assert_eq!(Some(Rank::R8), Rank::new_from_index(7));
    assert_eq!(None, Rank::new_from_index(8));
    assert_eq!(None, Rank::new_from_index(255));
    assert_eq!(Some(File::A), File::new_from_index(0));
    assert_eq!(Some(File::H), File::new_from_index(7));
    assert_eq!(None, File::new_from_index(8));
    for index in 0..8u8 {
        assert_eq!(index, Rank::new_from_index(index).unwrap().index());
        assert_eq!(index, File::new_from_index(index).unwrap().index());
    }
    assert_eq!("5", Rank::R5.to_string());
    assert_eq!("c", File::C.to_string());
}

#[test]
fn coordinates_have_a_flat_index() {
    assert_eq!(0, at(File::A, Rank::R1).index());
    assert_eq!(7, at(File::H, Rank::R1).index());
    assert_eq!(8, at(File::A, Rank::R2).index());
    assert_eq!(28, at(File::E, Rank::R4).index());
    assert_eq!(63, at(File::H, Rank::R8).index());
    assert_eq!(Some(at(File::E, Rank::R4)), Coordinates::new_from_index(28));
    assert_eq!(None, Coordinates::new_from_index(64));
    assert_eq!(None, Coordinates::new_from_index(usize::MAX));
    for index in 0..64 {
        assert_eq!(index, Coordinates::new_from_index(index).unwrap().index());
    }
    assert_eq!(File::E, at(File::E, Rank::R4).file());
    assert_eq!(Rank::R4, at(File::E, Rank::R4).rank());
    assert_eq!("e4", at(File::E, Rank::R4).to_string());
    assert_eq!("a8", at(File::A, Rank::R8).to_string());
}

#[test]
fn offsets_stay_on_the_board_or_give_nothing() {
    let e4 = at(File::E, Rank::R4);
    assert_eq!(Some(e4), e4.offset(0, 0));
    assert_eq!(Some(at(File::F, Rank::R6)), e4.offset(1, 2));
    assert_eq!(Some(at(File::A, Rank::R1)), e4.offset(-4, -3));
    assert_eq!(Some(at(File::H, Rank::R8)), e4.offset(3, 4));
    assert_eq!(None, e4.offset(-5, 0));
    assert_eq!(None, e4.offset(4, 0));
    assert_eq!(None, e4.offset(0, -4));
    assert_eq!(None, e4.offset(0, 5));
    assert_eq!(None, at(File::H, Rank::R8).offset(127, 127));
    assert_eq!(None, at(File::A, Rank::R1).offset(-128, -128));
}

#[test]
fn offsets_filter_keeps_the_order_and_drops_what_falls_off() {
    let a1 = at(File::A, Rank::R1);
    let table = [(-1, 0), (1, 2), (0, -1), (2, 1), (0, 0)];
    assert_eq!(
        vec![at(File::B, Rank::R3), at(File::C, Rank::R2), a1],
        a1.offsets_filter(&table)
    );
    assert!(a1.offsets_filter(&[]).is_empty());
}

#[test]
fn offsets_repeated_walks_to_the_edge() {
    let c3 = at(File::C, Rank::R3);
    assert_eq!(
        vec![
            at(File::D, Rank::R4),
            at(File::E, Rank::R5),
            at(File::F, Rank::R6),
            at(File::G, Rank::R7),
            at(File::H, Rank::R8)
        ],
        c3.offsets_repeated(1, 1)
    );
    assert_eq!(vec![at(File::B, Rank::R3), at(File::A, Rank::R3)], c3.offsets_repeated(-1, 0));
    assert_eq!(vec![at(File::E, Rank::R4), at(File::G, Rank::R5)], c3.offsets_repeated(2, 1));
    assert!(at(File::H, Rank::R1).offsets_repeated(1, 0).is_empty());
    assert_eq!(7, at(File::A, Rank::R1).offsets_repeated(1, 1).len());
    assert!(c3.offsets_repeated(100, 0).is_empty());
}

#[test]
fn positions_by_rank_and_file() {
    assert_eq!(Some(Position { rank: 3, file: 4 }), Position::new(3, 4));
    assert_eq!(None, Position::new(8, 0));
    assert_eq!(None, Position::new(0, 8));
    assert_eq!(Some(Position { rank: 3, file: 4 }), Position::new_from_index(28));
    assert_eq!(None, Position::new_from_index(64));
    let e4 = Position::new(3, 4).unwrap();
    assert_eq!(28, e4.index());
    assert_eq!(at(File::E, Rank::R4).index(), e4.index());
    assert_eq!(Some(Position { rank: 5, file: 5 }), e4.offset(2, 1));
    assert_eq!(None, e4.offset(-4, 0));
    assert_eq!(None, e4.offset(0, 4));
    assert_eq!(None, e4.offset(127, 127));
}

#[test]
fn new_board_is_empty() {
    let board = Board::new();
    assert_eq!(64, board.squares().len());
    assert!(board.squares().iter().all(|square| square.is_empty()));
    for color in [Color::White, Color::Black] {
        for side in [CastlingSide::King, CastlingSide::Queen] {
            assert!(!board.is_castling_allowed(color, side));
        }
    }
    for index in 0..64 {
        assert!(!board.is_en_passant_capturable(Coordinates::new_from_index(index).unwrap()));
    }
}

#[test]
fn setup_lays_out_the_pieces_and_keeps_the_middle() {
    let mut board = Board::new();
    board.set_square(at(File::D, Rank::R4), piece(Color::White, Kind::Queen));
    board.set_en_passant_capturable(Some(at(File::D, Rank::R3)));
    board.setup();
    let kinds = [
        Kind::Rook,
        Kind::Knight,
        Kind::Bishop,
        Kind::Queen,
        Kind::King,
        Kind::Bishop,
        Kind::Knight,
        Kind::Rook,
    ];
    for (file, kind) in kinds.iter().enumerate() {
        let file = File::new_from_index(file as u8).unwrap();
        assert_eq!(piece(Color::White, *kind), board.get_square(at(file, Rank::R1)));
        assert_eq!(piece(Color::White, Kind::Pawn), board.get_square(at(file, Rank::R2)));
        assert_eq!(piece(Color::Black, Kind::Pawn), board.get_square(at(file, Rank::R7)));
        assert_eq!(piece(Color::Black, *kind), board.get_square(at(file, Rank::R8)));
        assert_eq!(Square::Empty, board.get_square(at(file, Rank::R3)));
        assert_eq!(Square::Empty, board.get_square(at(file, Rank::R6)));
    }
    assert_eq!(piece(Color::White, Kind::Queen), board.get_square(at(File::D, Rank::R4)));
    assert!(!board.is_en_passant_capturable(at(File::D, Rank::R3)));
    for color in [Color::White, Color::Black] {
        for side in [CastlingSide::King, CastlingSide::Queen] {
            assert!(board.is_castling_allowed(color, side));
        }
    }
}

#[test]
fn squares_come_with_their_coordinates() {
    let board = Board::default();
    let pairs = board.squares_coordinates_iter();
    assert_eq!(64, pairs.len());
    for (index, (coordinates, square)) in pairs.iter().enumerate() {
        assert_eq!(index, coordinates.index());
        assert_eq!(board.squares()[index], *square);
        assert_eq!(board.get_square(*coordinates), *square);
    }
}

#[test]
fn castling_rights_are_set_one_by_one() {
    let mut board = Board::new();
    board.set_castling_allowed(Color::Black, CastlingSide::Queen, true);
    assert!(board.is_castling_allowed(Color::Black, CastlingSide::Queen));
    assert!(!board.is_castling_allowed(Color::Black, CastlingSide::King));
    assert!(!board.is_castling_allowed(Color::White, CastlingSide::Queen));
    assert!(!board.is_castling_allowed(Color::White, CastlingSide::King));
    board.set_castling_allowed(Color::Black, CastlingSide::Queen, false);
    assert_eq!(Board::new(), board);
}

#[test]
fn move_piece_carries_the_piece_over() {
    let mut board = Board::default();
    board.move_piece(at(File::G, Rank::R1), at(File::F, Rank::R3));
    assert_eq!(Square::Empty, board.get_square(at(File::G, Rank::R1)));
    assert_eq!(piece(Color::White, Kind::Knight), board.get_square(at(File::F, Rank::R3)));
    let start = Board::default();
    let pairs = board.squares_coordinates_iter();
    for (coordinates, square) in pairs {
        if coordinates != at(File::G, Rank::R1) && coordinates != at(File::F, Rank::R3) {
            assert_eq!(start.get_square(coordinates), square);
        }
    }
    let clone = start.clone_move_piece(at(File::G, Rank::R1), at(File::F, Rank::R3));
    assert_eq!(board, clone);
    assert_eq!(Board::default(), start);
}

#[test]
fn moving_king_or_rook_gives_up_castling_rights() {
    let start = Board::default();
    let king_moved = start.clone_move_piece(at(File::E, Rank::R1), at(File::E, Rank::R3));
    assert!(!king_moved.is_castling_allowed(Color::White, CastlingSide::King));
    assert!(!king_moved.is_castling_allowed(Color::White, CastlingSide::Queen));
    assert!(king_moved.is_castling_allowed(Color::Black, CastlingSide::King));
    assert!(king_moved.is_castling_allowed(Color::Black, CastlingSide::Queen));

    let rook_moved = start.clone_move_piece(at(File::H, Rank::R8), at(File::H, Rank::R5));
    assert!(!rook_moved.is_castling_allowed(Color::Black, CastlingSide::King));
    assert!(rook_moved.is_castling_allowed(Color::Black, CastlingSide::Queen));
    assert!(rook_moved.is_castling_allowed(Color::White, CastlingSide::King));

    let back = rook_moved.clone_move_piece(at(File::H, Rank::R5), at(File::H, Rank::R8));
    assert!(!back.is_castling_allowed(Color::Black, CastlingSide::King));

    let queen_rook = start.clone_move_piece(at(File::A, Rank::R1), at(File::A, Rank::R4));
    assert!(!queen_rook.is_castling_allowed(Color::White, CastlingSide::Queen));
    assert!(queen_rook.is_castling_allowed(Color::White, CastlingSide::King));
}

#[test]
fn capturing_a_rook_at_home_takes_its_castling_right() {
    let mut board = Board::default();
    board.set_square(at(File::G, Rank::R2), piece(Color::Black, Kind::Bishop));
    board.move_piece(at(File::G, Rank::R2), at(File::H, Rank::R1));
    assert!(!board.is_castling_allowed(Color::White, CastlingSide::King));
    assert!(board.is_castling_allowed(Color::White, CastlingSide::Queen));
    assert!(board.is_castling_allowed(Color::Black, CastlingSide::King));
    assert_eq!(piece(Color::Black, Kind::Bishop), board.get_square(at(File::H, Rank::R1)));
}

#[test]
fn en_passant_target_is_set_by_a_double_step_only() {
    let start = Board::default();
    let double = start.clone_move_piece(at(File::C, Rank::R7), at(File::C, Rank::R5));
    assert!(double.is_en_passant_capturable(at(File::C, Rank::R6)));
    let single = start.clone_move_piece(at(File::C, Rank::R7), at(File::C, Rank::R6));
    for index in 0..64 {
        assert!(!single.is_en_passant_capturable(Coordinates::new_from_index(index).unwrap()));
    }
    let knight = start.clone_move_piece(at(File::B, Rank::R1), at(File::B, Rank::R3));
    for index in 0..64 {
        assert!(!knight.is_en_passant_capturable(Coordinates::new_from_index(index).unwrap()));
    }
}

#[test]
fn en_passant_capture_removes_the_passed_pawn() {
    let mut board = Board::new();
    board.set_square(at(File::A, Rank::R4), piece(Color::White, Kind::Pawn));
    board.set_square(at(File::B, Rank::R4), piece(Color::Black, Kind::Pawn));
    board.set_en_passant_capturable(Some(at(File::A, Rank::R3)));
    board.move_piece(at(File::B, Rank::R4), at(File::A, Rank::R3));
    assert_eq!(piece(Color::Black, Kind::Pawn), board.get_square(at(File::A, Rank::R3)));
    assert_eq!(Square::Empty, board.get_square(at(File::A, Rank::R4)));
    assert_eq!(Square::Empty, board.get_square(at(File::B, Rank::R4)));
    assert!(!board.is_en_passant_capturable(at(File::A, Rank::R3)));
}

#[test]
fn a_piece_that_is_no_pawn_takes_nothing_en_passant() {
    let mut board = Board::new();
    board.set_square(at(File::A, Rank::R4), piece(Color::White, Kind::Pawn));
    board.set_square(at(File::B, Rank::R4), piece(Color::Black, Kind::Queen));
    board.set_en_passant_capturable(Some(at(File::A, Rank::R3)));
    board.move_piece(at(File::B, Rank::R4), at(File::A, Rank::R3));
    assert_eq!(piece(Color::Black, Kind::Queen), board.get_square(at(File::A, Rank::R3)));
    assert_eq!(piece(Color::White, Kind::Pawn), board.get_square(at(File::A, Rank::R4)));
}

#[test]
fn en_passant_target_on_the_edge_has_nothing_behind_it() {
    let mut board = Board::new();
    board.set_square(at(File::C, Rank::R2), piece(Color::White, Kind::Pawn));
    board.set_en_passant_capturable(Some(at(File::C, Rank::R1)));
    board.move_piece(at(File::C, Rank::R2), at(File::C, Rank::R1));
    assert_eq!(piece(Color::White, Kind::Pawn), board.get_square(at(File::C, Rank::R1)));
    assert_eq!(1, board.squares().iter().filter(|square| !square.is_empty()).count());
}

#[test]
fn positions_have_names_and_coordinates() {
    let e4 = Position::new(3, 4).unwrap();
    assert_eq!(Some(at(File::E, Rank::R4)), e4.coordinates());
    assert_eq!("e4", e4.to_string());
    assert_eq!("a1", Position::new(0, 0).unwrap().to_string());
    assert_eq!("h8", Position::new(7, 7).unwrap().to_string());
    assert_eq!(None, Position { rank: 8, file: 0 }.coordinates());
    assert_eq!(None, Position { rank: 0, file: 200 }.coordinates());
}
