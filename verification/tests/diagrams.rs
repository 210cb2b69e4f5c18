use chess_rules::board::{
    parse_board, Board, CastlingSide, Color, Coordinates, File, Kind, ParseBoardError, Piece, Rank,
    Square,
};
use chess_rules::engine::{is_checked, is_threatened_by, next_boards};

fn at(file: File, rank: Rank) -> Coordinates {
    Coordinates::new(file, rank)
}

const START: &str = "
  +-v-------------v-+
8 | ♜ ♞ ♝ ♛ ♚ ♝ ♞ ♜ |
7 | ♟︎ ♟︎ ♟︎ ♟︎ ♟︎ ♟︎ ♟︎ ♟︎ |
6 |                 |
5 |                 |
4 |                 |
3 |                 |
2 | ♙ ♙ ♙ ♙ ♙ ♙ ♙ ♙ |
1 | ♖ ♘ ♗ ♕ ♔ ♗ ♘ ♖ |
  +-v-------------v-+
    a b c d e f g h";

#[test]
fn test_display_board() {
    let mut board = Board::new();
    board.setup();
    assert_eq!(String::from(board.to_string().trim()), String::from(START.trim()));
}

#[test]
fn display_ends_with_a_line_break() {
    let board = Board::default();
    let text = board.to_string();
    assert!(text.starts_with("  +-v"));
    assert!(text.ends_with("a b c d e f g h\n"));
    assert_eq!(11, text.lines().count());
}

#[test]
fn test_board_parser() {
    let board_data = "
  +-v-------------v-+
8 | ♜ ♞ ♝ ♛ ♚ ♝ ♞ ♜ |
7 | ♟︎ ♟︎ ♟︎ ♟︎ ♟︎   ♟︎ ♟︎ |
6 |                 |
5 |     ♕           |
4 |             ♙   |
3 |             *   |
2 | ♙ ♙ ♙ ♙ ♙ ♙   ♙ |
1 | ♖ ♘ ♗ ♕ ♔ ♗ ♘ ♖ |
  +-v---------------+
    a b c d e f g h";

    let board: Result<Board, ParseBoardError> = board_data.parse();
    assert_eq!(
        board.map(|board| String::from(board.to_string().trim())),
        Ok(String::from(board_data.trim()))
    );
}

#[test]
fn parser_reads_squares_rights_and_target() {
    let board = parse_board(
        "
  +-v-------------v-+
8 | ♜ ♞ ♝ ♛ ♚ ♝ ♞ ♜ |
7 | ♟︎ ♟︎ ♟︎ ♟︎ ♟︎   ♟︎ ♟︎ |
6 |                 |
5 |     ♕           |
4 |             ♙   |
3 |             *   |
2 | ♙ ♙ ♙ ♙ ♙ ♙   ♙ |
1 | ♖ ♘ ♗ ♕ ♔ ♗ ♘ ♖ |
  +-v---------------+
    a b c d e f g h",
    )
    .unwrap();
    assert_eq!(
        Square::Occupied(Piece(Color::White, Kind::Queen)),
        board.get_square(at(File::C, Rank::R5))
    );
    assert_eq!(
        Square::Occupied(Piece(Color::Black, Kind::Pawn)),
        board.get_square(at(File::A, Rank::R7))
    );
    assert_eq!(Square::Empty, board.get_square(at(File::F, Rank::R7)));
    assert_eq!(Square::Empty, board.get_square(at(File::G, Rank::R3)));
    assert!(board.is_en_passant_capturable(at(File::G, Rank::R3)));
    assert!(!board.is_en_passant_capturable(at(File::G, Rank::R4)));
    assert!(board.is_castling_allowed(Color::Black, CastlingSide::Queen));
    assert!(board.is_castling_allowed(Color::Black, CastlingSide::King));
    assert!(board.is_castling_allowed(Color::White, CastlingSide::Queen));
    assert!(!board.is_castling_allowed(Color::White, CastlingSide::King));
}

#[test]
fn parser_reads_the_start_position() {
    assert_eq!(Ok(Board::default()), parse_board(START));
    assert_eq!(Ok(Board::default()), START.parse::<Board>());
}

#[test]
fn parser_round_trip_from_board() {
    let mut board = Board::default();
    board.move_piece(at(File::E, Rank::R2), at(File::E, Rank::R4));
    board.move_piece(at(File::G, Rank::R8), at(File::F, Rank::R6));
    board.move_piece(at(File::E, Rank::R1), at(File::E, Rank::R2));
    assert_eq!(Ok(board), parse_board(&board.to_string()));
    let mut advanced = Board::default();
    advanced.move_piece(at(File::D, Rank::R7), at(File::D, Rank::R5));
    assert!(advanced.is_en_passant_capturable(at(File::D, Rank::R6)));
    assert_eq!(Ok(advanced), parse_board(&advanced.to_string()));
}

#[test]
fn parser_rejects_wrong_line_count() {
    assert_eq!(Err(ParseBoardError::LineCount), parse_board(""));
    assert_eq!(Err(ParseBoardError::LineCount), parse_board("+-v-------------v-+"));
    let twelve = format!("{}\nmore", START);
    assert_eq!(Err(ParseBoardError::LineCount), parse_board(&twelve));
}

#[test]
fn parser_rejects_malformed_border() {
    let bad_mark = START.replacen("+-v", "+-x", 1);
    assert_eq!(Err(ParseBoardError::Border), parse_board(&bad_mark));
    let short = START.replacen("-------------", "------------", 1);
    assert_eq!(Err(ParseBoardError::Border), parse_board(&short));
    let bad_footer = START.replace("  +-v-------------v-+\n    a", "  +-v-------------v-+x\n    a");
    assert_eq!(Err(ParseBoardError::Border), parse_board(&bad_footer));
}

#[test]
fn parser_rejects_unknown_glyph() {
    let bad = START.replacen("♛", "Q", 1);
    assert_eq!(Err(ParseBoardError::Glyph), parse_board(&bad));
    let bare_pawn = START.replacen("♟︎", "♟", 1);
    assert_eq!(Err(ParseBoardError::Glyph), parse_board(&bare_pawn));
}

#[test]
fn parser_rejects_wrong_rank_label_and_frame() {
    let bad_label = START.replacen("6 |", "5 |", 1);
    assert_eq!(Err(ParseBoardError::RankLabel), parse_board(&bad_label));
    let no_edge = START.replacen("6 |", "6 !", 1);
    assert_eq!(Err(ParseBoardError::Frame), parse_board(&no_edge));
    let long = START.replacen("♜ |", "♜ | x", 1);
    assert_eq!(Err(ParseBoardError::Frame), parse_board(&long));
    let no_blank = START.replacen("♜ ♞", "♜♞", 1);
    assert_eq!(Err(ParseBoardError::Frame), parse_board(&no_blank));
}

#[test]
fn error_messages_are_descriptive() {
    assert_eq!("Invalid number of lines for board", ParseBoardError::LineCount.to_string());
    assert!(ParseBoardError::Border.to_string().contains("border"));
    assert!(ParseBoardError::Glyph.to_string().contains("piece"));
    assert!(ParseBoardError::RankLabel.to_string().contains("rank"));
    assert!(ParseBoardError::Frame.to_string().contains("edge"));
}

#[test]
fn test_threats() {
    let board: Board = "
      +-----------------+
    8 |                 |
    7 |                 |
    6 |                 |
    5 |                 |
    4 |                 |
    3 |                 |
    2 | ♙               |
    1 |                 |
      +-----------------+
        a b c d e f g h"
        .parse()
        .unwrap();
    assert_eq!(true, is_threatened_by(&board, at(File::B, Rank::R3), Color::White));

    let board: Board = "
      +-----------------+
    8 |                 |
    7 |                 |
    6 |           ♟︎     |
    5 |                 |
    4 |                 |
    3 |                 |
    2 | ♙               |
    1 |                 |
      +-----------------+
        a b c d e f g h"
        .parse()
        .unwrap();
    assert_eq!(true, is_threatened_by(&board, at(File::G, Rank::R5), Color::Black));
    assert_eq!(false, is_threatened_by(&board, at(File::G, Rank::R5), Color::White));

    let board: Board = "
      +-----------------+
    8 |                 |
    7 |                 |
    6 |                 |
    5 |                 |
    4 |                 |
    3 |                 |
    2 |                 |
    1 | ♗               |
      +-----------------+
        a b c d e f g h"
        .parse()
        .unwrap();
    assert_eq!(true, is_threatened_by(&board, at(File::E, Rank::R5), Color::White));
    assert_eq!(false, is_threatened_by(&board, at(File::F, Rank::R5), Color::White));

    let board: Board = "
      +-----------------+
    8 |                 |
    7 |                 |
    6 |                 |
    5 |                 |
    4 |                 |
    3 |     ♙           |
    2 |                 |
    1 | ♗               |
      +-----------------+
        a b c d e f g h"
        .parse()
        .unwrap();
    assert_eq!(false, is_threatened_by(&board, at(File::E, Rank::R5), Color::White));
}

#[test]
fn pawn_threats_follow_the_pawns_direction() {
    let mut board = Board::new();
    board.set_square(at(File::A, Rank::R2), Square::Occupied(Piece(Color::White, Kind::Pawn)));
    assert!(is_threatened_by(&board, at(File::B, Rank::R3), Color::White));
    assert!(!is_threatened_by(&board, at(File::B, Rank::R3), Color::Black));
    assert!(!is_threatened_by(&board, at(File::B, Rank::R1), Color::White));

    let mut board = Board::new();
    board.set_square(at(File::G, Rank::R6), Square::Occupied(Piece(Color::Black, Kind::Pawn)));
    assert!(is_threatened_by(&board, at(File::F, Rank::R5), Color::Black));
    assert!(is_threatened_by(&board, at(File::H, Rank::R5), Color::Black));
    assert!(!is_threatened_by(&board, at(File::F, Rank::R5), Color::White));
    assert!(!is_threatened_by(&board, at(File::F, Rank::R7), Color::Black));
}

#[test]
fn a_blocker_of_either_color_ends_the_diagonal() {
    for color in [Color::White, Color::Black] {
        let mut board = Board::new();
        board.set_square(at(File::A, Rank::R1), Square::Occupied(Piece(Color::White, Kind::Bishop)));
        assert!(is_threatened_by(&board, at(File::E, Rank::R5), Color::White));
        board.set_square(at(File::C, Rank::R3), Square::Occupied(Piece(color, Kind::Knight)));
        assert!(!is_threatened_by(&board, at(File::E, Rank::R5), Color::White));
        assert!(is_threatened_by(&board, at(File::B, Rank::R2), Color::White));
        assert!(is_threatened_by(&board, at(File::C, Rank::R3), Color::White));
    }
}

fn white_has_castled_short(board: &Board) -> bool {
    board.get_square(at(File::G, Rank::R1)).is_occupied_by(Piece(Color::White, Kind::King))
        && board.get_square(at(File::F, Rank::R1)).is_occupied_by(Piece(Color::White, Kind::Rook))
        && !board.is_castling_allowed(Color::White, CastlingSide::King)
        && !board.is_castling_allowed(Color::White, CastlingSide::Queen)
}

#[test]
fn test_castle() {
    let board: Board = "
      +-----------------+
    8 |                 |
    7 |                 |
    6 |                 |
    5 |                 |
    4 |                 |
    3 |                 |
    2 |                 |
    1 |         ♔     ♖ |
      +---------------v-+
        a b c d e f g h"
        .parse()
        .unwrap();
    assert_eq!(
        true,
        next_boards(&board, Color::White).into_iter().any(|b| white_has_castled_short(&b))
    );

    let board: Board = "
      +-----------------+
    8 |             ♜   |
    7 |                 |
    6 |                 |
    5 |                 |
    4 |                 |
    3 |                 |
    2 |                 |
    1 |         ♔     ♖ |
      +---------------v-+
        a b c d e f g h"
        .parse()
        .unwrap();
    assert_eq!(
        false,
        next_boards(&board, Color::White).into_iter().any(|b| white_has_castled_short(&b))
    );

    let board: Board = "
      +-v---------------+
    8 | ♜       ♚       |
    7 |                 |
    6 |                 |
    5 |                 |
    4 |                 |
    3 |                 |
    2 |                 |
    1 |                 |
      +-----------------+
        a b c d e f g h"
        .parse()
        .unwrap();
    assert_eq!(
        true,
        next_boards(&board, Color::Black).into_iter().any(|b| b
            .get_square(at(File::C, Rank::R8))
            .is_occupied_by(Piece(Color::Black, Kind::King))
            && b.get_square(at(File::D, Rank::R8)).is_occupied_by(Piece(Color::Black, Kind::Rook))
            && !b.is_castling_allowed(Color::Black, CastlingSide::King)
            && !b.is_castling_allowed(Color::Black, CastlingSide::Queen))
    );
}

#[test]
fn no_castling_through_an_occupied_or_attacked_square() {
    let occupied: Board = "
      +-----------------+
    8 |                 |
    7 |                 |
    6 |                 |
    5 |                 |
    4 |                 |
    3 |                 |
    2 |                 |
    1 |         ♔ ♗   ♖ |
      +---------------v-+
        a b c d e f g h"
        .parse()
        .unwrap();
    assert!(!next_boards(&occupied, Color::White).into_iter().any(|b| white_has_castled_short(&b)));

    let attacked: Board = "
      +-----------------+
    8 |           ♜     |
    7 |                 |
    6 |                 |
    5 |                 |
    4 |                 |
    3 |                 |
    2 |                 |
    1 |         ♔     ♖ |
      +---------------v-+
        a b c d e f g h"
        .parse()
        .unwrap();
    assert!(!next_boards(&attacked, Color::White).into_iter().any(|b| white_has_castled_short(&b)));

    let no_right: Board = "
      +-----------------+
    8 |                 |
    7 |                 |
    6 |                 |
    5 |                 |
    4 |                 |
    3 |                 |
    2 |                 |
    1 |         ♔     ♖ |
      +-v---------------+
        a b c d e f g h"
        .parse()
        .unwrap();
    assert!(!next_boards(&no_right, Color::White).into_iter().any(|b| white_has_castled_short(&b)));
}

#[test]
fn check_is_found_and_a_missing_king_is_not_in_check() {
    let board: Board = "
      +-----------------+
    8 |       ♖         |
    7 |                 |
    6 |                 |
    5 |                 |
    4 |       ♚         |
    3 |                 |
    2 |                 |
    1 |                 |
      +-----------------+
        a b c d e f g h"
        .parse()
        .unwrap();
    assert!(is_checked(&board, Color::Black));
    assert!(!is_checked(&board, Color::White));
    assert!(!is_checked(&Board::new(), Color::White));
    assert!(!is_checked(&Board::default(), Color::White));
}

#[test]
fn test_en_passant_from_diagram() {
    let board: Board = "
      +-----------------+
    8 |                 |
    7 |                 |
    6 |                 |
    5 |                 |
    4 |   ♟︎             |
    3 |                 |
    2 | ♙               |
    1 |                 |
      +-----------------+
        a b c d e f g h"
        .parse()
        .unwrap();

    assert_eq!(
        true,
        next_boards(&board, Color::White)
            .into_iter()
            .flat_map(|next_board| next_boards(&next_board, Color::Black))
            .filter(|board| board
                .get_square(Coordinates::new(File::A, Rank::R3))
                .is_occupied_by(Piece(Color::Black, Kind::Pawn)))
            .any(|_| true)
    );
}

#[test]
fn test_check_from_diagram() {
    let board: Board = "
      +-----------------+
    8 |       ♖         |
    7 |                 |
    6 |                 |
    5 |                 |
    4 |         ♚       |
    3 |                 |
    2 |                 |
    1 |           ♖     |
      +-----------------+
        a b c d e f g h"
        .parse()
        .unwrap();
    assert_eq!(2, next_boards(&board, Color::Black).len());

    let board: Board = "
      +-----------------+
    8 | ♗     ♖         |
    7 |   ♜             |
    6 |                 |
    5 |                 |
    4 |         ♚       |
    3 |                 |
    2 |                 |
    1 |           ♖     |
      +-----------------+
        a b c d e f g h"
        .parse()
        .unwrap();
    assert_eq!(2, next_boards(&board, Color::Black).len());
}

#[test]
fn the_last_line_of_a_diagram_is_not_read() {
    let odd = START.replace("    a b c d e f g h", "whatever");
    assert_eq!(Ok(Board::default()), parse_board(&odd));
}

#[test]
fn white_space_around_text_and_lines_is_passed_over() {
    let spaced = START.replace("\n", "  \t\r\n   ");
    assert_eq!(Ok(Board::default()), parse_board(&format!("\n\n \u{a0}{}\u{2003}\n", spaced)));
}

#[test]
fn the_star_leaves_its_square_empty() {
    let mut board = Board::default();
    board.set_en_passant_capturable(Some(at(File::E, Rank::R2)));
    let read = parse_board(&board.to_string()).unwrap();
    assert!(read.is_en_passant_capturable(at(File::E, Rank::R2)));
    assert_eq!(Square::Empty, read.get_square(at(File::E, Rank::R2)));
    assert_eq!(board.to_string(), read.to_string());
}

#[test]
fn white_space_is_what_the_standard_library_trims() {
    let inner = START.trim();
    for code in 0..=0x3100u32 {
        if let Some(c) = char::from_u32(code) {
            let text = format!("{}{}{}", c, inner, c);
            assert_eq!(c.is_whitespace(), parse_board(&text) == Ok(Board::default()), "{:?}", c);
        }
    }
    for c in ['\u{feff}', '\u{200b}', '\u{e000}', '\u{10ffff}'] {
        assert!(parse_board(&format!("{}{}", c, inner)).is_err());
    }
}
