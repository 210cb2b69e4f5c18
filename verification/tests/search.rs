use chess_rules::board::{parse_board, Board, Color, Coordinates, File, Kind, Piece, Rank};
use chess_rules::engine::score_deep::{CHECKMATE_SCORE, STALEMATE_SCORE};
use chess_rules::engine::{next_boards, score_board, scored_next_boards, DeepScore, Search, Worker};

fn at(file: File, rank: Rank) -> Coordinates {
    Coordinates::new(file, rank)
}

fn back_rank_mate() -> Board {
    parse_board(
        "
  +-----------------+
8 |             ♚   |
7 |           ♟︎ ♟︎ ♟︎ |
6 |                 |
5 |                 |
4 |                 |
3 |                 |
2 |                 |
1 | ♖           ♔   |
  +-----------------+
    a b c d e f g h",
    )
    .unwrap()
}

#[test]
fn mate_in_one_is_ranked_first() {
    let board = back_rank_mate();
    for rounds in [1usize, 2, 3, 10] {
        let ranking = scored_next_boards(&board, Color::White, rounds);
        assert_eq!(next_boards(&board, Color::White).len(), ranking.len());
        let (score, best) = ranking[0];
        assert_eq!(CHECKMATE_SCORE, score);
        assert_eq!(1000, score.abs());
        assert!(best.get_square(at(File::A, Rank::R8)).is_occupied_by(Piece(Color::White, Kind::Rook)));
        for (other, _) in &ranking[1..] {
            assert!(*other < CHECKMATE_SCORE);
        }
    }
}

#[test]
fn mate_in_one_for_black_is_ranked_first() {
    let board = parse_board(
        "
  +-----------------+
8 | ♜           ♚   |
7 |                 |
6 |                 |
5 |                 |
4 |                 |
3 |                 |
2 |           ♙ ♙ ♙ |
1 |             ♔   |
  +-----------------+
    a b c d e f g h",
    )
    .unwrap();
    let ranking = scored_next_boards(&board, Color::Black, 1);
    let (score, best) = ranking[0];
    assert_eq!(-CHECKMATE_SCORE, score);
    assert!(best.get_square(at(File::A, Rank::R1)).is_occupied_by(Piece(Color::Black, Kind::Rook)));
}

#[test]
fn no_rounds_rank_by_material_alone() {
    let board = parse_board(
        "
  +-----------------+
8 |         ♚       |
7 |                 |
6 |                 |
5 |       ♟︎         |
4 |         ♙       |
3 |                 |
2 |                 |
1 |         ♔       |
  +-----------------+
    a b c d e f g h",
    )
    .unwrap();
    let candidates = next_boards(&board, Color::White);
    let ranking = scored_next_boards(&board, Color::White, 0);
    assert_eq!(candidates.len(), ranking.len());
    for (score, candidate) in &ranking {
        assert_eq!(score_board(candidate), *score);
        assert!(candidates.contains(candidate));
    }
    assert_eq!(1, ranking[0].0);
    assert!(ranking[0].1.get_square(at(File::D, Rank::R5)).is_occupied_by(Piece(Color::White, Kind::Pawn)));
    for pair in ranking.windows(2) {
        assert!(pair[0].0 >= pair[1].0);
    }
    let for_black = scored_next_boards(&board, Color::Black, 0);
    assert_eq!(-1, for_black[0].0);
    for pair in for_black.windows(2) {
        assert!(pair[0].0 <= pair[1].0);
    }
}

#[test]
fn equal_scores_keep_the_order_of_the_moves() {
    let board = Board::default();
    let candidates = next_boards(&board, Color::White);
    let ranking = scored_next_boards(&board, Color::White, 0);
    assert_eq!(20, ranking.len());
    for (i, (score, candidate)) in ranking.iter().enumerate() {
        assert_eq!(0, *score);
        assert_eq!(candidates[i], *candidate);
    }
}

#[test]
fn a_capture_that_loses_the_queen_is_not_reported_as_winning() {
    let board = parse_board(
        "
  +-----------------+
8 |         ♚       |
7 |     ♟︎           |
6 |       ♟︎         |
5 |                 |
4 |                 |
3 |                 |
2 |                 |
1 |       ♕ ♔       |
  +-----------------+
    a b c d e f g h",
    )
    .unwrap();
    let takes = |b: &Board| b.get_square(at(File::D, Rank::R6)).is_occupied_by(Piece(Color::White, Kind::Queen));
    let shallow = scored_next_boards(&board, Color::White, 0);
    let (material, _) = *shallow.iter().find(|(_, b)| takes(b)).unwrap();
    assert_eq!(8, material);
    let deep = scored_next_boards(&board, Color::White, 40);
    let (score, _) = *deep.iter().find(|(_, b)| takes(b)).unwrap();
    assert!(score <= -1);
    assert!(!takes(&deep[0].1));
}

#[test]
fn worker_starts_with_the_material_score() {
    let mut board = Board::default();
    board.set_square(at(File::A, Rank::R8), chess_rules::board::Square::Empty);
    let worker = Worker::new(&board, Color::White);
    assert_eq!(DeepScore { score: 5, depth: 0 }, worker.score());
}

#[test]
fn worker_scores_checkmate_and_stalemate() {
    let mut mated = back_rank_mate();
    mated.move_piece(at(File::A, Rank::R1), at(File::A, Rank::R8));
    let mut worker = Worker::new(&mated, Color::Black);
    worker.step();
    assert_eq!(DeepScore { score: CHECKMATE_SCORE, depth: 0 }, worker.score());
    worker.step();
    assert_eq!(DeepScore { score: CHECKMATE_SCORE, depth: 0 }, worker.score());

    let stalemate = parse_board(
        "
  +-----------------+
8 |               ♚ |
7 |           ♕     |
6 |             ♔   |
5 |                 |
4 |                 |
3 |                 |
2 |                 |
1 |                 |
  +-----------------+
    a b c d e f g h",
    )
    .unwrap();
    assert_eq!(0, next_boards(&stalemate, Color::Black).len());
    let mut worker = Worker::new(&stalemate, Color::Black);
    assert_eq!(9, worker.score().score);
    worker.step();
    assert_eq!(DeepScore { score: STALEMATE_SCORE, depth: 0 }, worker.score());
}

#[test]
fn worker_adopts_the_first_reply_and_then_keeps_the_better() {
    let board = parse_board(
        "
  +-----------------+
8 |         ♚       |
7 |                 |
6 |                 |
5 |                 |
4 |                 |
3 |                 |
2 |                 |
1 | ♖       ♔       |
  +-----------------+
    a b c d e f g h",
    )
    .unwrap();
    let mut worker = Worker::new(&board, Color::Black);
    assert_eq!(DeepScore { score: 5, depth: 0 }, worker.score());
    worker.step();
    assert_eq!(DeepScore { score: 5, depth: 0 }, worker.score());
    worker.step();
    assert_eq!(DeepScore { score: 5, depth: 1 }, worker.score());
    for _ in 0..30 {
        worker.step();
    }
    assert_eq!(5, worker.score().score);
}

#[test]
fn search_can_be_driven_round_by_round() {
    let board = back_rank_mate();
    let mut search = Search::new(&board, Color::White);
    let before = search.ranking();
    assert_eq!(scored_next_boards(&board, Color::White, 0), before);
    let mut budget = 3;
    while budget > 0 {
        search.step();
        budget -= 1;
    }
    assert_eq!(scored_next_boards(&board, Color::White, 3), search.ranking());
    assert_eq!(CHECKMATE_SCORE, search.ranking()[0].0);
}

#[test]
fn a_verdict_accounts_for_every_reply_once_each_was_looked_at() {
    let taken = parse_board(
        "
  +-----------------+
8 |         ♚       |
7 |     ♟︎           |
6 |       ♕         |
5 |                 |
4 |                 |
3 |                 |
2 |                 |
1 |         ♔       |
  +-----------------+
    a b c d e f g h",
    )
    .unwrap();
    let replies = next_boards(&taken, Color::Black);
    assert!(!replies.is_empty());
    let lowest = replies.iter().map(|reply| score_board(reply)).min().unwrap();
    assert_eq!(-1, lowest);
    let mut worker = Worker::new(&taken, Color::Black);
    assert_eq!(8, worker.score().score);
    for _ in 0..replies.len() + 1 {
        worker.step();
    }
    assert!(worker.score().score <= lowest);
    for _ in 0..50 {
        worker.step();
        assert!(worker.score().score <= lowest);
    }
}
