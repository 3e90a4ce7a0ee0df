use chess_engine::board::{
    board_safe_isize_converter, isize_difference, measure_distance, Board, ColumnLetter,
    Coordinates, DiagonalDirection, MoveDirection, MoveResult, Square,
};
use chess_engine::fen::digest_string_to_board;
use chess_engine::pieces::{Piece, PieceColor, PieceKind};
use chess_engine::rules::{king_checkmate_state, parse_move_legality, MateState};

fn at(letter: ColumnLetter, number: isize) -> Coordinates {
    Coordinates::new(letter, number)
}

fn board_from(text: &str) -> Board {
    match digest_string_to_board(text) {
        Some(b) => b,
        None => panic!("position text did not decode"),
    }
}

#[test]
fn first_pawn_single_step_is_safe_and_sets_no_target() {
    let mut board = Board::default();
    let result = board.move_piece(&at(ColumnLetter::A, 2), &at(ColumnLetter::A, 3));
    assert_eq!(result, MoveResult::CompletedSafely);
    assert_eq!(board.retreive_square(&at(ColumnLetter::A, 2)), Ok(Square::Empty));
    assert_eq!(
        board.retreive_square(&at(ColumnLetter::A, 3)),
        Ok(Square::Full(Piece { color: PieceColor::White, kind: PieceKind::Pawn }))
    );
    assert_eq!(board.get_opt_passant_square(), None);
    assert_eq!(board.get_turn(), PieceColor::Black);
}

#[test]
fn first_pawn_double_step_sets_target_behind() {
    let mut board = Board::default();
    let result = board.move_piece(&at(ColumnLetter::A, 2), &at(ColumnLetter::A, 4));
    assert_eq!(result, MoveResult::CompletedSafely);
    assert_eq!(board.get_opt_passant_square(), Some(at(ColumnLetter::A, 3)));
}

#[test]
fn target_is_cleared_by_the_next_move() {
    let mut board = Board::default();
    board.move_piece(&at(ColumnLetter::E, 2), &at(ColumnLetter::E, 4));
    assert_eq!(board.get_opt_passant_square(), Some(at(ColumnLetter::E, 3)));
    let result = board.move_piece(&at(ColumnLetter::G, 8), &at(ColumnLetter::F, 6));
    assert_eq!(result, MoveResult::CompletedSafely);
    assert_eq!(board.get_opt_passant_square(), None);
}

#[test]
fn black_cannot_move_first() {
    let mut board = Board::default();
    let before = board.clone();
    let result = board.move_piece(&at(ColumnLetter::A, 7), &at(ColumnLetter::A, 6));
    assert_eq!(result, MoveResult::WrongTurn);
    assert!(board == before);
}

#[test]
fn moving_from_an_empty_square_is_reported() {
    let mut board = Board::default();
    let result = board.move_piece(&at(ColumnLetter::D, 4), &at(ColumnLetter::D, 5));
    assert_eq!(result, MoveResult::EmptySquare);
}

#[test]
fn moving_off_the_board_is_illegal() {
    let mut board = Board::default();
    let result = board.move_piece(&at(ColumnLetter::A, 9), &at(ColumnLetter::A, 3));
    assert_eq!(result, MoveResult::MoveIllegal);
    let result = board.move_piece(&at(ColumnLetter::A, 2), &at(ColumnLetter::A, 0));
    assert_eq!(result, MoveResult::MoveIllegal);
}

#[test]
fn blocked_rook_cannot_move() {
    let mut board = Board::default();
    let result = board.move_piece(&at(ColumnLetter::A, 1), &at(ColumnLetter::A, 3));
    assert_eq!(result, MoveResult::MoveIllegal);
}

#[test]
fn knight_jumps_over_pieces() {
    let mut board = Board::default();
    let result = board.move_piece(&at(ColumnLetter::B, 1), &at(ColumnLetter::C, 3));
    assert_eq!(result, MoveResult::CompletedSafely);
    assert_eq!(
        board.generate_fen_string(),
        "rnbqkbnr/pppppppp/8/8/8/2N5/PPPPPPPP/R1BQKBNR b KQkq - 1 1"
    );
}

#[test]
fn en_passant_removes_the_passed_pawn() {
    let mut board = board_from("rnbqkbnr/pppppppp/8/3P4/8/8/PPP1PPPP/RNBQKBNR b KQkq - 0 1");
    let result = board.move_piece(&at(ColumnLetter::E, 7), &at(ColumnLetter::E, 5));
    assert_eq!(result, MoveResult::CompletedSafely);
    assert_eq!(board.get_opt_passant_square(), Some(at(ColumnLetter::E, 6)));
    let result = board.move_piece(&at(ColumnLetter::D, 5), &at(ColumnLetter::E, 6));
    assert_eq!(result, MoveResult::CompletedSafely);
    assert_eq!(board.retreive_square(&at(ColumnLetter::E, 5)), Ok(Square::Empty));
    assert_eq!(
        board.retreive_square(&at(ColumnLetter::E, 6)),
        Ok(Square::Full(Piece { color: PieceColor::White, kind: PieceKind::Pawn }))
    );
    assert_eq!(
        board.generate_fen_string(),
        "rnbqkbnr/pppp1ppp/4P3/8/8/8/PPP1PPPP/RNBQKBNR b KQkq - 0 2"
    );
}

#[test]
fn kingside_castling_moves_king_and_rook() {
    let mut board = board_from("r3k2r/8/8/8/8/8/8/R3K2R w KQkq - 0 1");
    let result = board.move_piece(&at(ColumnLetter::E, 1), &at(ColumnLetter::G, 1));
    assert_eq!(result, MoveResult::CompletedSafely);
    assert_eq!(board.generate_fen_string(), "r3k2r/8/8/8/8/8/8/R4RK1 b kq - 1 1");
}

#[test]
fn queenside_castling_moves_king_and_rook() {
    let mut board = board_from("r3k2r/8/8/8/8/8/8/R3K2R b KQkq - 3 7");
    let result = board.move_piece(&at(ColumnLetter::E, 8), &at(ColumnLetter::C, 8));
    assert_eq!(result, MoveResult::CompletedSafely);
    assert_eq!(board.generate_fen_string(), "2kr3r/8/8/8/8/8/8/R3K2R w KQ - 4 8");
}

#[test]
fn castling_through_an_attacked_square_is_illegal() {
    let mut board = board_from("r3k2r/8/8/8/8/8/5r2/R3K2R w KQkq - 0 1");
    let result = board.move_piece(&at(ColumnLetter::E, 1), &at(ColumnLetter::G, 1));
    assert_eq!(result, MoveResult::MoveIllegal);
}

#[test]
fn castling_without_the_right_is_illegal() {
    let mut board = board_from("r3k2r/8/8/8/8/8/8/R3K2R w Qkq - 0 1");
    let result = board.move_piece(&at(ColumnLetter::E, 1), &at(ColumnLetter::G, 1));
    assert_eq!(result, MoveResult::MoveIllegal);
}

#[test]
fn rook_move_clears_only_its_wing() {
    let mut board = board_from("r3k2r/8/8/8/8/8/8/R3K2R w KQkq - 0 1");
    board.move_piece(&at(ColumnLetter::H, 1), &at(ColumnLetter::H, 5));
    assert_eq!(board.generate_fen_string(), "r3k2r/8/8/7R/8/8/8/R3K3 b Qkq - 1 1");
}

#[test]
fn king_move_clears_both_rights() {
    let mut board = board_from("r3k2r/8/8/8/8/8/8/R3K2R w KQkq - 0 1");
    board.move_piece(&at(ColumnLetter::E, 1), &at(ColumnLetter::E, 2));
    board.move_piece(&at(ColumnLetter::E, 8), &at(ColumnLetter::E, 7));
    board.move_piece(&at(ColumnLetter::E, 2), &at(ColumnLetter::E, 1));
    assert_eq!(board.generate_fen_string(), "r6r/4k3/8/8/8/8/8/R3K2R b - - 3 2");
}

#[test]
fn pinned_piece_cannot_expose_its_king() {
    let mut board = board_from("4r1k1/8/8/8/8/8/4B3/4K3 w - - 0 1");
    let result = board.move_piece(&at(ColumnLetter::E, 2), &at(ColumnLetter::D, 3));
    assert_eq!(result, MoveResult::MoveIllegal);
}

#[test]
fn king_cannot_step_into_check() {
    let mut board = board_from("4k3/8/8/8/8/8/3r4/4K3 w - - 0 1");
    let result = board.move_piece(&at(ColumnLetter::E, 1), &at(ColumnLetter::D, 1));
    assert_eq!(result, MoveResult::MoveIllegal);
}

#[test]
fn giving_check_is_reported() {
    let mut board = board_from("4k3/8/8/8/8/8/8/R3K3 w - - 0 1");
    let result = board.move_piece(&at(ColumnLetter::A, 1), &at(ColumnLetter::A, 8));
    assert_eq!(result, MoveResult::BlackKingChecked);
}

#[test]
fn back_rank_mate_is_reported() {
    let mut board = board_from("6k1/5ppp/8/8/8/8/8/R5K1 w - - 0 1");
    let result = board.move_piece(&at(ColumnLetter::A, 1), &at(ColumnLetter::A, 8));
    assert_eq!(result, MoveResult::BlackKingCheckmated);
}

#[test]
fn side_without_moves_and_not_in_check_is_stalemated() {
    let mut board = board_from("k7/3Q4/1K6/8/8/8/8/8 w - - 0 1");
    let result = board.move_piece(&at(ColumnLetter::D, 7), &at(ColumnLetter::C, 7));
    assert_eq!(result, MoveResult::Stalemate);
    assert_eq!(king_checkmate_state(PieceColor::Black, &board), MateState::StaleMate);
}

#[test]
fn only_kings_at_the_half_move_limit_is_stalemate() {
    let mut board = board_from("4k3/8/8/8/8/8/8/4K3 w - - 99 40");
    let result = board.move_piece(&at(ColumnLetter::E, 1), &at(ColumnLetter::E, 2));
    assert_eq!(result, MoveResult::Stalemate);
}

#[test]
fn capture_records_the_taken_piece_and_resets_the_clock() {
    let mut board = board_from("4k3/8/8/3q4/8/8/8/3QK3 w - - 7 12");
    let result = board.move_piece(&at(ColumnLetter::D, 1), &at(ColumnLetter::D, 5));
    assert_eq!(result, MoveResult::CompletedSafely);
    assert_eq!(board.generate_fen_string(), "4k3/8/8/3Q4/8/8/8/4K3 b - - 0 12");
}

#[test]
fn legal_targets_of_a_starting_knight() {
    let board = Board::default();
    let from = at(ColumnLetter::B, 1);
    let square = board.retreive_square(&from).unwrap();
    let targets = square.get_legal_targets(&from, &board);
    assert_eq!(targets, vec![at(ColumnLetter::A, 3), at(ColumnLetter::C, 3)]);
    let empty = Square::Empty.get_legal_targets(&at(ColumnLetter::D, 4), &board);
    assert!(empty.is_empty());
}

#[test]
fn legality_reports_double_step_target() {
    let board = Board::default();
    let r = parse_move_legality(&at(ColumnLetter::C, 2), &at(ColumnLetter::C, 4), &board);
    assert!(r.0);
    assert!(!r.1);
    assert_eq!(r.4, MoveDirection::Up);
    assert_eq!(r.5, 2);
    assert_eq!(r.6, None);
    assert_eq!(r.7, Some(at(ColumnLetter::C, 3)));
}

#[test]
fn start_position_has_moves_and_no_check() {
    let board = Board::default();
    assert!(board.legal_move_available());
    assert!(!board.is_king_in_danger(PieceColor::White));
    assert_eq!(king_checkmate_state(PieceColor::White, &board), MateState::Safe);
}

#[test]
fn distance_is_the_sum_of_deltas() {
    let info = measure_distance(&at(ColumnLetter::C, 1), &at(ColumnLetter::F, 4));
    assert_eq!(info.move_direction, MoveDirection::Diagonal(DiagonalDirection::UpRight));
    assert_eq!(info.distance, 6);
    let info = measure_distance(&at(ColumnLetter::B, 1), &at(ColumnLetter::C, 3));
    assert_eq!(info.move_direction, MoveDirection::JHook);
    assert_eq!(info.distance, 3);
    let info = measure_distance(&at(ColumnLetter::B, 1), &at(ColumnLetter::E, 3));
    assert_eq!(info.move_direction, MoveDirection::IllegalMove);
    let info = measure_distance(&at(ColumnLetter::B, 1), &at(ColumnLetter::B, 9));
    assert_eq!(info.move_direction, MoveDirection::NoMove);
    assert_eq!(info.distance, 0);
    let info = measure_distance(&at(ColumnLetter::H, 8), &at(ColumnLetter::A, 8));
    assert_eq!(info.move_direction, MoveDirection::Left);
    assert_eq!(info.distance, 7);
}

#[test]
fn small_conversions() {
    assert_eq!(isize_difference(3, 8), 5);
    assert_eq!(board_safe_isize_converter(8), Ok(8));
    assert!(board_safe_isize_converter(9).is_err());
    assert_eq!(ColumnLetter::construct_letter_from_isize(4), Ok(ColumnLetter::E));
    assert!(ColumnLetter::construct_letter_from_isize(8).is_err());
    assert!(ColumnLetter::construct_letter_from_isize(-1).is_err());
    assert_eq!(ColumnLetter::convert_to('G'), Ok(ColumnLetter::G));
    assert!(ColumnLetter::convert_to('z').is_err());
    assert_eq!(ColumnLetter::H.eval(), 7);
    assert_eq!(PieceColor::White.get_inverse_color(), PieceColor::Black);
    assert_eq!(PieceKind::Queen.get_value(), 8);
}

#[test]
fn mover_is_never_left_in_check() {
    let mut board = Board::default();
    let moves = [
        (ColumnLetter::E, 2, ColumnLetter::E, 4),
        (ColumnLetter::E, 7, ColumnLetter::E, 5),
        (ColumnLetter::D, 1, ColumnLetter::H, 5),
        (ColumnLetter::B, 8, ColumnLetter::C, 6),
        (ColumnLetter::F, 1, ColumnLetter::C, 4),
        (ColumnLetter::G, 8, ColumnLetter::F, 6),
        (ColumnLetter::H, 5, ColumnLetter::F, 7),
    ];
    for (fl, fr, tl, tr) in moves.iter() {
        let mover = board.get_turn();
        board.move_piece(&at(*fl, *fr), &at(*tl, *tr));
        assert!(!board.is_king_in_danger(mover));
    }
    assert_eq!(
        board.generate_fen_string(),
        "r1bqkb1r/pppp1Qpp/2n2n2/4p3/2B1P3/8/PPPP1PPP/RNB1K1NR b KQkq - 0 4"
    );
}

#[test]
fn lost_castling_rights_do_not_return() {
    let mut board = board_from("r3k2r/8/8/8/8/8/8/R3K2R w KQkq - 0 1");
    board.move_piece(&at(ColumnLetter::A, 1), &at(ColumnLetter::A, 2));
    board.move_piece(&at(ColumnLetter::H, 8), &at(ColumnLetter::H, 7));
    board.move_piece(&at(ColumnLetter::A, 2), &at(ColumnLetter::A, 1));
    board.move_piece(&at(ColumnLetter::H, 7), &at(ColumnLetter::H, 8));
    assert_eq!(board.generate_fen_string(), "r3k2r/8/8/8/8/8/8/R3K2R w Kq - 4 3");
    let result = board.move_piece(&at(ColumnLetter::E, 1), &at(ColumnLetter::C, 1));
    assert_eq!(result, MoveResult::MoveIllegal);
}
