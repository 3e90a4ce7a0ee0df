use chess_engine::board::{
    Board, ColumnLetter, Coordinates, DiagonalDirection, MoveDirection, SideInformation, Square,
};
use chess_engine::fen::digest_string_to_board;
use chess_engine::pieces::{Piece, PieceColor, PieceKind};
use chess_engine::rules::{parse_move_legality, passant_legal, would_king_be_in_danger};

fn at(letter: ColumnLetter, number: isize) -> Coordinates {
    Coordinates::new(letter, number)
}

fn board_from(text: &str) -> Board {
    digest_string_to_board(text).unwrap()
}

#[test]
fn diagonal_steps_stop_at_the_edge() {
    assert!(DiagonalDirection::UpRight.conditional_continue(6, 7));
    assert!(!DiagonalDirection::UpRight.conditional_continue(7, 3));
    assert!(!DiagonalDirection::UpLeft.conditional_continue(3, 8));
    assert!(DiagonalDirection::DownLeft.conditional_continue(1, 2));
    assert!(!DiagonalDirection::DownRight.conditional_continue(4, 1));
    let mut letter: isize = 3;
    let mut number: isize = 4;
    DiagonalDirection::DownLeft.modify_letter_and_number_values(&mut letter, &mut number);
    assert_eq!((letter, number), (2, 3));
    DiagonalDirection::UpRight.modify_letter_and_number_values(&mut letter, &mut number);
    assert_eq!((letter, number), (3, 4));
}

#[test]
fn rook_targets_on_an_open_board() {
    let board = board_from("4k3/8/8/8/3R4/8/8/4K3 w - - 0 1");
    let from = at(ColumnLetter::D, 4);
    let square = board.retreive_square(&from).unwrap();
    let mut targets: Vec<Coordinates> = Vec::new();
    square.get_legal_cross_targets(&from, &board, &mut targets);
    assert_eq!(targets.len(), 14);
    assert_eq!(square.get_legal_targets(&from, &board).len(), 14);
    assert!(targets.contains(&at(ColumnLetter::D, 8)));
    assert!(targets.contains(&at(ColumnLetter::A, 4)));
}

#[test]
fn bishop_targets_stop_at_blockers() {
    let board = board_from("4k3/8/5p2/8/3B4/8/1P6/4K3 w - - 0 1");
    let from = at(ColumnLetter::D, 4);
    let square = board.retreive_square(&from).unwrap();
    let mut up_right: Vec<Coordinates> = Vec::new();
    square.get_legal_single_diagonal(&from, DiagonalDirection::UpRight, &board, &mut up_right);
    assert_eq!(up_right, vec![at(ColumnLetter::E, 5), at(ColumnLetter::F, 6)]);
    let mut all: Vec<Coordinates> = Vec::new();
    square.get_legal_diagonal_targets(&from, &board, &mut all);
    assert_eq!(all.len(), 9);
    assert!(!all.contains(&at(ColumnLetter::B, 2)));
    assert!(all.contains(&at(ColumnLetter::C, 3)));
}

#[test]
fn king_targets_include_castling() {
    let board = board_from("r3k2r/8/8/8/8/8/8/R3K2R w KQkq - 0 1");
    let from = at(ColumnLetter::E, 1);
    let square = board.retreive_square(&from).unwrap();
    let targets = square.get_legal_targets(&from, &board);
    assert!(targets.contains(&at(ColumnLetter::G, 1)));
    assert!(targets.contains(&at(ColumnLetter::C, 1)));
    assert_eq!(targets.len(), 7);
    assert!(board.king_can_castle(PieceColor::White, true));
    assert!(board.king_can_castle(PieceColor::Black, false));
}

#[test]
fn pawn_targets_from_home_rank() {
    let board = Board::default();
    let from = at(ColumnLetter::E, 2);
    let square = board.retreive_square(&from).unwrap();
    let targets = square.get_legal_targets(&from, &board);
    assert_eq!(targets, vec![at(ColumnLetter::E, 3), at(ColumnLetter::E, 4)]);
    let mut single: Vec<Coordinates> = Vec::new();
    square.get_legal_single_target(&from, ColumnLetter::E, 5, &board, &mut single);
    assert!(single.is_empty());
}

#[test]
fn threats_and_paths() {
    let board = board_from("4k3/8/8/8/8/8/3r4/4K3 w - - 0 1");
    assert!(board.square_threatens_square(&at(ColumnLetter::D, 2), &at(ColumnLetter::D, 1)));
    assert!(!board.square_threatens_square(&at(ColumnLetter::D, 2), &at(ColumnLetter::E, 1)));
    assert!(!board.is_king_in_danger(PieceColor::White));
    let pawn_board = board_from("4k3/8/8/8/8/3p4/4N3/4K3 w - - 0 1");
    assert!(pawn_board.square_threatens_square(&at(ColumnLetter::D, 3), &at(ColumnLetter::E, 2)));
    assert!(!pawn_board.square_threatens_square(&at(ColumnLetter::D, 3), &at(ColumnLetter::D, 2)));
    assert!(!pawn_board.square_threatens_square(&at(ColumnLetter::D, 3), &at(ColumnLetter::C, 2)));
    let adjacent = board_from("8/8/8/8/8/8/k7/R3K3 w - - 0 1");
    assert!(adjacent.square_threatens_square(&at(ColumnLetter::A, 1), &at(ColumnLetter::A, 2)));
    assert!(parse_move_legality(&at(ColumnLetter::A, 1), &at(ColumnLetter::A, 2), &adjacent).0);
    let pinned = board_from("8/8/8/8/8/5k2/4r3/3BK3 b - - 0 1");
    assert!(!pinned.square_threatens_square(&at(ColumnLetter::E, 2), &at(ColumnLetter::E, 1)));
    let start = Board::default();
    assert!(!start.twixt_hither_and_yon(
        &at(ColumnLetter::A, 1),
        &at(ColumnLetter::A, 4),
        MoveDirection::Up
    ));
    assert!(start.twixt_hither_and_yon(
        &at(ColumnLetter::B, 1),
        &at(ColumnLetter::C, 3),
        MoveDirection::JHook
    ));
}

#[test]
fn simulated_moves_and_passant_target() {
    let board = board_from("4k3/8/8/8/8/8/3r4/4K3 w - - 0 1");
    assert!(would_king_be_in_danger(board.clone(), &at(ColumnLetter::E, 1), &at(ColumnLetter::D, 1)));
    assert!(!would_king_be_in_danger(board.clone(), &at(ColumnLetter::E, 1), &at(ColumnLetter::D, 2)));
    let passant = board_from("4k3/8/8/3pP3/8/8/8/4K3 w - d6 0 1");
    assert!(passant_legal(&at(ColumnLetter::D, 6), &passant));
    assert!(!passant_legal(&at(ColumnLetter::D, 5), &passant));
}

#[test]
fn captured_material_is_counted_and_sorted() {
    let mut side = SideInformation::default(PieceColor::White);
    side.add_taken_piece(PieceKind::Queen);
    side.add_taken_piece(PieceKind::Pawn);
    side.add_taken_piece(PieceKind::Knight);
    assert_eq!(
        side.get_taken_pieces(),
        &vec![PieceKind::Pawn, PieceKind::Knight, PieceKind::Queen]
    );
    assert_eq!(side.total_taken_pieces(), 12);
    assert_eq!(side.generate_fen_string(), "kq");
    side.remove_castling_rights(true);
    assert_eq!(side.generate_fen_string(), "q");
    assert!(!side.king_can_castle(true));
    side.set_castling_rights(true, false);
    assert_eq!(side.generate_fen_string(), "k");
    side.update_king_location(&ColumnLetter::F, &1);
    assert_eq!(side.generate_fen_string(), "");
    side.adjust_taken_pieces(2, 0, -1, 1, 0);
    assert_eq!(
        side.get_taken_pieces(),
        &vec![PieceKind::Pawn, PieceKind::Pawn, PieceKind::Bishop]
    );
}

#[test]
fn decoded_board_counts_missing_pieces() {
    let mut board = board_from("4k3/8/8/8/8/8/8/4K3 w - - 0 1");
    let white = board.get_side_information(PieceColor::White);
    assert_eq!(white.get_taken_pieces().len(), 15);
    assert_eq!(white.total_taken_pieces(), 36);
    let king = Piece { color: PieceColor::White, kind: PieceKind::King };
    assert_eq!(board.count_on_board(king), 1);
    assert_eq!(board.find_piece(king), Some(at(ColumnLetter::E, 1)));
    board.set_square(&at(ColumnLetter::A, 2), Square::Full(Piece { color: PieceColor::Black, kind: PieceKind::Rook }));
    board.adjust_taken_pieces();
    assert_eq!(board.get_side_information(PieceColor::White).get_taken_pieces().len(), 14);
    board.remove_castling_rights(PieceColor::White, true);
    assert_eq!(board.get_turn_full(), "white");
    assert_eq!(board.get_half_turns(), 0);
    assert_eq!(board.get_full_turns(), 1);
}
