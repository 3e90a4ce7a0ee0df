use chess_engine::board::{Board, ColumnLetter, Coordinates, Row, Square};
use chess_engine::fen::{
    digest_board_string_into_rows, digest_row_string_to_row, digest_string_to_board,
    parse_char_to_int, parse_char_to_piece, parse_char_to_piecekind, parse_char_to_turn_color,
    parse_counter, parse_string_into_passant_square, parse_string_to_castling_rights, split_text,
};
use chess_engine::interface::parse_square;
use chess_engine::pieces::{Piece, PieceColor, PieceKind};

const START: &str = "rnbqkbnr/pppppppp/8/8/8/8/PPPPPPPP/RNBQKBNR w KQkq - 0 1";

#[test]
fn start_position_text() {
    assert_eq!(Board::default().generate_fen_string(), START);
}

#[test]
fn start_text_decodes_to_start_position() {
    let board = digest_string_to_board(START).unwrap();
    assert!(board == Board::default());
}

#[test]
fn decoding_then_encoding_gives_the_same_text() {
    let texts = [
        START,
        "r3k2r/8/8/8/8/8/8/R3K2R b Kq e3 12 40",
        "4k3/8/8/3q4/8/8/8/3QK3 w - - 7 12",
        "rnbqkbnr/pppp1ppp/8/4pP2/8/8/PPPPP1PP/RNBQKBNR w KQkq e6 0 3",
        "8/8/8/8/8/8/8/k6K b - - 4294967295 1",
    ];
    for text in texts.iter() {
        let board = digest_string_to_board(text).unwrap();
        assert_eq!(board.generate_fen_string(), *text);
    }
}

#[test]
fn malformed_texts_are_refused() {
    let bad = [
        "",
        "rnbqkbnr/pppppppp/8/8/8/8/PPPPPPPP/RNBQKBNR w KQkq - 0",
        "rnbqkbnr/pppppppp/8/8/8/8/PPPPPPPP/RNBQKBNR w KQkq - 0 1 extra",
        "rnbqkbnr/pppppppp/8/8/8/8/PPPPPPPP w KQkq - 0 1",
        "rnbqkbnr/pppppppp/8/8/8/8/PPPPPPPP/RNBQKBNR/8 w KQkq - 0 1",
        "rnbqkbnr/ppppxppp/8/8/8/8/PPPPPPPP/RNBQKBNR w KQkq - 0 1",
        "rnbqkbnr/ppppppp/8/8/8/8/PPPPPPPP/RNBQKBNR w KQkq - 0 1",
        "rnbqkbnr/pppppppp/9/8/8/8/PPPPPPPP/RNBQKBNR w KQkq - 0 1",
        "rnbqkbnr/pppppppp/8/8/8/8/PPPPPPPP/RNBQKBNR x KQkq - 0 1",
        "rnbqkbnr/pppppppp/8/8/8/8/PPPPPPPP/RNBQKBNR w KQkq - a 1",
        "rnbqkbnr/pppppppp/8/8/8/8/PPPPPPPP/RNBQKBNR w KQkq - 0 4294967296",
        "rnbq1bnr/pppppppp/8/8/8/8/PPPPPPPP/RNBQKBNR w KQkq - 0 1",
        "rnbqkbnr/pppppppp/8/8/8/8/PPPPPPPP/RNBQKKNR w KQkq - 0 1",
        "rnbqkbnr/pppppppp/8/8/8/8/PPPPPPPP/RNBQKBNR W KQkq - 0 1",
        "rnbqkbnr/pppppppp/8/8/8/8/PPPPPPPP/RNBQKBN0R w KQkq - 0 1",
        "rnbqkbnr/pppppppp/8/8/8/8/PPPPPPPP/RNBQKBNR w KXkq - 0 1",
        "rnbqkbnr/pppppppp/8/8/8/8/PPPPPPPP/RNBQKBNR w QK - 0 1",
        "rnbqkbnr/pppppppp/8/8/8/8/PPPPPPPP/RNBQKBNR w KK - 0 1",
        "rnbqkbnr/pppppppp/8/8/8/8/PPPPPPPP/RNBQKBNR w KQkq E3 0 1",
        "rnbqkbnr/pppppppp/8/8/8/8/PPPPPPPP/RNBQKBNR w KQkq x 0 1",
    ];
    for text in bad.iter() {
        assert!(digest_string_to_board(text).is_none(), "accepted {}", text);
    }
}

#[test]
fn decoded_board_reconciles_captured_material() {
    let board = digest_string_to_board("4k3/8/8/8/8/8/8/4K3 w - - 0 1").unwrap();
    let text = board.generate_fen_string();
    assert_eq!(text, "4k3/8/8/8/8/8/8/4K3 w - - 0 1");
    assert!(board.legal_move_available());
}

#[test]
fn rank_text_runs_and_letters() {
    let mut row = Row::default();
    row.set_square(2, Square::Full(Piece { color: PieceColor::White, kind: PieceKind::Knight }));
    row.set_square(7, Square::Full(Piece { color: PieceColor::Black, kind: PieceKind::Queen }));
    assert_eq!(row.generate_row_fen_string(), "2N4q");
    assert_eq!(Row::default().generate_row_fen_string(), "8");
    assert_eq!(digest_row_string_to_row("2N4q"), Some(row));
    assert_eq!(digest_row_string_to_row("2N4"), None);
    assert_eq!(digest_row_string_to_row("2N4q1"), None);
}

#[test]
fn board_field_appends_eight_rows() {
    let mut rows: Vec<Row> = Vec::new();
    digest_board_string_into_rows("rnbqkbnr/pppppppp/8/8/8/8/PPPPPPPP/RNBQKBNR", &mut rows);
    assert_eq!(rows.len(), 8);
    assert_eq!(rows[2], Row::default());
    let mut fewer: Vec<Row> = Vec::new();
    digest_board_string_into_rows("8/8/8", &mut fewer);
    assert!(fewer.len() < 8);
}

#[test]
fn field_parsers() {
    assert_eq!(parse_char_to_piecekind('n'), Some(PieceKind::Knight));
    assert_eq!(parse_char_to_piecekind('N'), None);
    assert_eq!(
        parse_char_to_piece('N'),
        Some(Piece { color: PieceColor::White, kind: PieceKind::Knight })
    );
    assert_eq!(
        parse_char_to_piece('k'),
        Some(Piece { color: PieceColor::Black, kind: PieceKind::King })
    );
    assert_eq!(parse_char_to_piece('x'), None);
    assert_eq!(parse_char_to_turn_color("b"), Some(PieceColor::Black));
    assert_eq!(parse_char_to_turn_color("w"), Some(PieceColor::White));
    assert_eq!(parse_char_to_turn_color("W"), None);
    assert_eq!(parse_char_to_turn_color("wb"), None);
    assert_eq!(parse_string_to_castling_rights("Kq"), (true, false, false, true));
    assert_eq!(parse_string_to_castling_rights("-"), (false, false, false, false));
    assert_eq!(
        parse_string_into_passant_square("e3"),
        Some(Coordinates::new(ColumnLetter::E, 3))
    );
    assert_eq!(parse_string_into_passant_square("-"), None);
    assert_eq!(parse_string_into_passant_square("e9"), None);
    assert_eq!(parse_string_into_passant_square("E3"), None);
    assert_eq!(parse_counter("0"), Some(0));
    assert_eq!(parse_counter("4294967295"), Some(4294967295));
    assert_eq!(parse_counter("4294967296"), None);
    assert_eq!(parse_counter(""), None);
    assert_eq!(parse_counter("1a"), None);
    assert_eq!(parse_char_to_int('8'), Ok(8));
    assert!(parse_char_to_int('9').is_err());
    assert_eq!(split_text("a b  c", ' '), vec!["a", "b", "", "c"]);
}

#[test]
fn square_text_parsing() {
    assert_eq!(parse_square("e4"), Ok(Coordinates::new(ColumnLetter::E, 4)));
    assert_eq!(parse_square("A1"), Ok(Coordinates::new(ColumnLetter::A, 1)));
    assert!(parse_square("i1").is_err());
    assert!(parse_square("a9").is_err());
    assert!(parse_square("a10").is_err());
}

#[test]
fn piece_and_square_letters() {
    let white_bishop = Piece { color: PieceColor::White, kind: PieceKind::Bishop };
    assert_eq!(white_bishop.get_fen_string(), "B");
    assert_eq!(PieceKind::Bishop.get_fen_string(), "b");
    assert_eq!(Square::Full(white_bishop).get_fen_value(), "B");
    assert_eq!(Square::Empty.get_fen_value(), "");
}
