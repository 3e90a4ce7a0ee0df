use vstd::prelude::*;

use crate::board::{
    castle_hop, index_square, SideInformation,
    castle_file, coord, direction_between, distance_between, forward, holds_side,
    home_rank, is_forward_diagonal, king_home, kind_reaches, path_clear, rook_corner, step_row,
    lemma_with_square, path_square, Board, ColumnLetter, MoveResult, Coordinates, DiagonalDirection, MoveDirection, Square, grid_get,
    measure_distance, piece_reaches,
};
use crate::pieces::{Piece, PieceColor, PieceKind};

verus! {

/// The piece on a square, when there is one.
pub open(crate) spec fn piece_at(b: Board, c: Coordinates) -> Piece {
    b.sq(c)->Full_0
}

/// A king moving two files sideways: a castling move.
pub open(crate) spec fn castle_move(b: Board, from: Coordinates, to: Coordinates) -> bool {
    let dir = direction_between(from, to);
    b.sq(from) is Full && piece_at(b, from).kind == PieceKind::King && distance_between(from, to)
        == 2 && (dir == MoveDirection::Left || dir == MoveDirection::Right)
}

/// A pawn moving diagonally onto an empty square: an en passant capture.
pub open(crate) spec fn en_passant_move(b: Board, from: Coordinates, to: Coordinates) -> bool {
    b.sq(from) is Full && piece_at(b, from).kind == PieceKind::Pawn && b.sq(to) == Square::Empty
        && direction_between(from, to) is Diagonal
}

/// The square of the pawn that an en passant capture removes: the rank of `from`, the file
/// of `to`.
pub open spec fn passant_victim(from: Coordinates, to: Coordinates) -> Coordinates {
    Coordinates { letter: to.letter, number: from.number }
}

/// An en passant capture that is allowed: one step forward diagonally onto the recorded
/// target, beside an enemy pawn.
pub open(crate) spec fn en_passant_ok(b: Board, from: Coordinates, to: Coordinates) -> bool {
    let p = piece_at(b, from);
    en_passant_move(b, from, to) && distance_between(from, to) == 2 && is_forward_diagonal(
        p.color,
        direction_between(from, to),
    ) && b.passant() == Some(to) && b.sq(passant_victim(from, to)) == Square::Full(
        Piece { color: p.color.inverse(), kind: PieceKind::Pawn },
    )
}

/// How deeply a legality judgement may nest the question "would the mover's king then be
/// attacked", whose answer asks for the legality of the attacking moves in turn.
pub const LOOKAHEAD: u32 = 32;

/// What the rules read of a board: the captured pieces, the side to move and the counters
/// are set aside.
pub open(crate) spec fn rules_view(b: Board) -> Board {
    Board {
        turn: PieceColor::White,
        half_turns: 0,
        full_turns: 0,
        white_side_information: SideInformation {
            taken_pieces: vstd::pervasive::arbitrary(),
            ..b.white_side_information
        },
        black_side_information: SideInformation {
            taken_pieces: vstd::pervasive::arbitrary(),
            ..b.black_side_information
        },
        ..b
    }
}

/// Among the first `k` squares of `board_coords`, a piece of the other side could legally
/// move onto the recorded square of the king of `color`, judging that move with `n - 1`
/// levels of lookahead.
pub open(crate) spec fn danger_scan(b: Board, color: PieceColor, n: nat, k: nat) -> bool
    decreases n, 0nat, k,
{
    if n == 0 || k == 0 {
        false
    } else {
        danger_scan(b, color, n, (k - 1) as nat) || (holds_side(
            b.grid(),
            index_square(k - 1),
            color.inverse(),
        ) && threat_at(b, index_square(k - 1), b.king_square(color), (n - 1) as nat))
    }
}

/// The king of `color` is attacked: a piece of the other side could legally move onto the
/// king's recorded square, judging that move with `n - 1` levels of lookahead.
pub open(crate) spec fn danger_at(b: Board, color: PieceColor, n: nat) -> bool
    decreases n, 1nat, 0nat,
{
    danger_scan(b, color, n, 64)
}

pub proof fn lemma_danger_scan_grows(b: Board, color: PieceColor, n: nat, k: nat, m: nat)
    requires
        k <= m,
        danger_scan(b, color, n, k),
    ensures
        danger_scan(b, color, n, m),
    decreases m,
{
    if k < m {
        lemma_danger_scan_grows(b, color, n, k, (m - 1) as nat);
    }
}

/// A side may castle on a wing: its king is not attacked, the right is kept, and the king
/// would be attacked on neither square it crosses.
pub open(crate) spec fn can_castle_at(b: Board, color: PieceColor, kingside: bool, n: nat) -> bool
    decreases n, 2nat, 0nat,
{
    !danger_at(b, color, n) && b.right(color, kingside) && !danger_at(
        castle_hop(b, color, kingside, 1),
        color,
        n,
    ) && !danger_at(castle_hop(b, color, kingside, 2), color, n)
}

/// A castling move that is allowed: the king stands on its home square, its rook on the
/// corner, and the side may castle on that wing.
pub open(crate) spec fn castle_ok_at(b: Board, from: Coordinates, to: Coordinates, n: nat) -> bool
    decreases n, 3nat, 0nat,
{
    let p = piece_at(b, from);
    let kingside = direction_between(from, to) == MoveDirection::Right;
    castle_move(b, from, to) && from == king_home(p.color) && b.sq(rook_corner(p.color, kingside))
        == Square::Full(Piece { color: p.color, kind: PieceKind::Rook }) && can_castle_at(
        b,
        p.color,
        kingside,
        n,
    )
}

/// The move obeys the movement rules, not yet asking whether it exposes the mover's king:
/// both squares are on the board, `from` holds a piece, the path is clear, the destination
/// holds no friendly piece, and the piece's rule admits the move as an ordinary move, an en
/// passant capture or castling.
pub open(crate) spec fn pseudo_at(b: Board, from: Coordinates, to: Coordinates, n: nat) -> bool
    decreases n, 4nat, 0nat,
{
    let dir = direction_between(from, to);
    let dist = distance_between(from, to);
    let p = piece_at(b, from);
    from.valid() && to.valid() && b.sq(from) is Full && path_clear(b.grid(), from, to, dir)
        && !holds_side(b.grid(), to, p.color) && (kind_reaches(p, from, dir, dist, b.sq(to) is Full)
        || en_passant_ok(b, from, to) || castle_ok_at(b, from, to, n))
}

/// A legal move: it obeys the movement rules and the mover's king is not attacked on the
/// board where the move has been played.
pub open(crate) spec fn legal_at(b: Board, from: Coordinates, to: Coordinates, n: nat) -> bool
    decreases n, 5nat, 0nat,
{
    pseudo_at(b, from, to, n) && !danger_at(after(b, from, to), piece_at(b, from).color, n)
}

/// The piece on `from` attacks `to`: moving there is legal, and for a pawn it is a
/// diagonal step, never a step straight ahead.
pub open(crate) spec fn threat_at(b: Board, from: Coordinates, to: Coordinates, n: nat) -> bool
    decreases n, 6nat, 0nat,
{
    let dir = direction_between(from, to);
    legal_at(b, from, to, n) && (piece_at(b, from).kind == PieceKind::Pawn ==> distance_between(
        from,
        to,
    ) == 2 && dir != MoveDirection::Up && dir != MoveDirection::Down)
}

pub open(crate) spec fn castle_ok(b: Board, from: Coordinates, to: Coordinates) -> bool {
    castle_ok_at(rules_view(b), from, to, LOOKAHEAD as nat)
}

pub open(crate) spec fn can_castle(b: Board, color: PieceColor, kingside: bool) -> bool {
    can_castle_at(rules_view(b), color, kingside, LOOKAHEAD as nat)
}

pub open(crate) spec fn pseudo_legal(b: Board, from: Coordinates, to: Coordinates) -> bool {
    pseudo_at(rules_view(b), from, to, LOOKAHEAD as nat)
}

/// A legal move: it obeys the movement rules and does not leave the mover's king attacked.
pub open(crate) spec fn legal(b: Board, from: Coordinates, to: Coordinates) -> bool {
    legal_at(rules_view(b), from, to, LOOKAHEAD as nat)
}

/// The piece on `from` attacks `to`.
pub open(crate) spec fn threatens(b: Board, from: Coordinates, to: Coordinates) -> bool {
    threat_at(rules_view(b), from, to, LOOKAHEAD as nat)
}

/// The board prepared for a move: a rook leaving the A or H file loses its side's right on
/// that wing, and the en passant target becomes the one the move leaves.
pub open(crate) spec fn prepared(b: Board, from: Coordinates, to: Coordinates) -> Board {
    let p = piece_at(b, from);
    let stripped = if p.kind == PieceKind::Rook && from.col() == 0 {
        b.without_right(p.color, false)
    } else if p.kind == PieceKind::Rook && from.col() == 7 {
        b.without_right(p.color, true)
    } else {
        b
    };
    Board { opt_legal_passant_square: new_passant(b, from, to), ..stripped }
}

/// The pieces moved on the grid: for castling the rook is moved first, then the piece
/// leaves `from` for `to`, then a pawn taken en passant is removed, and a king's new square
/// is recorded (its side losing both castling rights).
pub open(crate) spec fn placed(b: Board, from: Coordinates, to: Coordinates) -> Board {
    let p = piece_at(b, from);
    let kingside = direction_between(from, to) == MoveDirection::Right;
    let home = king_home(p.color);
    let corner = rook_corner(p.color, kingside);
    let b1 = if castle_move(b, from, to) {
        b.with_square(corner, Square::Empty).with_square(home, Square::Empty).with_square(
            coord(castle_file(kingside, 2), home_rank(p.color)),
            b.sq(home),
        ).with_square(coord(castle_file(kingside, 1), home_rank(p.color)), b.sq(corner))
    } else {
        b
    };
    let b2 = b1.with_square(from, Square::Empty).with_square(to, Square::Full(p));
    let b3 = if en_passant_move(b, from, to) {
        b2.with_square(passant_victim(from, to), Square::Empty)
    } else {
        b2
    };
    if p.kind == PieceKind::King {
        b3.with_king(p.color, to)
    } else {
        b3
    }
}

/// The board after the move, but for the turn, the counters and the captured pieces:
/// castling rights, en passant target, pieces and king squares.
pub open(crate) spec fn after(b: Board, from: Coordinates, to: Coordinates) -> Board {
    placed(prepared(b, from, to), from, to)
}

/// Two boards that differ at most in what the rules set aside look alike to the rules,
/// before and after any move.
pub(crate) proof fn lemma_view_after(b: Board, s: Board, from: Coordinates, to: Coordinates)
    requires
        s.rows == b.rows,
        s.opt_legal_passant_square == b.opt_legal_passant_square,
        forall|c: PieceColor| #[trigger] s.king_square(c) == b.king_square(c),
        forall|c: PieceColor, k: bool| #[trigger] s.right(c, k) == b.right(c, k),
    ensures
        rules_view(s) == rules_view(b),
        rules_view(after(s, from, to)) == after(rules_view(b), from, to),
        rules_view(after(b, from, to)) == after(rules_view(b), from, to),
{
    assert(s.king_square(PieceColor::White) == b.king_square(PieceColor::White));
    assert(s.king_square(PieceColor::Black) == b.king_square(PieceColor::Black));
    assert(s.right(PieceColor::White, true) == b.right(PieceColor::White, true));
    assert(s.right(PieceColor::White, false) == b.right(PieceColor::White, false));
    assert(s.right(PieceColor::Black, true) == b.right(PieceColor::Black, true));
    assert(s.right(PieceColor::Black, false) == b.right(PieceColor::Black, false));
}

/// The move takes a piece.
pub open(crate) spec fn is_capture(b: Board, from: Coordinates, to: Coordinates) -> bool {
    b.sq(to) is Full || en_passant_ok(b, from, to)
}

/// The piece a capturing move takes.
pub open(crate) spec fn captured(b: Board, from: Coordinates, to: Coordinates) -> Piece {
    if b.sq(to) is Full {
        piece_at(b, to)
    } else {
        Piece { color: piece_at(b, from).color.inverse(), kind: PieceKind::Pawn }
    }
}

/// A pawn's double step from its home rank.
pub open(crate) spec fn double_step(b: Board, from: Coordinates, to: Coordinates) -> bool {
    let p = piece_at(b, from);
    b.sq(from) is Full && p.kind == PieceKind::Pawn && b.sq(to) == Square::Empty
        && distance_between(from, to) == 2 && direction_between(from, to) == forward(p.color)
}

/// The en passant target a legal move leaves: the square one rank behind a double step's
/// destination, on its file; none after any other move.
pub open(crate) spec fn new_passant(b: Board, from: Coordinates, to: Coordinates) -> Option<
    Coordinates,
> {
    if double_step(b, from, to) {
        Some(
            Coordinates {
                letter: to.letter,
                number: (to.number - step_row(forward(piece_at(b, from).color))) as isize,
            },
        )
    } else {
        None
    }
}

/// Whether `to` is the recorded en passant target.
pub fn passant_legal(to: &Coordinates, board: &Board) -> (r: bool)
    ensures
        r == (board.passant() == Some(*to)),
{
    match board.get_opt_passant_square() {
        Some(passant_square) => *to == passant_square,
        None => false,
    }
}

/// Plays the move on a copy of the board and asks whether the mover's king is then
/// attacked.
pub fn would_king_be_in_danger(board: Board, from: &Coordinates, to: &Coordinates) -> (r: bool)
    requires
        from.valid(),
        to.valid(),
        board.sq(*from) is Full,
    ensures
        r == after(board, *from, *to).in_danger(piece_at(board, *from).color),
{
    king_exposed_within(board, from, to, LOOKAHEAD)
}

/// `would_king_be_in_danger` with `depth` levels of lookahead.
pub(crate) fn king_exposed_within(board: Board, from: &Coordinates, to: &Coordinates, depth: u32) -> (r: bool)
    requires
        from.valid(),
        to.valid(),
        board.sq(*from) is Full,
    ensures
        r == danger_at(rules_view(after(board, *from, *to)), piece_at(board, *from).color, depth as nat),
    decreases depth, 1nat,
{
    let piece = match grid_get(&board.rows, from) {
        Square::Full(piece) => piece,
        Square::Empty => {
            return false;
        },
    };
    let mut copied_board = board;
    copied_board.relocate(from, to, piece);
    copied_board.king_in_danger_within(piece.color, depth)
}

/// Judges a move on the board.  The result holds, in order: whether the move is legal,
/// whether it captures, the side and kind of the captured piece, the direction and
/// distance between the squares, the square of a pawn taken en passant, and the en passant
/// target the move leaves.  The fields after the first describe the move only when it is
/// legal; the captured piece only when it captures.
pub fn parse_move_legality(from: &Coordinates, to: &Coordinates, chess_board: &Board) -> (r: (
    bool,
    bool,
    PieceColor,
    PieceKind,
    MoveDirection,
    isize,
    Option<Coordinates>,
    Option<Coordinates>,
))
    ensures
        r.0 == legal(*chess_board, *from, *to),
        r.4 == direction_between(*from, *to),
        r.5 == distance_between(*from, *to),
        r.0 ==> r.1 == is_capture(*chess_board, *from, *to),
        r.0 && r.1 ==> r.2 == captured(*chess_board, *from, *to).color && r.3 == captured(
            *chess_board,
            *from,
            *to,
        ).kind,
        r.0 ==> r.6 == if en_passant_ok(*chess_board, *from, *to) {
            Some(passant_victim(*from, *to))
        } else {
            None
        },
        r.0 ==> r.7 == new_passant(*chess_board, *from, *to),
{
    judge_within(from, to, chess_board, LOOKAHEAD)
}

/// `parse_move_legality` with `depth` levels of lookahead.
#[verifier::rlimit(100)]
pub(crate) fn judge_within(from: &Coordinates, to: &Coordinates, chess_board: &Board, depth: u32) -> (r: (
    bool,
    bool,
    PieceColor,
    PieceKind,
    MoveDirection,
    isize,
    Option<Coordinates>,
    Option<Coordinates>,
))
    ensures
        r.0 == legal_at(rules_view(*chess_board), *from, *to, depth as nat),
        r.4 == direction_between(*from, *to),
        r.5 == distance_between(*from, *to),
        r.0 ==> r.1 == is_capture(*chess_board, *from, *to),
        r.0 && r.1 ==> r.2 == captured(*chess_board, *from, *to).color && r.3 == captured(
            *chess_board,
            *from,
            *to,
        ).kind,
        r.0 ==> r.6 == if en_passant_ok(*chess_board, *from, *to) {
            Some(passant_victim(*from, *to))
        } else {
            None
        },
        r.0 ==> r.7 == new_passant(*chess_board, *from, *to),
    decreases depth, 4nat,
{
    let info = measure_distance(from, to);
    let dir = info.move_direction;
    let dist = info.distance;
    let illegal = (false, false, PieceColor::Black, PieceKind::Pawn, dir, dist, None, None);
    let from_square = match chess_board.retreive_square(from) {
        Ok(s) => s,
        Err(_) => {
            return illegal;
        },
    };
    let to_square = match chess_board.retreive_square(to) {
        Ok(s) => s,
        Err(_) => {
            return illegal;
        },
    };
    let piece = match from_square {
        Square::Full(p) => p,
        Square::Empty => {
            return illegal;
        },
    };
    if !chess_board.twixt_hither_and_yon(from, to, dir) {
        return illegal;
    }
    let (taking_piece, mut target_color, mut target_kind) = match to_square {
        Square::Full(t) => {
            if t.color == piece.color {
                return illegal;
            }
            (true, t.color, t.kind)
        },
        Square::Empty => (false, piece.color.get_inverse_color(), PieceKind::Pawn),
    };
    let mut successful = piece_reaches(&piece, from, dir, dist, taking_piece);
    let mut capture = taking_piece;
    let mut opt_passant_removal: Option<Coordinates> = None;
    let forward_diagonal = match (piece.color, dir) {
        (PieceColor::White, MoveDirection::Diagonal(DiagonalDirection::UpLeft))
        | (PieceColor::White, MoveDirection::Diagonal(DiagonalDirection::UpRight))
        | (PieceColor::Black, MoveDirection::Diagonal(DiagonalDirection::DownLeft))
        | (PieceColor::Black, MoveDirection::Diagonal(DiagonalDirection::DownRight)) => true,
        _ => false,
    };
    if !successful && piece.kind == PieceKind::Pawn && !taking_piece && dist == 2
        && forward_diagonal && passant_legal(to, chess_board) {
        let victim = Coordinates { letter: to.letter, number: from.number };
        let enemy_pawn = Piece { color: piece.color.get_inverse_color(), kind: PieceKind::Pawn };
        match chess_board.retreive_square(&victim) {
            Ok(Square::Full(v)) => {
                if v == enemy_pawn {
                    successful = true;
                    capture = true;
                    opt_passant_removal = Some(victim);
                    target_color = v.color;
                    target_kind = v.kind;
                }
            },
            _ => {},
        }
    }
    if !successful && piece.kind == PieceKind::King && dist == 2 && (dir == MoveDirection::Left
        || dir == MoveDirection::Right) {
        let kingside = dir == MoveDirection::Right;
        let row_number: isize = match piece.color {
            PieceColor::White => 1,
            PieceColor::Black => 8,
        };
        let corner = Coordinates {
            letter: if kingside {
                ColumnLetter::H
            } else {
                ColumnLetter::A
            },
            number: row_number,
        };
        let own_rook = Piece { color: piece.color, kind: PieceKind::Rook };
        let rook_in_corner = match grid_get(&chess_board.rows, &corner) {
            Square::Full(q) => q == own_rook,
            Square::Empty => false,
        };
        if from.letter == ColumnLetter::E && from.number == row_number && rook_in_corner
            && chess_board.can_castle_within(piece.color, kingside, depth) {
            successful = true;
        }
    }
    let opt_passant_target = if successful && piece.kind == PieceKind::Pawn && !taking_piece
        && dist == 2 && (dir == MoveDirection::Up || dir == MoveDirection::Down) {
        let behind: isize = if dir == MoveDirection::Up {
            to.number - 1
        } else {
            to.number + 1
        };
        Some(Coordinates { letter: to.letter, number: behind })
    } else {
        None
    };
    if successful {
        let snapshot = chess_board.snapshot();
        proof {
            lemma_view_after(*chess_board, snapshot, *from, *to);
        }
        successful = !king_exposed_within(snapshot, from, to, depth);
    }
    (
        successful,
        capture,
        target_color,
        target_kind,
        dir,
        dist,
        opt_passant_removal,
        opt_passant_target,
    )
}


/// The side to move has a legal move.
pub open(crate) spec fn has_legal_move(b: Board) -> bool {
    exists|from: Coordinates, to: Coordinates|
        from.valid() && to.valid() && holds_side(b.grid(), from, b.turn_of()) && #[trigger] legal(
            b,
            from,
            to,
        )
}

/// How things stand for a king: attacked or not, with or without a legal move.
#[derive(Debug, PartialEq, Eq, Structural, Clone, Copy)]
pub enum MateState {
    StaleMate,
    CheckMate,
    Check,
    Safe,
}

pub open spec fn mate_state(in_danger: bool, can_move: bool) -> MateState {
    match (in_danger, can_move) {
        (true, true) => MateState::Check,
        (true, false) => MateState::CheckMate,
        (false, true) => MateState::Safe,
        (false, false) => MateState::StaleMate,
    }
}

/// Classifies the position for the king of `king_color` and the side to move.
pub fn king_checkmate_state(king_color: PieceColor, chess_board: &Board) -> (r: MateState)
    ensures
        r == mate_state(chess_board.in_danger(king_color), has_legal_move(*chess_board)),
{
    let king_currently_in_danger = chess_board.is_king_in_danger(king_color);
    let legal_move_available = chess_board.legal_move_available();
    match (king_currently_in_danger, legal_move_available) {
        (true, true) => MateState::Check,
        (true, false) => MateState::CheckMate,
        (false, true) => MateState::Safe,
        (false, false) => MateState::StaleMate,
    }
}

/// The result reported after a move, from the state of the side now to move.
pub open(crate) spec fn classify(b: Board, color: PieceColor) -> MoveResult {
    match mate_state(b.in_danger(color), has_legal_move(b)) {
        MateState::Check => match color {
            PieceColor::Black => MoveResult::BlackKingChecked,
            PieceColor::White => MoveResult::WhiteKingChecked,
        },
        MateState::CheckMate => match color {
            PieceColor::Black => MoveResult::BlackKingCheckmated,
            PieceColor::White => MoveResult::WhiteKingCheckmated,
        },
        MateState::StaleMate => MoveResult::Stalemate,
        MateState::Safe => MoveResult::CompletedSafely,
    }
}

/// The castling right of `color` on a wing after the move: a king move loses both of its
/// side's rights, and a rook leaving the A or H file loses the right on that wing.
pub open(crate) spec fn right_after(
    b: Board,
    from: Coordinates,
    to: Coordinates,
    color: PieceColor,
    kingside: bool,
) -> bool {
    let p = piece_at(b, from);
    if p.color == color && p.kind == PieceKind::King {
        false
    } else if p.color == color && p.kind == PieceKind::Rook && ((kingside && from.col() == 7) || (
    !kingside && from.col() == 0)) {
        false
    } else {
        b.right(color, kingside)
    }
}

/// The move is played: `from` holds a piece of the side to move, the move is legal, and it
/// does not take a king.
pub open(crate) spec fn playable(b: Board, from: Coordinates, to: Coordinates) -> bool {
    from.valid() && b.sq(from) is Full && piece_at(b, from).color == b.turn_of() && legal(
        b,
        from,
        to,
    ) && !(b.sq(to) is Full && piece_at(b, to).kind == PieceKind::King)
}

/// The outcome reported for a move that is not played.
pub open(crate) spec fn refusal(b: Board, from: Coordinates, to: Coordinates) -> MoveResult {
    if !from.valid() {
        MoveResult::MoveIllegal
    } else if b.sq(from) == Square::Empty {
        MoveResult::EmptySquare
    } else if piece_at(b, from).color != b.turn_of() {
        MoveResult::WrongTurn
    } else {
        MoveResult::MoveIllegal
    }
}


/// A move that obeys the movement rules keeps each side's recorded king square on that
/// side's king: the king that moves is recorded on its destination, and no other king is
/// touched, since no move captures a king.
pub proof fn lemma_move_keeps_kings(b: Board, from: Coordinates, to: Coordinates)
    requires
        b.kings_placed(),
        pseudo_legal(b, from, to),
        !(b.sq(to) is Full && piece_at(b, to).kind == PieceKind::King),
    ensures
        after(b, from, to).kings_placed(),
{
    lemma_move_keeps_king(b, from, to, PieceColor::White);
    lemma_move_keeps_king(b, from, to, PieceColor::Black);
}

#[verifier::rlimit(60)]
proof fn lemma_move_keeps_king(b: Board, from: Coordinates, to: Coordinates, c: PieceColor)
    requires
        b.kings_placed(),
        pseudo_legal(b, from, to),
        !(b.sq(to) is Full && piece_at(b, to).kind == PieceKind::King),
    ensures
        after(b, from, to).king_placed(c),
{
    let p = piece_at(b, from);
    let dir = direction_between(from, to);
    let kingside = dir == MoveDirection::Right;
    let home = king_home(p.color);
    let corner = rook_corner(p.color, kingside);
    let king_dest = coord(castle_file(kingside, 2), home_rank(p.color));
    let rook_dest = coord(castle_file(kingside, 1), home_rank(p.color));
    let victim = passant_victim(from, to);
    let pb = prepared(b, from, to);
    assert(pb.rows == b.rows);
    assert(pb.king_square(c) == b.king_square(c));
    let b1 = if castle_move(b, from, to) {
        pb.with_square(corner, Square::Empty).with_square(home, Square::Empty).with_square(
            king_dest,
            b.sq(home),
        ).with_square(rook_dest, b.sq(corner))
    } else {
        pb
    };
    let b2 = b1.with_square(from, Square::Empty).with_square(to, Square::Full(p));
    let b3 = if en_passant_move(b, from, to) {
        b2.with_square(victim, Square::Empty)
    } else {
        b2
    };
    assert(after(b, from, to).grid() == b3.grid());
    if castle_move(b, from, to) {
        assert(castle_ok(b, from, to));
        assert(from == home);
        assert(to == king_dest);
        assert(rook_dest == path_square(from, dir, 1));
        assert(b.sq(rook_dest) == Square::Empty);
    }
    if en_passant_move(b, from, to) {
        assert(en_passant_ok(b, from, to));
    }
    {
        let k = b.king_square(c);
        assert(b.king_placed(c));
        assert(k.valid() && b.sq(k) == Square::Full(Piece { color: c, kind: PieceKind::King }));
        if p.kind == PieceKind::King && p.color == c {
            assert(after(b, from, to).king_square(c) == to);
            lemma_with_square(b1.with_square(from, Square::Empty), to, Square::Full(p), to);
            assert(!en_passant_move(b, from, to));
        } else {
            assert(after(b, from, to).king_square(c) == k);
            assert(k != from);
            assert(k != to);
            if castle_move(b, from, to) {
                lemma_with_square(pb, corner, Square::Empty, k);
                let s1 = pb.with_square(corner, Square::Empty);
                lemma_with_square(s1, home, Square::Empty, k);
                let s2 = s1.with_square(home, Square::Empty);
                lemma_with_square(s2, king_dest, b.sq(home), k);
                let s3 = s2.with_square(king_dest, b.sq(home));
                lemma_with_square(s3, rook_dest, b.sq(corner), k);
            }
            assert(b1.sq(k) == b.sq(k));
            lemma_with_square(b1, from, Square::Empty, k);
            lemma_with_square(b1.with_square(from, Square::Empty), to, Square::Full(p), k);
            if en_passant_move(b, from, to) {
                assert(k != victim);
                lemma_with_square(b2, victim, Square::Empty, k);
            }
        }
    }
}

} // verus!
