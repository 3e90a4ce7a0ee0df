use vstd::prelude::*;

use crate::board::{
    board_count, column_at, column_char, coord, count_in, grid_at, lemma_count_agrees, missing_pieces, Board, SideInformation, ColumnLetter, Coordinates, Row, Square,
};
use crate::pieces::{Piece, PieceColor, PieceKind};

verus! {

/// The character of a decimal digit.
pub open spec fn digit_char(d: int) -> char {
    (('0' as int) + d) as char
}

/// The decimal text of a natural number, without leading zeros.
pub open spec fn decimal(n: nat) -> Seq<char>
    decreases n,
{
    if n < 10 {
        seq![digit_char(n as int)]
    } else {
        decimal(n / 10) + seq![digit_char((n % 10) as int)]
    }
}

/// The decimal text of an integer, with a minus sign when it is negative.
pub open spec fn signed_decimal(n: int) -> Seq<char> {
    if n >= 0 {
        decimal(n as nat)
    } else {
        seq!['-'] + decimal((-n) as nat)
    }
}

/// The text of one square: nothing when empty, else the piece's letter.
pub open spec fn square_text(s: Square) -> Seq<char> {
    match s {
        Square::Empty => Seq::empty(),
        Square::Full(p) => seq![p.letter()],
    }
}

/// The text of a count of empty squares: nothing for none, else its digit.
pub open spec fn run_text(run: int) -> Seq<char> {
    if run > 0 {
        seq![digit_char(run)]
    } else {
        Seq::empty()
    }
}

/// The text of a rank from file `i` on, after `run` empty squares not yet written.
pub open spec fn rank_text_from(row: Row, i: int, run: int) -> Seq<char>
    decreases 8 - i,
{
    if i >= 8 {
        run_text(run)
    } else if row.at(i) == Square::Empty {
        rank_text_from(row, i + 1, run + 1)
    } else {
        run_text(run) + square_text(row.at(i)) + rank_text_from(row, i + 1, 0)
    }
}

/// The text of a rank: pieces by letter, each run of empty squares by its length.
pub open spec fn rank_text(row: Row) -> Seq<char> {
    rank_text_from(row, 0, 0)
}

/// The text of the grid's stored ranks before index `n`, separated by `/`.
pub open spec fn ranks_text(g: [Row; 8], n: int) -> Seq<char>
    decreases n,
{
    if n <= 0 {
        Seq::empty()
    } else if n == 1 {
        rank_text(g@[0])
    } else {
        ranks_text(g, n - 1) + seq!['/'] + rank_text(g@[n - 1])
    }
}

pub open spec fn upper_rights(kingside: bool, queenside: bool) -> Seq<char> {
    (if kingside {
        seq!['K']
    } else {
        Seq::<char>::empty()
    }) + (if queenside {
        seq!['Q']
    } else {
        Seq::<char>::empty()
    })
}

/// The castling field: `KQkq` in that order for the rights kept, `-` for none.
pub open spec fn castling_text(b: Board) -> Seq<char> {
    let t = upper_rights(b.right(PieceColor::White, true), b.right(PieceColor::White, false))
        + crate::board::rights_text(b.right(PieceColor::Black, true), b.right(PieceColor::Black, false));
    if t.len() == 0 {
        seq!['-']
    } else {
        t
    }
}

/// The en passant field: the target's file letter and rank, or `-`.
pub open spec fn passant_text(p: Option<Coordinates>) -> Seq<char> {
    match p {
        None => seq!['-'],
        Some(c) => seq![column_char(c.col())] + signed_decimal(c.number as int),
    }
}

pub open spec fn turn_text(c: PieceColor) -> Seq<char> {
    match c {
        PieceColor::White => seq!['w'],
        PieceColor::Black => seq!['b'],
    }
}

/// The six fields of the position text, separated by single spaces.
pub open spec fn board_text(b: Board) -> Seq<char> {
    ranks_text(b.grid(), 8) + seq![' '] + turn_text(b.turn_of()) + seq![' '] + castling_text(b)
        + seq![' '] + passant_text(b.passant()) + seq![' '] + decimal(b.half_moves() as nat)
        + seq![' '] + decimal(b.full_moves() as nat)
}

/// The one-character text of a decimal digit.
fn digit_str(d: u64) -> (r: &'static str)
    requires
        d < 10,
    ensures
        r@ == seq![digit_char(d as int)],
{
    proof {
        reveal_strlit("0");
        reveal_strlit("1");
        reveal_strlit("2");
        reveal_strlit("3");
        reveal_strlit("4");
        reveal_strlit("5");
        reveal_strlit("6");
        reveal_strlit("7");
        reveal_strlit("8");
        reveal_strlit("9");
    }
    let r = match d {
        0 => "0",
        1 => "1",
        2 => "2",
        3 => "3",
        4 => "4",
        5 => "5",
        6 => "6",
        7 => "7",
        8 => "8",
        _ => "9",
    };
    assert(r@ =~= seq![digit_char(d as int)]);
    r
}

/// Appends the decimal text of `n`.
fn push_decimal(s: &mut String, n: u64)
    ensures
        final(s)@ == old(s)@ + decimal(n as nat),
    decreases n,
{
    if n >= 10 {
        push_decimal(s, n / 10);
    }
    s.append(digit_str(n % 10));
    assert(final(s)@ =~= old(s)@ + decimal(n as nat));
}

impl Square {
    /// The text of the square: the piece's letter, or nothing when empty.
    pub fn get_fen_value(&self) -> (r: String)
        ensures
            r@ == square_text(*self),
    {
        match self {
            Square::Full(piece) => piece.get_fen_string(),
            Square::Empty => {
                let r = String::new();
                assert(r@ =~= square_text(*self));
                r
            },
        }
    }
}

impl Row {
    /// The rank's text in the position format.
    pub fn generate_row_fen_string(&self) -> (r: String)
        ensures
            r@ == rank_text(*self),
    {
        let mut accum_string = String::new();
        let mut empty_square_count: u64 = 0;
        let mut i: usize = 0;
        while i < 8
            invariant
                i <= 8,
                empty_square_count <= i,
                accum_string@ + rank_text_from(*self, i as int, empty_square_count as int)
                    == rank_text(*self),
            decreases 8 - i,
        {
            let square = self.squares[i];
            match square {
                Square::Empty => {
                    empty_square_count += 1;
                },
                Square::Full(_) => {
                    let ghost before = accum_string@;
                    let ghost run = empty_square_count as int;
                    if empty_square_count != 0 {
                        push_decimal(&mut accum_string, empty_square_count);
                        assert(decimal(empty_square_count as nat) =~= run_text(run));
                    } else {
                        assert(accum_string@ =~= before + run_text(run));
                    }
                    let text = square.get_fen_value();
                    accum_string.append(text.as_str());
                    empty_square_count = 0;
                    assert(accum_string@ + rank_text_from(*self, i + 1, 0) =~= before + (run_text(
                        run,
                    ) + square_text(self.at(i as int)) + rank_text_from(*self, i + 1, 0)));
                },
            }
            i += 1;
        }
        if empty_square_count != 0 {
            push_decimal(&mut accum_string, empty_square_count);
            assert(decimal(empty_square_count as nat) =~= run_text(empty_square_count as int));
        } else {
            assert(accum_string@ =~= accum_string@ + run_text(empty_square_count as int));
        }
        accum_string
    }
}


/// The one-character text of a file letter, in lower case.
fn column_str(letter: ColumnLetter) -> (r: &'static str)
    ensures
        r@ == seq![column_char(letter.index())],
{
    proof {
        reveal_strlit("a");
        reveal_strlit("b");
        reveal_strlit("c");
        reveal_strlit("d");
        reveal_strlit("e");
        reveal_strlit("f");
        reveal_strlit("g");
        reveal_strlit("h");
    }
    let r = match letter {
        ColumnLetter::A => "a",
        ColumnLetter::B => "b",
        ColumnLetter::C => "c",
        ColumnLetter::D => "d",
        ColumnLetter::E => "e",
        ColumnLetter::F => "f",
        ColumnLetter::G => "g",
        ColumnLetter::H => "h",
    };
    assert(r@ =~= seq![column_char(letter.index())]);
    r
}

impl Board {
    /// Appends the grid's field: the ranks from 8 down to 1, separated by `/`.
    fn push_ranks(&self, fen_output: &mut String)
        ensures
            final(fen_output)@ == old(fen_output)@ + ranks_text(self.grid(), 8),
    {
        proof {
            reveal_strlit("/");
        }
        let ghost start = fen_output@;
        let mut index: usize = 0;
        while index < 8
            invariant
                index <= 8,
                fen_output@ == start + ranks_text(self.grid(), index as int),
            decreases 8 - index,
        {
            let ghost before = fen_output@;
            proof {
                reveal_strlit("/");
            }
            if index > 0 {
                fen_output.append("/");
            }
            let ghost mid = fen_output@;
            let rowstring = self.rows[index].generate_row_fen_string();
            fen_output.append(rowstring.as_str());
            proof {
                assert(rowstring@ == rank_text(self.grid()@[index as int]));
                assert(fen_output@ == mid + rowstring@);
                if index > 0 {
                    assert(mid =~= before + seq!['/']);
                }
                if index == 0 {
                    assert(fen_output@ =~= start + ranks_text(self.grid(), 1));
                } else {
                    assert(ranks_text(self.grid(), index + 1) == ranks_text(self.grid(), index as int)
                        + seq!['/'] + rank_text(self.grid()@[index as int]));
                    assert(fen_output@ =~= start + ranks_text(self.grid(), index + 1));
                }
            }
            index += 1;
        }
    }

    /// Appends the castling field.
    fn push_castling(&self, fen_output: &mut String)
        ensures
            final(fen_output)@ == old(fen_output)@ + castling_text(*self),
    {
        proof {
            reveal_strlit("K");
            reveal_strlit("Q");
            reveal_strlit("-");
        }
        let mut castling_rights = String::new();
        if self.white_side_information.can_castle_kingside {
            castling_rights.append("K");
        }
        if self.white_side_information.can_castle_queenside {
            castling_rights.append("Q");
        }
        let black_rights = self.black_side_information.generate_fen_string();
        castling_rights.append(black_rights.as_str());
        assert(castling_rights@ =~= upper_rights(
            self.right(PieceColor::White, true),
            self.right(PieceColor::White, false),
        ) + crate::board::rights_text(
            self.right(PieceColor::Black, true),
            self.right(PieceColor::Black, false),
        ));
        if castling_rights.as_str().unicode_len() == 0 {
            castling_rights.append("-");
            assert(castling_rights@ =~= castling_text(*self));
        }
        fen_output.append(castling_rights.as_str());
    }

    /// Appends the en passant field.
    fn push_passant(&self, fen_output: &mut String)
        ensures
            final(fen_output)@ == old(fen_output)@ + passant_text(self.passant()),
    {
        proof {
            reveal_strlit("-");
        }
        let ghost start = fen_output@;
        match self.opt_legal_passant_square {
            Some(passant_square) => {
                fen_output.append(column_str(passant_square.letter));
                let n = passant_square.number;
                if n < 0 {
                    fen_output.append("-");
                    let magnitude: u64 = ((-(n + 1)) as u64) + 1;
                    push_decimal(fen_output, magnitude);
                } else {
                    push_decimal(fen_output, n as u64);
                }
            },
            None => {
                fen_output.append("-");
            },
        }
        assert(fen_output@ =~= start + passant_text(self.passant()));
    }

    /// The position in the six-field text format.
    pub fn generate_fen_string(&self) -> (r: String)
        ensures
            r@ == board_text(*self),
    {
        proof {
            reveal_strlit(" ");
            reveal_strlit("w");
            reveal_strlit("b");
        }
        let mut fen_output = String::new();
        self.push_ranks(&mut fen_output);
        fen_output.append(" ");
        match self.turn {
            PieceColor::Black => fen_output.append("b"),
            PieceColor::White => fen_output.append("w"),
        }
        fen_output.append(" ");
        self.push_castling(&mut fen_output);
        fen_output.append(" ");
        self.push_passant(&mut fen_output);
        fen_output.append(" ");
        push_decimal(&mut fen_output, self.half_turns as u64);
        fen_output.append(" ");
        push_decimal(&mut fen_output, self.full_turns as u64);
        assert(fen_output@ =~= board_text(*self));
        fen_output
    }
}


/// The pieces of `s` between occurrences of `sep`; one piece more than there are
/// separators.
pub open spec fn split_on(s: Seq<char>, sep: char) -> Seq<Seq<char>>
    decreases s.len(),
{
    if s.len() == 0 {
        seq![Seq::empty()]
    } else {
        let p = split_on(s.drop_last(), sep);
        if s.last() == sep {
            p.push(Seq::empty())
        } else {
            p.update(p.len() - 1, p.last().push(s.last()))
        }
    }
}

pub proof fn lemma_split_nonempty(s: Seq<char>, sep: char)
    ensures
        split_on(s, sep).len() >= 1,
    decreases s.len(),
{
    if s.len() > 0 {
        lemma_split_nonempty(s.drop_last(), sep);
    }
}

/// Splits a text at every occurrence of `sep`.
pub fn split_text(s: &str, sep: char) -> (r: Vec<&str>)
    ensures
        r@.len() == split_on(s@, sep).len(),
        forall|i: int| 0 <= i < r@.len() ==> #[trigger] r@[i]@ == split_on(s@, sep)[i],
{
    let n = s.unicode_len();
    let mut parts: Vec<&str> = Vec::new();
    let mut start: usize = 0;
    let mut i: usize = 0;
    proof {
        assert(s@.take(0) =~= Seq::<char>::empty());
        assert(s@.subrange(0, 0) =~= Seq::<char>::empty());
    }
    while i < n
        invariant
            n == s@.len(),
            start <= i <= n,
            parts@.len() + 1 == split_on(s@.take(i as int), sep).len(),
            forall|k: int|
                0 <= k < parts@.len() ==> #[trigger] parts@[k]@ == split_on(s@.take(i as int), sep)[k],
            s@.subrange(start as int, i as int) == split_on(s@.take(i as int), sep).last(),
        decreases n - i,
    {
        let c = s.get_char(i);
        proof {
            assert(s@.take(i + 1).drop_last() =~= s@.take(i as int));
            assert(s@.take(i + 1).last() == c);
            lemma_split_nonempty(s@.take(i as int), sep);
        }
        if c == sep {
            parts.push(s.substring_char(start, i));
            start = i + 1;
            assert(s@.subrange(start as int, i + 1) =~= Seq::<char>::empty());
        } else {
            assert(s@.subrange(start as int, i + 1) =~= s@.subrange(start as int, i as int).push(c));
        }
        i += 1;
    }
    parts.push(s.substring_char(start, n));
    proof {
        assert(s@.take(n as int) =~= s@);
    }
    parts
}


/// The lower-case form of an ASCII letter; other characters are kept.
pub open spec fn lower_char(c: char) -> char {
    if 'A' <= c && c <= 'Z' {
        ((c as u32) + 32) as char
    } else {
        c
    }
}

/// The kind named by a lower-case letter of the position text.
pub open spec fn kind_of_char(c: char) -> Option<PieceKind> {
    if c == 'r' {
        Some(PieceKind::Rook)
    } else if c == 'p' {
        Some(PieceKind::Pawn)
    } else if c == 'n' {
        Some(PieceKind::Knight)
    } else if c == 'k' {
        Some(PieceKind::King)
    } else if c == 'q' {
        Some(PieceKind::Queen)
    } else if c == 'b' {
        Some(PieceKind::Bishop)
    } else {
        None
    }
}

/// The piece named by a letter: lower case for Black, upper case for White.
pub open spec fn piece_of_char(c: char) -> Option<Piece> {
    match kind_of_char(lower_char(c)) {
        Some(k) => Some(
            Piece {
                color: if lower_char(c) == c {
                    PieceColor::Black
                } else {
                    PieceColor::White
                },
                kind: k,
            },
        ),
        None => None,
    }
}

pub fn parse_char_to_piecekind(input_char: char) -> (r: Option<PieceKind>)
    ensures
        r == kind_of_char(input_char),
{
    match input_char {
        'r' => Some(PieceKind::Rook),
        'p' => Some(PieceKind::Pawn),
        'n' => Some(PieceKind::Knight),
        'k' => Some(PieceKind::King),
        'q' => Some(PieceKind::Queen),
        'b' => Some(PieceKind::Bishop),
        _ => None,
    }
}

fn to_lower(c: char) -> (r: char)
    ensures
        r == lower_char(c),
{
    if 'A' <= c && c <= 'Z' {
        ((c as u8) + 32) as char
    } else {
        c
    }
}

pub fn parse_char_to_piece(input_char: char) -> (r: Option<Piece>)
    ensures
        r == piece_of_char(input_char),
{
    let lowercased_input = to_lower(input_char);
    let piece_color = if input_char == lowercased_input {
        PieceColor::Black
    } else {
        PieceColor::White
    };
    match parse_char_to_piecekind(lowercased_input) {
        Some(piece_kind) => Some(Piece { kind: piece_kind, color: piece_color }),
        None => None,
    }
}

/// The side named by the turn field: the single letter `w` or `b`.
pub open spec fn turn_of_text(t: Seq<char>) -> Option<PieceColor> {
    if t.len() != 1 {
        None
    } else if t[0] == 'b' {
        Some(PieceColor::Black)
    } else if t[0] == 'w' {
        Some(PieceColor::White)
    } else {
        None
    }
}

pub fn parse_char_to_turn_color(turn_string: &str) -> (r: Option<PieceColor>)
    ensures
        r == turn_of_text(turn_string@),
{
    if turn_string.unicode_len() != 1 {
        return None;
    }
    match turn_string.get_char(0) {
        'b' => Some(PieceColor::Black),
        'w' => Some(PieceColor::White),
        _ => None,
    }
}

/// Whether a character occurs in a text.
pub open spec fn has_char(t: Seq<char>, c: char) -> bool {
    exists|i: int| 0 <= i < t.len() && t[i] == c
}

/// The castling rights named by the castling field, in the order White kingside, White
/// queenside, Black kingside, Black queenside; other characters are ignored.
pub fn parse_string_to_castling_rights(input_str: &str) -> (r: (bool, bool, bool, bool))
    ensures
        r == (has_char(input_str@, 'K'), has_char(input_str@, 'Q'), has_char(input_str@, 'k'), has_char(input_str@, 'q')),
{
    let mut black_kingside = false;
    let mut black_queenside = false;
    let mut white_kingside = false;
    let mut white_queenside = false;
    let n = input_str.unicode_len();
    let mut i: usize = 0;
    while i < n
        invariant
            n == input_str@.len(),
            i <= n,
            white_kingside == has_char(input_str@.take(i as int), 'K'),
            white_queenside == has_char(input_str@.take(i as int), 'Q'),
            black_kingside == has_char(input_str@.take(i as int), 'k'),
            black_queenside == has_char(input_str@.take(i as int), 'q'),
        decreases n - i,
    {
        let character = input_str.get_char(i);
        proof {
            let t = input_str@.take(i + 1);
            let u = input_str@.take(i as int);
            assert(forall|j: int| 0 <= j < i ==> #[trigger] t[j] == u[j]);
            assert(t[i as int] == character);
        }
        match character {
            'K' => white_kingside = true,
            'Q' => white_queenside = true,
            'k' => black_kingside = true,
            'q' => black_queenside = true,
            _ => {},
        }
        i += 1;
    }
    assert(input_str@.take(n as int) =~= input_str@);
    (white_kingside, white_queenside, black_kingside, black_queenside)
}

/// The en passant field read as a square: a lower-case file letter then a rank digit 1 to
/// 8; anything else names no square.
pub open spec fn passant_of_text(t: Seq<char>) -> Option<Coordinates> {
    if t.len() == 2 && ('a' <= t[0] <= 'h') && ('1' <= t[1] <= '8') {
        Some(
            Coordinates {
                letter: column_at((t[0] as int) - ('a' as int)),
                number: ((t[1] as int) - ('0' as int)) as isize,
            },
        )
    } else {
        None
    }
}

pub fn parse_string_into_passant_square(input_str: &str) -> (r: Option<Coordinates>)
    ensures
        r == passant_of_text(input_str@),
{
    if input_str.unicode_len() != 2 {
        return None;
    }
    let letter = input_str.get_char(0);
    let digit = input_str.get_char(1);
    if !('a' <= letter && letter <= 'h') {
        return None;
    }
    let col = match ColumnLetter::convert_to(letter) {
        Ok(col) => col,
        Err(_) => {
            return None;
        },
    };
    match parse_char_to_int(digit) {
        Ok(number) => {
            assert(column_at((letter as int) - ('a' as int)) == col);
            Some(Coordinates { letter: col, number })
        },
        Err(_) => None,
    }
}

pub const INVALID_ROW: &'static str = "invalid row";

/// Reads a rank digit, 1 to 8.
pub fn parse_char_to_int(row_number: char) -> (r: Result<isize, &'static str>)
    ensures
        match r {
            Ok(n) => '1' <= row_number <= '8' && n == (row_number as int) - ('0' as int),
            Err(e) => !('1' <= row_number <= '8') && e@ == INVALID_ROW@,
        },
{
    match row_number {
        '1' => Ok(1),
        '2' => Ok(2),
        '3' => Ok(3),
        '4' => Ok(4),
        '5' => Ok(5),
        '6' => Ok(6),
        '7' => Ok(7),
        '8' => Ok(8),
        _ => Err(INVALID_ROW),
    }
}


/// The squares a character of a rank stands for: a digit for that many empty squares, a
/// piece letter for that piece.
pub open spec fn squares_of_char(c: char) -> Option<Seq<Square>> {
    if '1' <= c && c <= '8' {
        Some(Seq::new(((c as int) - ('0' as int)) as nat, |i: int| Square::Empty))
    } else {
        match piece_of_char(c) {
            Some(p) => Some(seq![Square::Full(p)]),
            None => None,
        }
    }
}

/// The squares a rank's text stands for, or nothing when a character is not recognised.
pub open spec fn parse_squares(s: Seq<char>) -> Option<Seq<Square>>
    decreases s.len(),
{
    if s.len() == 0 {
        Some(Seq::empty())
    } else {
        match parse_squares(s.drop_last()) {
            None => None,
            Some(q) => match squares_of_char(s.last()) {
                None => None,
                Some(a) => Some(q + a),
            },
        }
    }
}

/// The eight squares of a rank's text, or nothing when it does not describe exactly eight.
pub open spec fn rank_squares(s: Seq<char>) -> Option<Seq<Square>> {
    match parse_squares(s) {
        Some(q) => if q.len() == 8 {
            Some(q)
        } else {
            None
        },
        None => None,
    }
}

pub proof fn lemma_parse_prefix(s: Seq<char>, j: int)
    requires
        0 <= j <= s.len(),
        parse_squares(s) is Some,
    ensures
        parse_squares(s.take(j)) is Some,
    decreases s.len(),
{
    if j < s.len() {
        assert(s.drop_last().take(j) =~= s.take(j));
        lemma_parse_prefix(s.drop_last(), j);
    } else {
        assert(s.take(j) =~= s);
    }
}

/// Reads one rank of the position text.
pub fn digest_row_string_to_row(row_string: &str) -> (r: Option<Row>)
    ensures
        match r {
            Some(row) => rank_squares(row_string@) is Some && forall|i: int|
                0 <= i < 8 ==> #[trigger] row.at(i) == rank_squares(row_string@)->Some_0[i],
            None => rank_squares(row_string@) is None,
        },
{
    let n = row_string.unicode_len();
    let mut squares: Vec<Square> = Vec::new();
    let mut i: usize = 0;
    assert(row_string@.take(0) =~= Seq::<char>::empty());
    while i < n
        invariant
            n == row_string@.len(),
            i <= n,
            parse_squares(row_string@.take(i as int)) == Some(squares@),
        decreases n - i,
    {
        let character = row_string.get_char(i);
        let ghost before = squares@;
        proof {
            assert(row_string@.take(i + 1).drop_last() =~= row_string@.take(i as int));
            assert(row_string@.take(i + 1).last() == character);
        }
        if '1' <= character && character <= '8' {
            let count: u32 = (character as u32) - ('0' as u32);
            let mut k: u32 = 0;
            while k < count
                invariant
                    k <= count,
                    squares@ == before + Seq::new(k as nat, |j: int| Square::Empty),
                decreases count - k,
            {
                squares.push(Square::Empty);
                k += 1;
                assert(squares@ =~= before + Seq::new(k as nat, |j: int| Square::Empty));
            }
        } else {
            match parse_char_to_piece(character) {
                Some(piece) => {
                    squares.push(Square::Full(piece));
                    assert(squares@ =~= before + seq![Square::Full(piece)]);
                },
                None => {
                    proof {
                        if parse_squares(row_string@) is Some {
                            lemma_parse_prefix(row_string@, i + 1);
                        }
                    }
                    return None;
                },
            }
        }
        i += 1;
    }
    assert(row_string@.take(n as int) =~= row_string@);
    if squares.len() == 8 {
        let arr = [
            squares[0],
            squares[1],
            squares[2],
            squares[3],
            squares[4],
            squares[5],
            squares[6],
            squares[7],
        ];
        let row = Row::new(arr);
        assert(arr@ =~= squares@);
        Some(row)
    } else {
        None
    }
}

/// The ranks of the board field parse: exactly eight, each of eight squares.
pub open spec fn ranks_ok(t: Seq<char>) -> bool {
    let ranks = split_on(t, '/');
    ranks.len() == 8 && forall|i: int| 0 <= i < 8 ==> #[trigger] rank_squares(ranks[i]) is Some
}

/// The square that the board field gives for `c`.
pub open spec fn parsed_square(t: Seq<char>, c: Coordinates) -> Square {
    rank_squares(split_on(t, '/')[8 - c.number])->Some_0[c.col()]
}

/// Reads the board field and appends its eight rows, rank 8 first.  When the field does
/// not parse, fewer than eight rows are appended.
pub fn digest_board_string_into_rows(row_text: &str, row_collection: &mut Vec<Row>)
    ensures
        ranks_ok(row_text@) <==> final(row_collection)@.len() == old(row_collection)@.len() + 8,
        final(row_collection)@.len() <= old(row_collection)@.len() + 8,
        final(row_collection)@.len() >= old(row_collection)@.len(),
        forall|i: int| 0 <= i < old(row_collection)@.len() ==> #[trigger] final(row_collection)@[i] == old(row_collection)@[i],
        ranks_ok(row_text@) ==> forall|i: int, j: int|
            0 <= i < 8 && 0 <= j < 8 ==> #[trigger] final(row_collection)@[old(row_collection)@.len() + i].at(j)
                == rank_squares(split_on(row_text@, '/')[i])->Some_0[j],
{
    let row_strings = split_text(row_text, '/');
    if row_strings.len() != 8 {
        return;
    }
    let ghost start = row_collection@.len();
    let mut k: usize = 0;
    while k < 8
        invariant
            row_strings@.len() == 8,
            forall|i: int| 0 <= i < 8 ==> #[trigger] row_strings@[i]@ == split_on(row_text@, '/')[i],
            split_on(row_text@, '/').len() == 8,
            k <= 8,
            row_collection@.len() == start + k,
            start == old(row_collection)@.len(),
            forall|i: int| 0 <= i < old(row_collection)@.len() ==> #[trigger] row_collection@[i] == old(row_collection)@[i],
            forall|i: int| 0 <= i < k ==> #[trigger] rank_squares(split_on(row_text@, '/')[i]) is Some,
            forall|i: int, j: int|
                0 <= i < k && 0 <= j < 8 ==> #[trigger] row_collection@[start + i].at(j)
                    == rank_squares(split_on(row_text@, '/')[i])->Some_0[j],
        decreases 8 - k,
    {
        match digest_row_string_to_row(row_strings[k]) {
            Some(row) => {
                row_collection.push(row);
            },
            None => {
                return;
            },
        }
        k += 1;
    }
}

/// Whether every character is a decimal digit.
pub open spec fn all_digits(s: Seq<char>) -> bool {
    forall|i: int| 0 <= i < s.len() ==> '0' <= #[trigger] s[i] && s[i] <= '9'
}

/// The value of a run of decimal digits.
pub open spec fn digits_value(s: Seq<char>) -> int
    decreases s.len(),
{
    if s.len() == 0 {
        0
    } else {
        digits_value(s.drop_last()) * 10 + ((s.last() as int) - ('0' as int))
    }
}

/// A counter field: one or more decimal digits whose value fits in 32 bits.
pub open spec fn number_of_text(s: Seq<char>) -> Option<u32> {
    if s.len() > 0 && all_digits(s) && digits_value(s) <= u32::MAX {
        Some(digits_value(s) as u32)
    } else {
        None
    }
}

/// Reads a counter field.
pub fn parse_counter(s: &str) -> (r: Option<u32>)
    ensures
        r == number_of_text(s@),
{
    let n = s.unicode_len();
    if n == 0 {
        return None;
    }
    let cap: u64 = 4294967296;
    let mut acc: u64 = 0;
    let mut i: usize = 0;
    assert(s@.take(0) =~= Seq::<char>::empty());
    while i < n
        invariant
            n == s@.len(),
            i <= n,
            cap == u32::MAX + 1,
            all_digits(s@.take(i as int)),
            digits_value(s@.take(i as int)) >= 0,
            acc == if digits_value(s@.take(i as int)) < cap {
                digits_value(s@.take(i as int))
            } else {
                cap as int
            },
        decreases n - i,
    {
        let c = s.get_char(i);
        proof {
            assert(s@.take(i + 1).drop_last() =~= s@.take(i as int));
            assert(s@.take(i + 1).last() == c);
        }
        if !('0' <= c && c <= '9') {
            assert(!all_digits(s@)) by {
                assert(s@[i as int] == c);
            }
            return None;
        }
        let d = (c as u64) - ('0' as u64);
        assert(forall|j: int| 0 <= j < i + 1 ==> #[trigger] s@.take(i + 1)[j] == s@.take(i as int + 1)[j]);
        assert(all_digits(s@.take(i + 1))) by {
            assert(forall|j: int| 0 <= j < i ==> #[trigger] s@.take(i + 1)[j] == s@.take(i as int)[j]);
        }
        if acc >= cap {
            acc = cap;
        } else {
            let next = acc * 10 + d;
            acc = if next >= cap {
                cap
            } else {
                next
            };
        }
        i += 1;
    }
    assert(s@.take(n as int) =~= s@);
    if acc >= cap {
        None
    } else {
        Some(acc as u32)
    }
}


/// How many squares of the board field hold `target`.
pub open spec fn text_count(t: Seq<char>, target: Square) -> nat {
    count_in(|c: Coordinates| parsed_square(t, c), target, 64)
}

pub open spec fn king_of(color: PieceColor) -> Square {
    Square::Full(Piece { color, kind: PieceKind::King })
}

/// The text describes a position: six fields separated by single spaces; eight ranks of
/// eight squares each; a side to move; counters that are decimal numbers; and exactly one
/// king of each side.
pub open spec fn decodable(s: Seq<char>) -> bool {
    let f = split_on(s, ' ');
    &&& f.len() == 6
    &&& ranks_ok(f[0])
    &&& turn_of_text(f[1]) is Some
    &&& castling_ok(f[2])
    &&& passant_field_ok(f[3])
    &&& number_of_text(f[4]) is Some
    &&& number_of_text(f[5]) is Some
    &&& text_count(f[0], king_of(PieceColor::White)) == 1
    &&& text_count(f[0], king_of(PieceColor::Black)) == 1
}

/// The castling field is `-`, or the letters of `KQkq` that it holds, in that order, each
/// once.
pub open spec fn castling_ok(t: Seq<char>) -> bool {
    t == seq!['-'] || (t.len() > 0 && t == upper_rights(has_char(t, 'K'), has_char(t, 'Q'))
        + crate::board::rights_text(has_char(t, 'k'), has_char(t, 'q')))
}

/// The en passant field is `-` or a square.
pub open spec fn passant_field_ok(t: Seq<char>) -> bool {
    t == seq!['-'] || passant_of_text(t) is Some
}

/// Whether a text is the single character `-`.
fn is_dash(t: &str) -> (r: bool)
    ensures
        r == (t@ == seq!['-']),
{
    if t.unicode_len() == 1 {
        let c = t.get_char(0);
        if c == '-' {
            assert(t@ =~= seq!['-']);
            true
        } else {
            false
        }
    } else {
        false
    }
}

/// Whether the castling field is well formed, given the rights it names.
fn castling_field_ok(field: &str, wk: bool, wq: bool, bk: bool, bq: bool) -> (r: bool)
    requires
        wk == has_char(field@, 'K'),
        wq == has_char(field@, 'Q'),
        bk == has_char(field@, 'k'),
        bq == has_char(field@, 'q'),
    ensures
        r == castling_ok(field@),
{
    if is_dash(field) {
        return true;
    }
    proof {
        reveal_strlit("K");
        reveal_strlit("Q");
        reveal_strlit("k");
        reveal_strlit("q");
    }
    let mut canonical = String::new();
    if wk {
        canonical.append("K");
    }
    if wq {
        canonical.append("Q");
    }
    if bk {
        canonical.append("k");
    }
    if bq {
        canonical.append("q");
    }
    assert(canonical@ =~= upper_rights(wk, wq) + crate::board::rights_text(bk, bq));
    let given = String::from_str(field);
    field.unicode_len() > 0 && canonical == given
}

/// `b` is the position that the text describes: its squares, side to move, castling
/// rights, en passant target and counters are those of the fields, its recorded king
/// squares hold the kings, and each side's captures are what the other side is missing.
pub open spec fn decodes_to(s: Seq<char>, b: Board) -> bool {
    let f = split_on(s, ' ');
    &&& forall|c: Coordinates| c.valid() ==> #[trigger] b.sq(c) == parsed_square(f[0], c)
    &&& b.turn_of() == turn_of_text(f[1])->Some_0
    &&& b.right(PieceColor::White, true) == has_char(f[2], 'K')
    &&& b.right(PieceColor::White, false) == has_char(f[2], 'Q')
    &&& b.right(PieceColor::Black, true) == has_char(f[2], 'k')
    &&& b.right(PieceColor::Black, false) == has_char(f[2], 'q')
    &&& b.passant() == passant_of_text(f[3])
    &&& b.half_moves() == number_of_text(f[4])->Some_0
    &&& b.full_moves() == number_of_text(f[5])->Some_0
    &&& forall|c: PieceColor| #[trigger] b.king_square(c).valid() && b.sq(b.king_square(c)) == king_of(c)
    &&& b.side(PieceColor::White).taken() == missing_pieces(b, PieceColor::White)
    &&& b.side(PieceColor::Black).taken() == missing_pieces(b, PieceColor::Black)
    &&& b.wf()
}

/// Reads a position from its six-field text.  Fails, with nothing built, when the text is
/// not `decodable`.  The castling field grants each right whose letter it holds, and an en
/// passant field that names no square leaves no target.
pub fn digest_string_to_board(file_contents: &str) -> (r: Option<Board>)
    ensures
        r is Some <==> decodable(file_contents@),
        r matches Some(b) ==> decodes_to(file_contents@, b),
{
    let string_parts = split_text(file_contents, ' ');
    if string_parts.len() != 6 {
        return None;
    }
    let ghost f = split_on(file_contents@, ' ');
    let mut accum_rows: Vec<Row> = Vec::new();
    digest_board_string_into_rows(string_parts[0], &mut accum_rows);
    if accum_rows.len() != 8 {
        return None;
    }
    let turn_color = match parse_char_to_turn_color(string_parts[1]) {
        Some(turn) => turn,
        None => {
            return None;
        },
    };
    let (white_castle_kingside, white_castle_queenside, black_castle_kingside, black_castle_queenside) =
        parse_string_to_castling_rights(string_parts[2]);
    if !castling_field_ok(
        string_parts[2],
        white_castle_kingside,
        white_castle_queenside,
        black_castle_kingside,
        black_castle_queenside,
    ) {
        return None;
    }
    let opt_passant_square = parse_string_into_passant_square(string_parts[3]);
    if opt_passant_square.is_none() && !is_dash(string_parts[3]) {
        return None;
    }
    let half_turns = match parse_counter(string_parts[4]) {
        Some(n) => n,
        None => {
            return None;
        },
    };
    let full_turns = match parse_counter(string_parts[5]) {
        Some(n) => n,
        None => {
            return None;
        },
    };
    let rows_as_array = [
        accum_rows[0],
        accum_rows[1],
        accum_rows[2],
        accum_rows[3],
        accum_rows[4],
        accum_rows[5],
        accum_rows[6],
        accum_rows[7],
    ];
    let mut white_information = SideInformation::default(PieceColor::White);
    let mut black_information = SideInformation::default(PieceColor::Black);
    let mut return_board = Board::new(
        rows_as_array,
        turn_color,
        opt_passant_square,
        white_information,
        black_information,
        half_turns,
        full_turns,
    );
    let ghost built = return_board;
    proof {
        assert(string_parts@[0]@ == f[0]);
        assert(ranks_ok(f[0]));
        assert forall|c: Coordinates| c.valid() implies #[trigger] return_board.sq(c) == parsed_square(f[0], c) by {
            let i = 8 - c.number;
            let j = c.col();
            assert(rows_as_array@[i] == accum_rows@[i]);
            assert(0 <= j < 8);
            assert(accum_rows@[0 + i].at(j) == rank_squares(split_on(f[0], '/')[i])->Some_0[j]);
        }
        let fa = |c: Coordinates| grid_at(return_board.grid(), c);
        let fb = |c: Coordinates| parsed_square(f[0], c);
        assert forall|c: Coordinates| c.valid() implies #[trigger] fa(c) == fb(c) by {
            assert(return_board.sq(c) == parsed_square(f[0], c));
        }
        lemma_count_agrees(fa, fb, king_of(PieceColor::White), 64);
        lemma_count_agrees(fa, fb, king_of(PieceColor::Black), 64);
    }
    let white_king = Piece { color: PieceColor::White, kind: PieceKind::King };
    let black_king = Piece { color: PieceColor::Black, kind: PieceKind::King };
    if return_board.count_on_board(white_king) != 1 || return_board.count_on_board(black_king) != 1 {
        return None;
    }
    let white_square = match return_board.find_piece(white_king) {
        Some(c) => c,
        None => {
            return None;
        },
    };
    let black_square = match return_board.find_piece(black_king) {
        Some(c) => c,
        None => {
            return None;
        },
    };
    return_board.record_sides(
        white_square,
        black_square,
        white_castle_kingside,
        white_castle_queenside,
        black_castle_kingside,
        black_castle_queenside,
    );
    let ghost recorded = return_board;
    return_board.adjust_taken_pieces();
    proof {
        assert(string_parts@[1]@ == f[1]);
        assert(string_parts@[2]@ == f[2]);
        assert(string_parts@[3]@ == f[3]);
        assert(string_parts@[4]@ == f[4]);
        assert(string_parts@[5]@ == f[5]);
        assert(return_board.grid() == recorded.grid());
        assert(return_board.grid() == built.grid());
        assert forall|c: Coordinates| c.valid() implies #[trigger] return_board.sq(c) == parsed_square(f[0], c) by {
            assert(built.sq(c) == parsed_square(f[0], c));
        }
        assert(return_board.king_square(PieceColor::White) == white_square);
        assert(return_board.king_square(PieceColor::Black) == black_square);
        assert forall|c: PieceColor| #[trigger] return_board.king_square(c).valid() && return_board.sq(return_board.king_square(c)) == king_of(c) by {
            if c == PieceColor::White {} else {}
        }
    }
    Some(return_board)
}


proof fn lemma_split_concat(a: Seq<char>, b: Seq<char>, sep: char)
    ensures
        split_on(a + seq![sep] + b, sep) == split_on(a, sep) + split_on(b, sep),
    decreases b.len(),
{
    lemma_split_nonempty(a, sep);
    if b.len() == 0 {
        assert((a + seq![sep] + b).drop_last() =~= a);
        assert(split_on(b, sep) =~= seq![Seq::<char>::empty()]);
        assert(split_on(a, sep).push(Seq::empty()) =~= split_on(a, sep) + split_on(b, sep));
    } else {
        let b0 = b.drop_last();
        let x = b.last();
        lemma_split_concat(a, b0, sep);
        lemma_split_nonempty(b0, sep);
        assert((a + seq![sep] + b).drop_last() =~= a + seq![sep] + b0);
        assert((a + seq![sep] + b).last() == x);
        let pa = split_on(a, sep);
        let pb = split_on(b0, sep);
        if x == sep {
            assert((pa + pb).push(Seq::empty()) =~= pa + pb.push(Seq::empty()));
        } else {
            assert((pa + pb).update((pa + pb).len() - 1, (pa + pb).last().push(x)) =~= pa
                + pb.update(pb.len() - 1, pb.last().push(x)));
        }
    }
}

proof fn lemma_split_single(t: Seq<char>, sep: char)
    requires
        forall|i: int| 0 <= i < t.len() ==> t[i] != sep,
    ensures
        split_on(t, sep) == seq![t],
    decreases t.len(),
{
    if t.len() == 0 {
        assert(t =~= Seq::<char>::empty());
    } else {
        let t0 = t.drop_last();
        assert(forall|i: int| 0 <= i < t0.len() ==> #[trigger] t0[i] == t[i]);
        lemma_split_single(t0, sep);
        assert(t.last() != sep);
        assert(t0.push(t.last()) =~= t);
        let p = split_on(t0, sep);
        assert(p.len() - 1 == 0);
        assert(p.last() == t0);
        assert(p.update(0, t0.push(t.last())) =~= seq![t]);
    }
}

/// A character that is neither a space nor a slash.
pub open spec fn plain(c: char) -> bool {
    c != ' ' && c != '/'
}

pub open spec fn all_plain(t: Seq<char>) -> bool {
    forall|i: int| 0 <= i < t.len() ==> plain(#[trigger] t[i])
}

proof fn lemma_digit_char(d: int)
    requires
        0 <= d <= 9,
    ensures
        digit_char(d) as int == ('0' as int) + d,
        '0' <= digit_char(d) <= '9',
        plain(digit_char(d)),
{
    if d == 0 {
        assert(digit_char(d) == '0');
    } else if d == 1 {
        assert(digit_char(d) == '1');
    } else if d == 2 {
        assert(digit_char(d) == '2');
    } else if d == 3 {
        assert(digit_char(d) == '3');
    } else if d == 4 {
        assert(digit_char(d) == '4');
    } else if d == 5 {
        assert(digit_char(d) == '5');
    } else if d == 6 {
        assert(digit_char(d) == '6');
    } else if d == 7 {
        assert(digit_char(d) == '7');
    } else if d == 8 {
        assert(digit_char(d) == '8');
    } else {
        assert(digit_char(d) == '9');
    }
}

proof fn lemma_decimal_digits(n: nat)
    ensures
        decimal(n).len() > 0,
        all_digits(decimal(n)),
        digits_value(decimal(n)) == n,
        all_plain(decimal(n)),
    decreases n,
{
    if n >= 10 {
        lemma_decimal_digits(n / 10);
        lemma_digit_char((n % 10) as int);
        let d = decimal(n);
        assert(d.drop_last() =~= decimal(n / 10));
        assert(d.last() == digit_char((n % 10) as int));
        assert((n / 10) * 10 + n % 10 == n) by (nonlinear_arith);
        assert forall|i: int| 0 <= i < d.len() implies '0' <= #[trigger] d[i] && d[i] <= '9' && plain(d[i]) by {
            if i < d.len() - 1 {
                assert(d[i] == decimal(n / 10)[i]);
            }
        }
    } else {
        lemma_digit_char(n as int);
        assert(decimal(n).drop_last() =~= Seq::<char>::empty());
        assert(digits_value(Seq::<char>::empty()) == 0);
    }
}

proof fn lemma_counter_round_trip(n: u32)
    ensures
        number_of_text(decimal(n as nat)) == Some(n),
{
    lemma_decimal_digits(n as nat);
}

proof fn lemma_parse_concat(a: Seq<char>, b: Seq<char>)
    ensures
        parse_squares(a + b) == match (parse_squares(a), parse_squares(b)) {
            (Some(x), Some(y)) => Some(x + y),
            _ => None,
        },
    decreases b.len(),
{
    if b.len() == 0 {
        assert(a + b =~= a);
        if let Some(x) = parse_squares(a) {
            assert(x + Seq::<Square>::empty() =~= x);
        }
    } else {
        lemma_parse_concat(a, b.drop_last());
        assert((a + b).drop_last() =~= a + b.drop_last());
        assert((a + b).last() == b.last());
        if let (Some(x), Some(y)) = (parse_squares(a), parse_squares(b.drop_last())) {
            if let Some(z) = squares_of_char(b.last()) {
                assert(x + y + z =~= x + (y + z));
            }
        }
    }
}

proof fn lemma_piece_letter(p: Piece)
    ensures
        piece_of_char(p.letter()) == Some(p),
        plain(p.letter()),
        !('0' <= p.letter() && p.letter() <= '9'),
{
}

proof fn lemma_rank_from(row: Row, i: int, run: int)
    requires
        0 <= i <= 8,
        0 <= run <= i,
        forall|j: int| i - run <= j < i ==> #[trigger] row.at(j) == Square::Empty,
    ensures
        parse_squares(rank_text_from(row, i, run)) == Some(
            Seq::new(run as nat, |j: int| Square::Empty) + row.squares@.subrange(i, 8),
        ),
        all_plain(rank_text_from(row, i, run)),
    decreases 8 - i,
{
    let empties = Seq::new(run as nat, |j: int| Square::Empty);
    if i >= 8 {
        assert(row.squares@.subrange(i, 8) =~= Seq::<Square>::empty());
        if run > 0 {
            assert(seq![digit_char(run)].drop_last() =~= Seq::<char>::empty());
            assert(squares_of_char(digit_char(run)) == Some(empties));
            assert(Seq::<Square>::empty() + empties =~= empties + row.squares@.subrange(i, 8));
        } else {
            assert(empties + row.squares@.subrange(i, 8) =~= Seq::<Square>::empty());
        }
    } else if row.at(i) == Square::Empty {
        lemma_rank_from(row, i + 1, run + 1);
        assert(Seq::new((run + 1) as nat, |j: int| Square::Empty) + row.squares@.subrange(i + 1, 8)
            =~= empties + row.squares@.subrange(i, 8));
    } else {
        lemma_rank_from(row, i + 1, 0);
        let p = row.at(i)->Full_0;
        lemma_piece_letter(p);
        let head = run_text(run);
        let letter = square_text(row.at(i));
        let rest = rank_text_from(row, i + 1, 0);
        lemma_parse_concat(head + letter, rest);
        lemma_parse_concat(head, letter);
        assert(letter.drop_last() =~= Seq::<char>::empty());
        assert(parse_squares(Seq::<char>::empty()) == Some(Seq::<Square>::empty()));
        assert(letter.last() == p.letter());
        assert(Seq::<Square>::empty() + seq![Square::Full(p)] =~= seq![Square::Full(p)]);
        assert(parse_squares(letter) == Some(seq![Square::Full(p)]));
        if run > 0 {
            assert(seq![digit_char(run)].drop_last() =~= Seq::<char>::empty());
            assert(parse_squares(head) == Some(empties));
        } else {
            assert(parse_squares(head) == Some(empties));
        }
        assert(empties + seq![Square::Full(p)] + (Seq::new(0, |j: int| Square::Empty)
            + row.squares@.subrange(i + 1, 8)) =~= empties + row.squares@.subrange(i, 8));
        assert forall|k: int| 0 <= k < (head + letter + rest).len() implies plain(
            #[trigger] (head + letter + rest)[k],
        ) by {
            if k < head.len() {
            } else if k < head.len() + letter.len() {
            } else {
                assert((head + letter + rest)[k] == rest[k - head.len() - letter.len()]);
            }
        }
    }
}

proof fn lemma_rank_round_trip(row: Row)
    ensures
        rank_squares(rank_text(row)) == Some(row.squares@),
        all_plain(rank_text(row)),
{
    lemma_rank_from(row, 0, 0);
    assert(Seq::new(0, |j: int| Square::Empty) + row.squares@.subrange(0, 8) =~= row.squares@);
}

proof fn lemma_ranks_split(g: [Row; 8], n: int)
    requires
        1 <= n <= 8,
    ensures
        split_on(ranks_text(g, n), '/') == Seq::new(n as nat, |i: int| rank_text(g@[i])),
        forall|k: int| 0 <= k < ranks_text(g, n).len() ==> #[trigger] ranks_text(g, n)[k] != ' ',
    decreases n,
{
    lemma_rank_round_trip(g@[n - 1]);
    let last = rank_text(g@[n - 1]);
    assert forall|k: int| 0 <= k < last.len() implies last[k] != '/' by {
        assert(plain(last[k]));
    }
    lemma_split_single(last, '/');
    if n == 1 {
        assert(Seq::new(1, |i: int| rank_text(g@[i])) =~= seq![last]);
        assert forall|k: int| 0 <= k < ranks_text(g, n).len() implies #[trigger] ranks_text(g, n)[k] != ' ' by {
            assert(plain(last[k]));
        }
    } else {
        lemma_ranks_split(g, n - 1);
        lemma_split_concat(ranks_text(g, n - 1), last, '/');
        assert(Seq::new((n - 1) as nat, |i: int| rank_text(g@[i])) + seq![last] =~= Seq::new(
            n as nat,
            |i: int| rank_text(g@[i]),
        ));
        let prev = ranks_text(g, n - 1);
        assert forall|k: int| 0 <= k < ranks_text(g, n).len() implies #[trigger] ranks_text(g, n)[k] != ' ' by {
            if k < prev.len() {
                assert(ranks_text(g, n)[k] == prev[k]);
            } else if k == prev.len() {
            } else {
                assert(ranks_text(g, n)[k] == last[k - prev.len() - 1]);
                assert(plain(last[k - prev.len() - 1]));
            }
        }
    }
}


proof fn lemma_has_char_concat(a: Seq<char>, b: Seq<char>, x: char)
    ensures
        has_char(a + b, x) == (has_char(a, x) || has_char(b, x)),
{
    if has_char(a, x) {
        let i = choose|i: int| 0 <= i < a.len() && a[i] == x;
        assert((a + b)[i] == x);
    }
    if has_char(b, x) {
        let i = choose|i: int| 0 <= i < b.len() && b[i] == x;
        assert((a + b)[a.len() + i] == x);
    }
    if has_char(a + b, x) {
        let i = choose|i: int| 0 <= i < (a + b).len() && (a + b)[i] == x;
        if i < a.len() {
            assert(a[i] == x);
        } else {
            assert(b[i - a.len()] == x);
        }
    }
}

proof fn lemma_has_char_single(y: char, x: char)
    ensures
        has_char(seq![y], x) == (x == y),
        !has_char(Seq::<char>::empty(), x),
{
    if x == y {
        assert(seq![y][0] == x);
    }
}

proof fn lemma_rights_chars(k: bool, q: bool, x: char)
    ensures
        has_char(upper_rights(k, q), x) == ((k && x == 'K') || (q && x == 'Q')),
        has_char(crate::board::rights_text(k, q), x) == ((k && x == 'k') || (q && x == 'q')),
        upper_rights(k, q).len() == 0 <==> (!k && !q),
        crate::board::rights_text(k, q).len() == 0 <==> (!k && !q),
{
    lemma_has_char_single('K', x);
    lemma_has_char_single('Q', x);
    lemma_has_char_single('k', x);
    lemma_has_char_single('q', x);
    let a = if k { seq!['K'] } else { Seq::<char>::empty() };
    let b = if q { seq!['Q'] } else { Seq::<char>::empty() };
    lemma_has_char_concat(a, b, x);
    let c = if k { seq!['k'] } else { Seq::<char>::empty() };
    let d = if q { seq!['q'] } else { Seq::<char>::empty() };
    lemma_has_char_concat(c, d, x);
}

proof fn lemma_castling_chars(b: Board)
    ensures
        has_char(castling_text(b), 'K') == b.right(PieceColor::White, true),
        has_char(castling_text(b), 'Q') == b.right(PieceColor::White, false),
        has_char(castling_text(b), 'k') == b.right(PieceColor::Black, true),
        has_char(castling_text(b), 'q') == b.right(PieceColor::Black, false),
        !has_char(castling_text(b), ' '),
        castling_ok(castling_text(b)),
{
    let wk = b.right(PieceColor::White, true);
    let wq = b.right(PieceColor::White, false);
    let bk = b.right(PieceColor::Black, true);
    let bq = b.right(PieceColor::Black, false);
    let u = upper_rights(wk, wq);
    let l = crate::board::rights_text(bk, bq);
    let t = u + l;
    assert forall|x: char| has_char(t, x) == ((wk && x == 'K') || (wq && x == 'Q') || (bk && x == 'k') || (bq && x == 'q')) by {
        lemma_rights_chars(wk, wq, x);
        lemma_rights_chars(bk, bq, x);
        lemma_has_char_concat(u, l, x);
    }
    lemma_rights_chars(wk, wq, 'K');
    lemma_rights_chars(bk, bq, 'K');
    if t.len() == 0 {
        lemma_has_char_single('-', 'K');
        lemma_has_char_single('-', 'Q');
        lemma_has_char_single('-', 'k');
        lemma_has_char_single('-', 'q');
        lemma_has_char_single('-', ' ');
        assert(has_char(t, 'K') == false);
    }
}

proof fn lemma_column_char(i: int)
    requires
        0 <= i <= 7,
    ensures
        column_char(i) as int == ('a' as int) + i,
        'a' <= column_char(i) <= 'h',
        lower_char(column_char(i)) == column_char(i),
        plain(column_char(i)),
{
    if i == 0 {
        assert(column_char(i) == 'a');
    } else if i == 1 {
        assert(column_char(i) == 'b');
    } else if i == 2 {
        assert(column_char(i) == 'c');
    } else if i == 3 {
        assert(column_char(i) == 'd');
    } else if i == 4 {
        assert(column_char(i) == 'e');
    } else if i == 5 {
        assert(column_char(i) == 'f');
    } else if i == 6 {
        assert(column_char(i) == 'g');
    } else {
        assert(column_char(i) == 'h');
    }
}

proof fn lemma_passant_round_trip(p: Option<Coordinates>)
    requires
        p matches Some(c) ==> c.valid(),
    ensures
        passant_of_text(passant_text(p)) == p,
        !has_char(passant_text(p), ' '),
        passant_field_ok(passant_text(p)),
{
    match p {
        None => {
            lemma_has_char_single('-', ' ');
        },
        Some(c) => {
            let n = c.number as int;
            lemma_column_char(c.col());
            lemma_digit_char(n);
            assert(decimal(n as nat) == seq![digit_char(n)]);
            let t = passant_text(p);
            assert(t =~= seq![column_char(c.col()), digit_char(n)]);
            assert(column_at((lower_char(t[0]) as int) - ('a' as int)) == c.letter);
            lemma_has_char_single(column_char(c.col()), ' ');
            lemma_has_char_single(digit_char(n), ' ');
            lemma_has_char_concat(seq![column_char(c.col())], seq![digit_char(n)], ' ');
            assert(t =~= seq![column_char(c.col())] + seq![digit_char(n)]);
        },
    }
}

proof fn lemma_no_space_plain(t: Seq<char>)
    requires
        all_plain(t),
    ensures
        !has_char(t, ' '),
        !has_char(t, '/'),
{
    if has_char(t, ' ') {
        let i = choose|i: int| 0 <= i < t.len() && t[i] == ' ';
        assert(plain(t[i]));
    }
    if has_char(t, '/') {
        let i = choose|i: int| 0 <= i < t.len() && t[i] == '/';
        assert(plain(t[i]));
    }
}

proof fn lemma_split_field(t: Seq<char>, sep: char)
    requires
        !has_char(t, sep),
    ensures
        split_on(t, sep) == seq![t],
{
    assert forall|i: int| 0 <= i < t.len() implies t[i] != sep by {
        if t[i] == sep {
            assert(has_char(t, sep));
        }
    }
    lemma_split_single(t, sep);
}

/// The fields of a position's text, the board field read square by square.
proof fn lemma_text_fields(b: Board)
    requires
        b.passant() matches Some(c) ==> c.valid(),
    ensures
        split_on(board_text(b), ' ') == seq![
            ranks_text(b.grid(), 8),
            turn_text(b.turn_of()),
            castling_text(b),
            passant_text(b.passant()),
            decimal(b.half_moves() as nat),
            decimal(b.full_moves() as nat),
        ],
        ranks_ok(ranks_text(b.grid(), 8)),
        forall|c: Coordinates| c.valid() ==> #[trigger] parsed_square(ranks_text(b.grid(), 8), c) == b.sq(c),
{
    let g = b.grid();
    let r = ranks_text(g, 8);
    let t = turn_text(b.turn_of());
    let c = castling_text(b);
    let p = passant_text(b.passant());
    let h = decimal(b.half_moves() as nat);
    let f = decimal(b.full_moves() as nat);
    lemma_ranks_split(g, 8);
    assert(!has_char(r, ' ')) by {
        if has_char(r, ' ') {
            let i = choose|i: int| 0 <= i < r.len() && r[i] == ' ';
        }
    }
    lemma_split_field(r, ' ');
    lemma_has_char_single('w', ' ');
    lemma_has_char_single('b', ' ');
    lemma_split_field(t, ' ');
    lemma_castling_chars(b);
    lemma_split_field(c, ' ');
    lemma_passant_round_trip(b.passant());
    lemma_split_field(p, ' ');
    lemma_decimal_digits(b.half_moves() as nat);
    lemma_decimal_digits(b.full_moves() as nat);
    lemma_no_space_plain(h);
    lemma_no_space_plain(f);
    lemma_split_field(h, ' ');
    lemma_split_field(f, ' ');
    let x2 = r + seq![' '] + t;
    let x3 = x2 + seq![' '] + c;
    let x4 = x3 + seq![' '] + p;
    let x5 = x4 + seq![' '] + h;
    let x6 = x5 + seq![' '] + f;
    assert(board_text(b) == x6);
    lemma_split_concat(r, t, ' ');
    lemma_split_concat(x2, c, ' ');
    lemma_split_concat(x3, p, ' ');
    lemma_split_concat(x4, h, ' ');
    lemma_split_concat(x5, f, ' ');
    assert(split_on(x6, ' ') =~= seq![r, t, c, p, h, f]);
    let ranks = split_on(r, '/');
    assert forall|i: int| 0 <= i < 8 implies #[trigger] rank_squares(ranks[i]) is Some by {
        lemma_rank_round_trip(g@[i]);
    }
    assert forall|q: Coordinates| q.valid() implies #[trigger] parsed_square(r, q) == b.sq(q) by {
        lemma_rank_round_trip(g@[8 - q.number]);
    }
}

/// Decoding succeeds on the text of a position whose grid holds exactly one king of each
/// side and whose en passant target, if any, is on the board.
pub proof fn lemma_text_decodable(b: Board)
    requires
        board_count(b, king_of(PieceColor::White)) == 1,
        board_count(b, king_of(PieceColor::Black)) == 1,
        b.passant() matches Some(c) ==> c.valid(),
    ensures
        decodable(board_text(b)),
{
    lemma_text_fields(b);
    lemma_counter_round_trip(b.half_moves());
    lemma_counter_round_trip(b.full_moves());
    lemma_castling_chars(b);
    lemma_passant_round_trip(b.passant());
    let r = ranks_text(b.grid(), 8);
    let fa = |c: Coordinates| parsed_square(r, c);
    let fb = |c: Coordinates| grid_at(b.grid(), c);
    assert forall|c: Coordinates| c.valid() implies #[trigger] fa(c) == fb(c) by {
        assert(parsed_square(r, c) == b.sq(c));
    }
    lemma_count_agrees(fa, fb, king_of(PieceColor::White), 64);
    lemma_count_agrees(fa, fb, king_of(PieceColor::Black), 64);
}

/// Decoding then encoding: for a position whose grid holds exactly one king of each side
/// and whose en passant target, if any, is on the board, the position that its text decodes
/// to has the same text.
pub proof fn lemma_text_round_trip(b: Board, d: Board)
    requires
        board_count(b, king_of(PieceColor::White)) == 1,
        board_count(b, king_of(PieceColor::Black)) == 1,
        b.passant() matches Some(c) ==> c.valid(),
        decodes_to(board_text(b), d),
    ensures
        decodable(board_text(b)),
        board_text(d) == board_text(b),
{
    lemma_text_decodable(b);
    lemma_text_fields(b);
    lemma_counter_round_trip(b.half_moves());
    lemma_counter_round_trip(b.full_moves());
    lemma_castling_chars(b);
    lemma_passant_round_trip(b.passant());
    let r = ranks_text(b.grid(), 8);
    assert forall|i: int| 0 <= i < 8 implies #[trigger] d.grid()@[i] == b.grid()@[i] by {
        assert forall|j: int| 0 <= j < 8 implies d.grid()@[i].squares@[j] == b.grid()@[i].squares@[j] by {
            let c = coord(j, 8 - i);
            assert(c.valid());
            assert(d.sq(c) == parsed_square(r, c));
            assert(b.sq(c) == parsed_square(r, c));
        }
        assert(d.grid()@[i].squares@ =~= b.grid()@[i].squares@);
        assert(d.grid()@[i].squares =~= b.grid()@[i].squares);
    }
    assert(d.grid()@ =~= b.grid()@);
    assert(d.grid() =~= b.grid());
    assert(turn_of_text(turn_text(b.turn_of())) == Some(b.turn_of()));
    assert(castling_text(d) == castling_text(b));
}

} // verus!
