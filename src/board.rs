use vstd::prelude::*;

use crate::pieces::{Piece, PieceColor, PieceKind};
use crate::rules::{
    can_castle, can_castle_at, lemma_view_after, danger_at, danger_scan, lemma_danger_scan_grows, judge_within, placed, prepared, rules_view, threat_at,
    threatens, LOOKAHEAD,
    after, captured, castle_ok, en_passant_ok, pseudo_legal, classify, double_step, has_legal_move, is_capture, king_checkmate_state,
    legal, lemma_move_keeps_kings, new_passant, parse_move_legality, piece_at, playable, refusal,
    right_after, MateState,
};

verus! {

pub const VALUE_OUT_OF_BOARD: &'static str = "invalid value passed";

pub const ROW_OUT_OF_BOARD: &'static str = "attempted to perform subtraction out of bounds of usize";

pub const COLUMN_TOO_LARGE: &'static str = "Size larger than 7 in construct_letter_from_size";

pub const COLUMN_TOO_SMALL: &'static str = "Size less than 0 in construct_letter_from_size";

pub const COLUMN_NOT_A_LETTER: &'static str = "Not a valid col";

/// Absolute difference of two signed values.
pub fn isize_difference(a: isize, b: isize) -> (r: isize)
    requires
        isize::MIN < a - b <= isize::MAX,
    ensures
        r == if a >= b { a - b } else { b - a },
{
    if a >= b { a - b } else { b - a }
}

/// Accepts the values 0 to 8, the only ones that can index a board axis.
pub fn board_safe_isize_converter(size: isize) -> (r: Result<usize, &'static str>)
    ensures
        match r {
            Ok(u) => 0 <= size <= 8 && u == size,
            Err(e) => !(0 <= size <= 8) && e@ == VALUE_OUT_OF_BOARD@,
        },
{
    if 0 <= size && size <= 8 {
        Ok(size as usize)
    } else {
        Err(VALUE_OUT_OF_BOARD)
    }
}

/// A board file, A to H.
#[derive(Debug, PartialEq, Eq, Structural, Clone, Copy)]
pub enum ColumnLetter {
    A,
    B,
    C,
    D,
    E,
    F,
    G,
    H,
}

/// The file with the given index, 0 for A up to 7 for H.
pub open spec fn column_at(i: int) -> ColumnLetter {
    if i <= 0 {
        ColumnLetter::A
    } else if i == 1 {
        ColumnLetter::B
    } else if i == 2 {
        ColumnLetter::C
    } else if i == 3 {
        ColumnLetter::D
    } else if i == 4 {
        ColumnLetter::E
    } else if i == 5 {
        ColumnLetter::F
    } else if i == 6 {
        ColumnLetter::G
    } else {
        ColumnLetter::H
    }
}

/// The lower-case letter of a file index.
pub open spec fn column_char(i: int) -> char {
    (('a' as int) + i) as char
}

impl ColumnLetter {
    pub open spec fn index(self) -> int {
        match self {
            ColumnLetter::A => 0,
            ColumnLetter::B => 1,
            ColumnLetter::C => 2,
            ColumnLetter::D => 3,
            ColumnLetter::E => 4,
            ColumnLetter::F => 5,
            ColumnLetter::G => 6,
            ColumnLetter::H => 7,
        }
    }

    pub fn eval(&self) -> (r: isize)
        ensures
            r == self.index(),
            0 <= r <= 7,
            column_at(r as int) == *self,
    {
        match self {
            ColumnLetter::A => 0,
            ColumnLetter::B => 1,
            ColumnLetter::C => 2,
            ColumnLetter::D => 3,
            ColumnLetter::E => 4,
            ColumnLetter::F => 5,
            ColumnLetter::G => 6,
            ColumnLetter::H => 7,
        }
    }

    /// The eight files in order.
    pub fn iterator() -> (r: Vec<ColumnLetter>)
        ensures
            r@.len() == 8,
            forall|i: int| 0 <= i < 8 ==> #[trigger] r@[i] == column_at(i),
    {
        vec![
            ColumnLetter::A,
            ColumnLetter::B,
            ColumnLetter::C,
            ColumnLetter::D,
            ColumnLetter::E,
            ColumnLetter::F,
            ColumnLetter::G,
            ColumnLetter::H,
        ]
    }

    pub fn construct_letter_from_isize(size: isize) -> (r: Result<ColumnLetter, &'static str>)
        ensures
            match r {
                Ok(l) => 0 <= size <= 7 && l.index() == size && l == column_at(size as int),
                Err(e) => (size > 7 && e@ == COLUMN_TOO_LARGE@) || (size < 0 && e@
                    == COLUMN_TOO_SMALL@),
            },
    {
        match size {
            0 => Ok(ColumnLetter::A),
            1 => Ok(ColumnLetter::B),
            2 => Ok(ColumnLetter::C),
            3 => Ok(ColumnLetter::D),
            4 => Ok(ColumnLetter::E),
            5 => Ok(ColumnLetter::F),
            6 => Ok(ColumnLetter::G),
            7 => Ok(ColumnLetter::H),
            _ => {
                if size > 7 {
                    Err(COLUMN_TOO_LARGE)
                } else {
                    Err(COLUMN_TOO_SMALL)
                }
            },
        }
    }

    /// Reads a file letter, in either case.
    pub fn convert_to(letter: char) -> (r: Result<ColumnLetter, &'static str>)
        ensures
            match r {
                Ok(l) => column_char(l.index()) == letter || upper_column_char(l.index()) == letter,
                Err(e) => e@ == COLUMN_NOT_A_LETTER@ && !('a' <= letter <= 'h') && !('A' <= letter
                    <= 'H'),
            },
    {
        match letter {
            'a' | 'A' => Ok(ColumnLetter::A),
            'b' | 'B' => Ok(ColumnLetter::B),
            'c' | 'C' => Ok(ColumnLetter::C),
            'd' | 'D' => Ok(ColumnLetter::D),
            'e' | 'E' => Ok(ColumnLetter::E),
            'f' | 'F' => Ok(ColumnLetter::F),
            'g' | 'G' => Ok(ColumnLetter::G),
            'h' | 'H' => Ok(ColumnLetter::H),
            _ => Err(COLUMN_NOT_A_LETTER),
        }
    }
}

/// The upper-case letter of a file index.
pub open spec fn upper_column_char(i: int) -> char {
    (('A' as int) + i) as char
}

/// A square of the board: a file and a rank (1 to 8 on the board).
#[derive(Debug, PartialEq, Eq, Structural, Clone, Copy)]
pub struct Coordinates {
    pub letter: ColumnLetter,
    pub number: isize,
}

impl Coordinates {
    pub open spec fn valid(self) -> bool {
        1 <= self.number <= 8
    }

    pub open spec fn col(self) -> int {
        self.letter.index()
    }

    pub fn new(input_letter: ColumnLetter, input_row: isize) -> (r: Coordinates)
        ensures
            r.letter == input_letter,
            r.number == input_row,
    {
        Coordinates { letter: input_letter, number: input_row }
    }
}

/// The square with the given file index and rank.
pub open spec fn coord(col: int, row: int) -> Coordinates {
    Coordinates { letter: column_at(col), number: row as isize }
}

/// The four diagonal directions.
#[derive(Debug, PartialEq, Eq, Structural, Clone, Copy)]
pub enum DiagonalDirection {
    UpLeft,
    UpRight,
    DownLeft,
    DownRight,
}

/// How one square lies from another.
#[derive(Debug, PartialEq, Eq, Structural, Clone, Copy)]
pub enum MoveDirection {
    Up,
    Down,
    Left,
    Right,
    Diagonal(DiagonalDirection),
    JHook,
    NoMove,
    IllegalMove,
}

/// Direction and sum-of-deltas distance between two squares.
#[derive(Debug, PartialEq, Eq, Structural, Clone, Copy)]
pub struct SquareToSquareInformation {
    pub move_direction: MoveDirection,
    pub distance: isize,
}

pub open spec fn abs(x: int) -> int {
    if x >= 0 { x } else { -x }
}

/// The direction from `from` to `to`; `NoMove` when either rank is off the board.
pub open spec fn direction_between(from: Coordinates, to: Coordinates) -> MoveDirection {
    let dc = to.col() - from.col();
    let dr = to.number - from.number;
    if !from.valid() || !to.valid() {
        MoveDirection::NoMove
    } else if dc == 0 {
        if dr < 0 {
            MoveDirection::Down
        } else if dr > 0 {
            MoveDirection::Up
        } else {
            MoveDirection::NoMove
        }
    } else if dr == 0 {
        if dc < 0 {
            MoveDirection::Left
        } else {
            MoveDirection::Right
        }
    } else if abs(dc) == abs(dr) {
        if dr < 0 {
            if dc < 0 {
                MoveDirection::Diagonal(DiagonalDirection::DownLeft)
            } else {
                MoveDirection::Diagonal(DiagonalDirection::DownRight)
            }
        } else {
            if dc < 0 {
                MoveDirection::Diagonal(DiagonalDirection::UpLeft)
            } else {
                MoveDirection::Diagonal(DiagonalDirection::UpRight)
            }
        }
    } else if (abs(dc) == 1 && abs(dr) == 2) || (abs(dc) == 2 && abs(dr) == 1) {
        MoveDirection::JHook
    } else {
        MoveDirection::IllegalMove
    }
}

/// The sum of the file and rank differences; 0 when either rank is off the board.
pub open spec fn distance_between(from: Coordinates, to: Coordinates) -> int {
    if !from.valid() || !to.valid() {
        0
    } else {
        abs(to.col() - from.col()) + abs(to.number - from.number)
    }
}

pub fn measure_distance(from: &Coordinates, to: &Coordinates) -> (r: SquareToSquareInformation)
    ensures
        r.move_direction == direction_between(*from, *to),
        r.distance == distance_between(*from, *to),
{
    if from.number < 1 || from.number > 8 || to.number < 1 || to.number > 8 {
        return SquareToSquareInformation { move_direction: MoveDirection::NoMove, distance: 0 };
    }
    let from_col = from.letter.eval();
    let to_col = to.letter.eval();
    let lat_distance = isize_difference(from_col, to_col);
    let vert_distance = isize_difference(from.number, to.number);
    let direction = if from_col == to_col {
        if from.number > to.number {
            MoveDirection::Down
        } else if from.number < to.number {
            MoveDirection::Up
        } else {
            MoveDirection::NoMove
        }
    } else if from.number == to.number {
        if from_col > to_col {
            MoveDirection::Left
        } else {
            MoveDirection::Right
        }
    } else if lat_distance == vert_distance {
        if from.number > to.number {
            if from_col > to_col {
                MoveDirection::Diagonal(DiagonalDirection::DownLeft)
            } else {
                MoveDirection::Diagonal(DiagonalDirection::DownRight)
            }
        } else {
            if from_col > to_col {
                MoveDirection::Diagonal(DiagonalDirection::UpLeft)
            } else {
                MoveDirection::Diagonal(DiagonalDirection::UpRight)
            }
        }
    } else if (lat_distance == 1 && vert_distance == 2) || (vert_distance == 1 && lat_distance
        == 2) {
        MoveDirection::JHook
    } else {
        MoveDirection::IllegalMove
    };
    SquareToSquareInformation { move_direction: direction, distance: lat_distance + vert_distance }
}

/// The contents of one square.
#[derive(Clone, Copy, PartialEq, Eq, Structural, Debug)]
pub enum Square {
    Empty,
    Full(Piece),
}

/// One rank of the board, file A first.
#[derive(Clone, Copy, PartialEq, Eq, Debug)]
pub struct Row {
    pub(crate) squares: [Square; 8],
}

impl Row {
    pub open(crate) spec fn at(self, i: int) -> Square {
        self.squares@[i]
    }

    pub fn default() -> (r: Row)
        ensures
            forall|i: int| 0 <= i < 8 ==> #[trigger] r.at(i) == Square::Empty,
    {
        Row { squares: [Square::Empty;8] }
    }

    pub fn new(input_squares: [Square; 8]) -> (r: Row)
        ensures
            forall|i: int| 0 <= i < 8 ==> #[trigger] r.at(i) == input_squares@[i],
    {
        Row { squares: input_squares }
    }

    pub fn set_square(&mut self, index: usize, square: Square)
        requires
            index < 8,
        ensures
            forall|i: int|
                0 <= i < 8 ==> #[trigger] final(self).at(i) == if i == index {
                    square
                } else {
                    old(self).at(i)
                },
    {
        self.squares[index] = square;
    }
}

/// The stored contents of a square: rank 8 is stored first, file A first within a rank.
pub open(crate) spec fn grid_at(g: [Row; 8], c: Coordinates) -> Square {
    g@[8 - c.number].squares@[c.col()]
}

/// The grid with one square replaced.
pub open(crate) spec fn grid_with(g: [Row; 8], c: Coordinates, s: Square) -> [Row; 8] {
    vstd::array::spec_array_update(
        g,
        8 - c.number,
        Row { squares: vstd::array::spec_array_update(g@[8 - c.number].squares, c.col(), s) },
    )
}

proof fn lemma_grid_with(g: [Row; 8], c: Coordinates, s: Square, d: Coordinates)
    requires
        c.valid(),
        d.valid(),
    ensures
        grid_at(grid_with(g, c, s), d) == if d == c {
            s
        } else {
            grid_at(g, d)
        },
{
    let ri = 8 - c.number;
    let row = Row { squares: vstd::array::spec_array_update(g@[ri].squares, c.col(), s) };
    assert(row.squares@ == g@[ri].squares@.update(c.col(), s));
    assert(grid_with(g, c, s)@ == g@.update(ri, row));
    if d.number == c.number && d.col() == c.col() {
        assert(d.letter == c.letter);
    }
}

pub proof fn lemma_with_square(b: Board, c: Coordinates, s: Square, d: Coordinates)
    requires
        c.valid(),
        d.valid(),
    ensures
        b.with_square(c, s).sq(d) == if d == c {
            s
        } else {
            b.sq(d)
        },
{
    lemma_grid_with(b.grid(), c, s, d);
}

/// Writes one square of a grid.
pub fn grid_set(g: &mut [Row; 8], c: &Coordinates, s: Square)
    requires
        c.valid(),
    ensures
        *final(g) == grid_with(*old(g), *c, s),
{
    let ri = (8 - c.number) as usize;
    let ci = c.letter.eval() as usize;
    let mut row = g[ri];
    row.squares[ci] = s;
    g[ri] = row;
    proof {
        let target = grid_with(*old(g), *c, s);
        assert(row.squares@ =~= target@[ri as int].squares@);
        assert(row.squares =~= target@[ri as int].squares);
        assert(g@ =~= target@);
        assert(*g =~= target);
    }
}

/// Reads one square of a grid.
pub fn grid_get(g: &[Row; 8], c: &Coordinates) -> (r: Square)
    requires
        c.valid(),
    ensures
        r == grid_at(*g, *c),
{
    let ri = (8 - c.number) as usize;
    let ci = c.letter.eval() as usize;
    g[ri].squares[ci]
}

/// Whether a direction is one along which a piece slides square by square.
pub open spec fn is_sliding(dir: MoveDirection) -> bool {
    match dir {
        MoveDirection::Up | MoveDirection::Down | MoveDirection::Left | MoveDirection::Right
        | MoveDirection::Diagonal(_) => true,
        _ => false,
    }
}

pub open spec fn step_col(dir: MoveDirection) -> int {
    match dir {
        MoveDirection::Left | MoveDirection::Diagonal(DiagonalDirection::UpLeft)
        | MoveDirection::Diagonal(DiagonalDirection::DownLeft) => -1,
        MoveDirection::Right | MoveDirection::Diagonal(DiagonalDirection::UpRight)
        | MoveDirection::Diagonal(DiagonalDirection::DownRight) => 1,
        _ => 0,
    }
}

pub open spec fn step_row(dir: MoveDirection) -> int {
    match dir {
        MoveDirection::Up | MoveDirection::Diagonal(DiagonalDirection::UpLeft)
        | MoveDirection::Diagonal(DiagonalDirection::UpRight) => 1,
        MoveDirection::Down | MoveDirection::Diagonal(DiagonalDirection::DownLeft)
        | MoveDirection::Diagonal(DiagonalDirection::DownRight) => -1,
        _ => 0,
    }
}

pub open spec fn shift(k: int, d: int) -> int {
    if d > 0 {
        k
    } else if d < 0 {
        -k
    } else {
        0
    }
}

/// The number of single steps from `from` to `to` along a line.
pub open spec fn span(from: Coordinates, to: Coordinates) -> int {
    let dc = abs(to.col() - from.col());
    let dr = abs(to.number - from.number);
    if dc >= dr {
        dc
    } else {
        dr
    }
}

/// The square `k` steps from `from` in direction `dir`.
pub open spec fn path_square(from: Coordinates, dir: MoveDirection, k: int) -> Coordinates {
    coord(from.col() + shift(k, step_col(dir)), from.number + shift(k, step_row(dir)))
}

/// Every square strictly between `from` and `to` is empty; always true for a direction that
/// does not slide.
pub open(crate) spec fn path_clear(
    g: [Row; 8],
    from: Coordinates,
    to: Coordinates,
    dir: MoveDirection,
) -> bool {
    is_sliding(dir) ==> forall|k: int|
        1 <= k < span(from, to) ==> grid_at(g, #[trigger] path_square(from, dir, k))
            == Square::Empty
}

pub proof fn lemma_path_square_on_board(from: Coordinates, to: Coordinates, k: int)
    requires
        from.valid(),
        to.valid(),
        is_sliding(direction_between(from, to)),
        1 <= k < span(from, to),
    ensures
        path_square(from, direction_between(from, to), k).valid(),
        0 <= from.col() + shift(k, step_col(direction_between(from, to))) <= 7,
        path_square(from, direction_between(from, to), k).col() == from.col() + shift(
            k,
            step_col(direction_between(from, to)),
        ),
{
}

/// The direction in which a pawn of the given side advances.
pub open spec fn forward(color: PieceColor) -> MoveDirection {
    match color {
        PieceColor::White => MoveDirection::Up,
        PieceColor::Black => MoveDirection::Down,
    }
}

/// A diagonal in the advancing direction of the given side.
pub open spec fn is_forward_diagonal(color: PieceColor, dir: MoveDirection) -> bool {
    match color {
        PieceColor::White => dir == MoveDirection::Diagonal(DiagonalDirection::UpLeft) || dir
            == MoveDirection::Diagonal(DiagonalDirection::UpRight),
        PieceColor::Black => dir == MoveDirection::Diagonal(DiagonalDirection::DownLeft) || dir
            == MoveDirection::Diagonal(DiagonalDirection::DownRight),
    }
}

/// The rank on which a side's pawns start.
pub open spec fn pawn_home_rank(color: PieceColor) -> int {
    match color {
        PieceColor::White => 2,
        PieceColor::Black => 7,
    }
}

/// The rank on which a side's king and rooks start.
pub open spec fn home_rank(color: PieceColor) -> int {
    match color {
        PieceColor::White => 1,
        PieceColor::Black => 8,
    }
}

/// Whether a piece's own movement rule admits a move of this direction and distance; for
/// a pawn, `capture` tells whether the destination holds an enemy piece.  Castling and en
/// passant are not ordinary moves and are not covered.
pub open spec fn kind_reaches(
    p: Piece,
    from: Coordinates,
    dir: MoveDirection,
    dist: int,
    capture: bool,
) -> bool {
    match p.kind {
        PieceKind::Pawn => if capture {
            dist == 2 && is_forward_diagonal(p.color, dir)
        } else {
            dir == forward(p.color) && (dist == 1 || (dist == 2 && from.number == pawn_home_rank(
                p.color,
            )))
        },
        PieceKind::Knight => dir == MoveDirection::JHook,
        PieceKind::Rook => dir == MoveDirection::Up || dir == MoveDirection::Down || dir
            == MoveDirection::Left || dir == MoveDirection::Right,
        PieceKind::Bishop => dir is Diagonal,
        PieceKind::Queen => is_sliding(dir),
        PieceKind::King => dist == 1 || (dist == 2 && dir is Diagonal),
    }
}

/// The destination holds a piece of the given side.
pub open(crate) spec fn holds_side(g: [Row; 8], c: Coordinates, color: PieceColor) -> bool {
    match grid_at(g, c) {
        Square::Full(q) => q.color == color,
        Square::Empty => false,
    }
}

/// The castling rights of one side in lower case: `k` for kingside, then `q` for queenside.
pub open spec fn rights_text(kingside: bool, queenside: bool) -> Seq<char> {
    (if kingside {
        seq!['k']
    } else {
        Seq::<char>::empty()
    }) + (if queenside {
        seq!['q']
    } else {
        Seq::<char>::empty()
    })
}

/// No king is among the kinds.
pub open spec fn no_king(s: Seq<PieceKind>) -> bool {
    forall|i: int| 0 <= i < s.len() ==> s[i] != PieceKind::King
}

/// `n` copies of one kind.
pub open spec fn repeat_kind(k: PieceKind, n: int) -> Seq<PieceKind> {
    Seq::new(if n > 0 { n as nat } else { 0 }, |i: int| k)
}

/// How many times a kind occurs in a sequence.
pub open spec fn count_kind(s: Seq<PieceKind>, k: PieceKind) -> nat
    decreases s.len(),
{
    if s.len() == 0 {
        0
    } else {
        count_kind(s.drop_last(), k) + if s.last() == k {
            1nat
        } else {
            0nat
        }
    }
}

/// The captured pieces grouped by kind: pawns, rooks, knights, bishops, then queens.
pub open spec fn sorted_kinds(s: Seq<PieceKind>) -> Seq<PieceKind> {
    repeat_kind(PieceKind::Pawn, count_kind(s, PieceKind::Pawn) as int) + repeat_kind(
        PieceKind::Rook,
        count_kind(s, PieceKind::Rook) as int,
    ) + repeat_kind(PieceKind::Knight, count_kind(s, PieceKind::Knight) as int) + repeat_kind(
        PieceKind::Bishop,
        count_kind(s, PieceKind::Bishop) as int,
    ) + repeat_kind(PieceKind::Queen, count_kind(s, PieceKind::Queen) as int)
}

/// The total material value of a sequence of kinds.
pub open spec fn material(s: Seq<PieceKind>) -> int
    decreases s.len(),
{
    if s.len() == 0 {
        0
    } else {
        material(s.drop_last()) + s.last().value()
    }
}

/// What one side keeps besides its pieces: what it has captured, its castling rights and
/// where its king stands.
#[derive(Clone, PartialEq, Debug)]
pub struct SideInformation {
    pub(crate) taken_pieces: Vec<PieceKind>,
    pub(crate) can_castle_kingside: bool,
    pub(crate) can_castle_queenside: bool,
    pub(crate) current_king_square: Coordinates,
}

impl SideInformation {
    pub open(crate) spec fn taken(self) -> Seq<PieceKind> {
        self.taken_pieces@
    }

    pub open(crate) spec fn kingside(self) -> bool {
        self.can_castle_kingside
    }

    pub open(crate) spec fn queenside(self) -> bool {
        self.can_castle_queenside
    }

    pub open(crate) spec fn king(self) -> Coordinates {
        self.current_king_square
    }

    /// The side as it stands at the start of a game.
    pub fn default(king_color: PieceColor) -> (r: SideInformation)
        ensures
            r.taken() == Seq::<PieceKind>::empty(),
            r.kingside(),
            r.queenside(),
            r.king() == coord(4, home_rank(king_color)),
    {
        SideInformation {
            taken_pieces: Vec::new(),
            can_castle_kingside: true,
            can_castle_queenside: true,
            current_king_square: Coordinates {
                letter: ColumnLetter::E,
                number: match king_color {
                    PieceColor::Black => 8,
                    PieceColor::White => 1,
                },
            },
        }
    }

    /// Replaces the captured pieces by the given numbers of each kind, in display order; a
    /// count below one adds none of that kind.
    pub fn adjust_taken_pieces(
        &mut self,
        taken_pawns: i32,
        taken_rooks: i32,
        taken_knights: i32,
        taken_bishops: i32,
        taken_queens: i32,
    )
        ensures
            final(self).taken() == repeat_kind(PieceKind::Pawn, taken_pawns as int) + repeat_kind(
                PieceKind::Rook,
                taken_rooks as int,
            ) + repeat_kind(PieceKind::Knight, taken_knights as int) + repeat_kind(
                PieceKind::Bishop,
                taken_bishops as int,
            ) + repeat_kind(PieceKind::Queen, taken_queens as int),
            final(self).kingside() == old(self).kingside(),
            final(self).queenside() == old(self).queenside(),
            final(self).king() == old(self).king(),
    {
        let mut taken: Vec<PieceKind> = Vec::new();
        push_kind(&mut taken, PieceKind::Pawn, taken_pawns as i64);
        push_kind(&mut taken, PieceKind::Rook, taken_rooks as i64);
        push_kind(&mut taken, PieceKind::Knight, taken_knights as i64);
        push_kind(&mut taken, PieceKind::Bishop, taken_bishops as i64);
        push_kind(&mut taken, PieceKind::Queen, taken_queens as i64);
        self.taken_pieces = taken;
    }

    /// Groups the captured pieces by kind, in display order.
    pub fn sort_taken_pieces(&mut self)
        requires
            no_king(old(self).taken()),
        ensures
            final(self).taken() == sorted_kinds(old(self).taken()),
            final(self).kingside() == old(self).kingside(),
            final(self).queenside() == old(self).queenside(),
            final(self).king() == old(self).king(),
    {
        let mut pawn_count: u64 = 0;
        let mut rook_count: u64 = 0;
        let mut knight_count: u64 = 0;
        let mut bishop_count: u64 = 0;
        let mut queen_count: u64 = 0;
        let n = self.taken_pieces.len();
        let mut i: usize = 0;
        while i < n
            invariant
                n == self.taken_pieces@.len(),
                i <= n,
                pawn_count == count_kind(self.taken_pieces@.take(i as int), PieceKind::Pawn),
                rook_count == count_kind(self.taken_pieces@.take(i as int), PieceKind::Rook),
                knight_count == count_kind(self.taken_pieces@.take(i as int), PieceKind::Knight),
                bishop_count == count_kind(self.taken_pieces@.take(i as int), PieceKind::Bishop),
                queen_count == count_kind(self.taken_pieces@.take(i as int), PieceKind::Queen),
                pawn_count + rook_count + knight_count + bishop_count + queen_count <= i,
            decreases n - i,
        {
            proof {
                assert(self.taken_pieces@.take(i + 1).drop_last() =~= self.taken_pieces@.take(
                    i as int,
                ));
            }
            match self.taken_pieces[i] {
                PieceKind::Pawn => pawn_count += 1,
                PieceKind::Rook => rook_count += 1,
                PieceKind::Knight => knight_count += 1,
                PieceKind::Bishop => bishop_count += 1,
                PieceKind::Queen => queen_count += 1,
                PieceKind::King => {},
            }
            i += 1;
        }
        assert(self.taken_pieces@.take(n as int) =~= self.taken_pieces@);
        self.adjust_taken_pieces_exact(pawn_count, rook_count, knight_count, bishop_count, queen_count);
    }

    /// The captured pieces, grouped by kind.
    pub fn get_taken_pieces(&self) -> (r: &Vec<PieceKind>)
        ensures
            r@ == self.taken(),
    {
        &self.taken_pieces
    }

    /// The castling rights as they appear in the position text, lower case: `k` then `q`.
    pub fn generate_fen_string(&self) -> (r: String)
        ensures
            r@ == rights_text(self.kingside(), self.queenside()),
    {
        let mut accum_string = String::new();
        proof {
            reveal_strlit("k");
            reveal_strlit("q");
        }
        if self.can_castle_kingside {
            accum_string.append("k");
        }
        if self.can_castle_queenside {
            accum_string.append("q");
        }
        assert(accum_string@ =~= rights_text(self.kingside(), self.queenside()));
        accum_string
    }

    pub fn set_castling_rights(&mut self, kingside: bool, queenside: bool)
        ensures
            final(self).kingside() == kingside,
            final(self).queenside() == queenside,
            final(self).taken() == old(self).taken(),
            final(self).king() == old(self).king(),
    {
        self.can_castle_kingside = kingside;
        self.can_castle_queenside = queenside;
    }

    /// Records a captured piece and keeps the captures grouped by kind.
    pub fn add_taken_piece(&mut self, piece_kind: PieceKind)
        requires
            no_king(old(self).taken()),
            piece_kind != PieceKind::King,
        ensures
            final(self).taken() == sorted_kinds(old(self).taken().push(piece_kind)),
            no_king(final(self).taken()),
            final(self).kingside() == old(self).kingside(),
            final(self).queenside() == old(self).queenside(),
            final(self).king() == old(self).king(),
    {
        self.taken_pieces.push(piece_kind);
        self.sort_taken_pieces();
    }

    /// The material value of everything this side has captured.
    pub fn total_taken_pieces(&self) -> (r: u32)
        requires
            8 * self.taken().len() <= u32::MAX,
        ensures
            r == material(self.taken()),
    {
        let mut total_value: u32 = 0;
        let mut i: usize = 0;
        while i < self.taken_pieces.len()
            invariant
                i <= self.taken_pieces@.len(),
                8 * self.taken_pieces@.len() <= u32::MAX,
                total_value == material(self.taken_pieces@.take(i as int)),
                total_value <= 8 * i,
            decreases self.taken_pieces@.len() - i,
        {
            assert(self.taken_pieces@.take(i + 1).drop_last() =~= self.taken_pieces@.take(i as int));
            total_value = total_value + self.taken_pieces[i].get_value();
            i += 1;
        }
        assert(self.taken_pieces@.take(i as int) =~= self.taken_pieces@);
        total_value
    }

    /// Moves the king: both castling rights are lost.
    pub fn update_king_location(&mut self, letter: &ColumnLetter, number: &isize)
        ensures
            final(self).king() == (Coordinates { letter: *letter, number: *number }),
            !final(self).kingside(),
            !final(self).queenside(),
            final(self).taken() == old(self).taken(),
    {
        self.current_king_square = Coordinates { letter: *letter, number: *number };
        self.can_castle_kingside = false;
        self.can_castle_queenside = false;
    }

    pub fn king_can_castle(&self, is_kingside_query: bool) -> (r: bool)
        ensures
            r == if is_kingside_query {
                self.kingside()
            } else {
                self.queenside()
            },
    {
        if is_kingside_query {
            self.can_castle_kingside
        } else {
            self.can_castle_queenside
        }
    }

    pub fn remove_castling_rights(&mut self, is_kingside: bool)
        ensures
            final(self).kingside() == (old(self).kingside() && !is_kingside),
            final(self).queenside() == (old(self).queenside() && is_kingside),
            final(self).taken() == old(self).taken(),
            final(self).king() == old(self).king(),
    {
        if is_kingside {
            self.can_castle_kingside = false;
        } else {
            self.can_castle_queenside = false;
        }
    }

    fn adjust_taken_pieces_exact(&mut self, pawns: u64, rooks: u64, knights: u64, bishops: u64, queens: u64)
        ensures
            final(self).taken() == repeat_kind(PieceKind::Pawn, pawns as int) + repeat_kind(
                PieceKind::Rook,
                rooks as int,
            ) + repeat_kind(PieceKind::Knight, knights as int) + repeat_kind(
                PieceKind::Bishop,
                bishops as int,
            ) + repeat_kind(PieceKind::Queen, queens as int),
            final(self).kingside() == old(self).kingside(),
            final(self).queenside() == old(self).queenside(),
            final(self).king() == old(self).king(),
    {
        let mut taken: Vec<PieceKind> = Vec::new();
        push_kind_u64(&mut taken, PieceKind::Pawn, pawns);
        push_kind_u64(&mut taken, PieceKind::Rook, rooks);
        push_kind_u64(&mut taken, PieceKind::Knight, knights);
        push_kind_u64(&mut taken, PieceKind::Bishop, bishops);
        push_kind_u64(&mut taken, PieceKind::Queen, queens);
        self.taken_pieces = taken;
    }
}

/// Appends `n` copies of a kind (none when `n` is below one).
fn push_kind(v: &mut Vec<PieceKind>, k: PieceKind, n: i64)
    ensures
        final(v)@ == old(v)@ + repeat_kind(k, n as int),
{
    if n > 0 {
        push_kind_u64(v, k, n as u64);
    } else {
        assert(v@ =~= old(v)@ + repeat_kind(k, n as int));
    }
}

/// Appends `n` copies of a kind.
fn push_kind_u64(v: &mut Vec<PieceKind>, k: PieceKind, n: u64)
    ensures
        final(v)@ == old(v)@ + repeat_kind(k, n as int),
{
    let mut i: u64 = 0;
    while i < n
        invariant
            i <= n,
            v@ == old(v)@ + repeat_kind(k, i as int),
        decreases n - i,
    {
        v.push(k);
        i += 1;
        assert(v@ =~= old(v)@ + repeat_kind(k, i as int));
    }
}

/// Column step and row step of a direction.
fn step_of(dir: MoveDirection) -> (r: (isize, isize))
    ensures
        r.0 == step_col(dir),
        r.1 == step_row(dir),
{
    match dir {
        MoveDirection::Up => (0, 1),
        MoveDirection::Down => (0, -1),
        MoveDirection::Left => (-1, 0),
        MoveDirection::Right => (1, 0),
        MoveDirection::Diagonal(DiagonalDirection::UpLeft) => (-1, 1),
        MoveDirection::Diagonal(DiagonalDirection::UpRight) => (1, 1),
        MoveDirection::Diagonal(DiagonalDirection::DownLeft) => (-1, -1),
        MoveDirection::Diagonal(DiagonalDirection::DownRight) => (1, -1),
        _ => (0, 0),
    }
}

fn shift_by(k: isize, d: isize) -> (r: isize)
    requires
        0 <= k <= 8,
    ensures
        r == shift(k as int, d as int),
{
    if d > 0 {
        k
    } else if d < 0 {
        -k
    } else {
        0
    }
}

/// Executable form of `kind_reaches`.
pub fn piece_reaches(
    p: &Piece,
    from: &Coordinates,
    dir: MoveDirection,
    dist: isize,
    capture: bool,
) -> (r: bool)
    ensures
        r == kind_reaches(*p, *from, dir, dist as int, capture),
{
    match p.kind {
        PieceKind::Pawn => {
            if capture {
                dist == 2 && match (p.color, dir) {
                    (PieceColor::White, MoveDirection::Diagonal(DiagonalDirection::UpLeft))
                    | (PieceColor::White, MoveDirection::Diagonal(DiagonalDirection::UpRight))
                    | (PieceColor::Black, MoveDirection::Diagonal(DiagonalDirection::DownLeft))
                    | (PieceColor::Black, MoveDirection::Diagonal(DiagonalDirection::DownRight)) => true,
                    _ => false,
                }
            } else {
                let (ahead, home) = match p.color {
                    PieceColor::White => (MoveDirection::Up, 2),
                    PieceColor::Black => (MoveDirection::Down, 7),
                };
                dir == ahead && (dist == 1 || (dist == 2 && from.number == home))
            }
        },
        PieceKind::Knight => dir == MoveDirection::JHook,
        PieceKind::Rook => match dir {
            MoveDirection::Up | MoveDirection::Down | MoveDirection::Left | MoveDirection::Right => true,
            _ => false,
        },
        PieceKind::Bishop => match dir {
            MoveDirection::Diagonal(_) => true,
            _ => false,
        },
        PieceKind::Queen => match dir {
            MoveDirection::IllegalMove | MoveDirection::JHook | MoveDirection::NoMove => false,
            _ => true,
        },
        PieceKind::King => dist == 1 || (dist == 2 && match dir {
            MoveDirection::Diagonal(_) => true,
            _ => false,
        }),
    }
}

/// The kind standing on a file of the back rank at the start of a game.
pub open spec fn back_rank_kind(i: int) -> PieceKind {
    if i == 0 || i == 7 {
        PieceKind::Rook
    } else if i == 1 || i == 6 {
        PieceKind::Knight
    } else if i == 2 || i == 5 {
        PieceKind::Bishop
    } else if i == 3 {
        PieceKind::Queen
    } else {
        PieceKind::King
    }
}

/// The contents of a square at the start of a game.
pub open spec fn start_square(c: Coordinates) -> Square {
    if c.number == 1 {
        Square::Full(Piece { color: PieceColor::White, kind: back_rank_kind(c.col()) })
    } else if c.number == 2 {
        Square::Full(Piece { color: PieceColor::White, kind: PieceKind::Pawn })
    } else if c.number == 7 {
        Square::Full(Piece { color: PieceColor::Black, kind: PieceKind::Pawn })
    } else if c.number == 8 {
        Square::Full(Piece { color: PieceColor::Black, kind: back_rank_kind(c.col()) })
    } else {
        Square::Empty
    }
}

impl Row {
    pub fn pawn_row(piece_color: PieceColor) -> (r: Row)
        ensures
            forall|i: int|
                0 <= i < 8 ==> #[trigger] r.at(i) == Square::Full(
                    Piece { color: piece_color, kind: PieceKind::Pawn },
                ),
    {
        Row { squares: [Square::Full(Piece { color: piece_color, kind: PieceKind::Pawn });8] }
    }

    pub fn default_back_row(piece_color: PieceColor) -> (r: Row)
        ensures
            forall|i: int|
                0 <= i < 8 ==> #[trigger] r.at(i) == Square::Full(
                    Piece { color: piece_color, kind: back_rank_kind(i) },
                ),
    {
        let r = Row {
            squares: [
                Square::Full(Piece { color: piece_color, kind: PieceKind::Rook }),
                Square::Full(Piece { color: piece_color, kind: PieceKind::Knight }),
                Square::Full(Piece { color: piece_color, kind: PieceKind::Bishop }),
                Square::Full(Piece { color: piece_color, kind: PieceKind::Queen }),
                Square::Full(Piece { color: piece_color, kind: PieceKind::King }),
                Square::Full(Piece { color: piece_color, kind: PieceKind::Bishop }),
                Square::Full(Piece { color: piece_color, kind: PieceKind::Knight }),
                Square::Full(Piece { color: piece_color, kind: PieceKind::Rook }),
            ],
        };
        assert(forall|i: int|
            0 <= i < 8 ==> #[trigger] r.at(i) == Square::Full(
                Piece { color: piece_color, kind: back_rank_kind(i) },
            )) by {
            assert(r.squares@.len() == 8);
        }
        r
    }
}

/// The result of asking a board to play a move.
#[derive(Debug, PartialEq, Eq, Structural, Clone, Copy)]
pub enum MoveResult {
    CompletedSafely,
    BlackKingCheckmated,
    WhiteKingCheckmated,
    BlackKingChecked,
    WhiteKingChecked,
    Stalemate,
    WrongTurn,
    MoveIllegal,
    EmptySquare,
}

/// A position: the grid, the side to move, the en passant target, what each side keeps, and
/// the half-move clock and full-move number.
#[derive(Clone, PartialEq, Debug)]
pub struct Board {
    pub(crate) rows: [Row; 8],
    pub(crate) turn: PieceColor,
    pub(crate) opt_legal_passant_square: Option<Coordinates>,
    pub(crate) white_side_information: SideInformation,
    pub(crate) black_side_information: SideInformation,
    pub(crate) half_turns: u32,
    pub(crate) full_turns: u32,
}

impl Board {
    pub open(crate) spec fn grid(self) -> [Row; 8] {
        self.rows
    }

    pub open(crate) spec fn sq(self, c: Coordinates) -> Square {
        grid_at(self.rows, c)
    }

    pub open(crate) spec fn turn_of(self) -> PieceColor {
        self.turn
    }

    pub open(crate) spec fn passant(self) -> Option<Coordinates> {
        self.opt_legal_passant_square
    }

    pub open(crate) spec fn half_moves(self) -> u32 {
        self.half_turns
    }

    pub open(crate) spec fn full_moves(self) -> u32 {
        self.full_turns
    }

    pub open(crate) spec fn side(self, color: PieceColor) -> SideInformation {
        match color {
            PieceColor::White => self.white_side_information,
            PieceColor::Black => self.black_side_information,
        }
    }

    pub open(crate) spec fn king_square(self, color: PieceColor) -> Coordinates {
        self.side(color).king()
    }

    pub open(crate) spec fn right(self, color: PieceColor, kingside: bool) -> bool {
        if kingside {
            self.side(color).kingside()
        } else {
            self.side(color).queenside()
        }
    }

    /// The king of `color` is attacked: a piece of the other side could legally move onto
    /// its recorded square.
    pub open(crate) spec fn in_danger(self, color: PieceColor) -> bool {
        danger_at(rules_view(self), color, LOOKAHEAD as nat)
    }

    /// The board with a side's castling right on one wing lost.
    pub open(crate) spec fn without_right(self, color: PieceColor, kingside: bool) -> Board {
        match (color, kingside) {
            (PieceColor::White, true) => Board {
                white_side_information: SideInformation {
                    can_castle_kingside: false,
                    ..self.white_side_information
                },
                ..self
            },
            (PieceColor::White, false) => Board {
                white_side_information: SideInformation {
                    can_castle_queenside: false,
                    ..self.white_side_information
                },
                ..self
            },
            (PieceColor::Black, true) => Board {
                black_side_information: SideInformation {
                    can_castle_kingside: false,
                    ..self.black_side_information
                },
                ..self
            },
            (PieceColor::Black, false) => Board {
                black_side_information: SideInformation {
                    can_castle_queenside: false,
                    ..self.black_side_information
                },
                ..self
            },
        }
    }

    /// Neither side has a king among its captured pieces.
    pub open(crate) spec fn wf(self) -> bool {
        no_king(self.white_side_information.taken()) && no_king(
            self.black_side_information.taken(),
        )
    }

    /// The recorded king square of `color` is on the board and holds that side's king.
    pub open(crate) spec fn king_placed(self, color: PieceColor) -> bool {
        self.king_square(color).valid() && self.sq(self.king_square(color)) == Square::Full(
            Piece { color, kind: PieceKind::King },
        )
    }

    /// Each side's recorded king square is on the board and holds that side's king.
    pub open(crate) spec fn kings_placed(self) -> bool {
        self.king_placed(PieceColor::White) && self.king_placed(PieceColor::Black)
    }

    /// The board with one square replaced.
    pub open(crate) spec fn with_square(self, c: Coordinates, s: Square) -> Board {
        Board { rows: grid_with(self.rows, c, s), ..self }
    }

    /// The board with a side's king recorded on `c`; that side loses both castling rights.
    pub open(crate) spec fn with_king(self, color: PieceColor, c: Coordinates) -> Board {
        match color {
            PieceColor::White => Board {
                white_side_information: SideInformation {
                    current_king_square: c,
                    can_castle_kingside: false,
                    can_castle_queenside: false,
                    ..self.white_side_information
                },
                ..self
            },
            PieceColor::Black => Board {
                black_side_information: SideInformation {
                    current_king_square: c,
                    can_castle_kingside: false,
                    can_castle_queenside: false,
                    ..self.black_side_information
                },
                ..self
            },
        }
    }

    /// The standard starting position, White to move.
    pub fn default() -> (r: Board)
        ensures
            forall|c: Coordinates| c.valid() ==> #[trigger] r.sq(c) == start_square(c),
            r.turn_of() == PieceColor::White,
            r.passant() is None,
            r.half_moves() == 0,
            r.full_moves() == 1,
            r.side(PieceColor::White).taken().len() == 0,
            r.side(PieceColor::Black).taken().len() == 0,
            r.king_square(PieceColor::White) == coord(4, 1),
            r.king_square(PieceColor::Black) == coord(4, 8),
            r.right(PieceColor::White, true) && r.right(PieceColor::White, false),
            r.right(PieceColor::Black, true) && r.right(PieceColor::Black, false),
            r.wf(),
            r.kings_placed(),
    {
        let black_back = Row::default_back_row(PieceColor::Black);
        let black_pawns = Row::pawn_row(PieceColor::Black);
        let empty = Row::default();
        let white_pawns = Row::pawn_row(PieceColor::White);
        let white_back = Row::default_back_row(PieceColor::White);
        let rows = [black_back, black_pawns, empty, empty, empty, empty, white_pawns, white_back];
        let r = Board {
            rows,
            turn: PieceColor::White,
            opt_legal_passant_square: None,
            white_side_information: SideInformation::default(PieceColor::White),
            black_side_information: SideInformation::default(PieceColor::Black),
            half_turns: 0,
            full_turns: 1,
        };
        assert forall|c: Coordinates| c.valid() implies #[trigger] r.sq(c) == start_square(c) by {
            assert(rows@ == seq![black_back, black_pawns, empty, empty, empty, empty, white_pawns, white_back]);
            assert(0 <= c.col() < 8);
            let x = c.col();
            if c.number == 1 {
                assert(white_back.at(x) == start_square(c));
            } else if c.number == 2 {
                assert(white_pawns.at(x) == start_square(c));
            } else if c.number == 7 {
                assert(black_pawns.at(x) == start_square(c));
            } else if c.number == 8 {
                assert(black_back.at(x) == start_square(c));
            } else {
                assert(empty.at(x) == start_square(c));
            }
        }
        assert(r.sq(coord(4, 1)) == start_square(coord(4, 1)));
        assert(r.sq(coord(4, 8)) == start_square(coord(4, 8)));
        r
    }

    pub fn new(
        input_rows: [Row; 8],
        current_turn: PieceColor,
        input_passant_square: Option<Coordinates>,
        input_white_side: SideInformation,
        input_black_side: SideInformation,
        input_half_turns: u32,
        input_full_turns: u32,
    ) -> (r: Board)
        ensures
            r.grid() == input_rows,
            r.turn_of() == current_turn,
            r.passant() == input_passant_square,
            r.side(PieceColor::White) == input_white_side,
            r.side(PieceColor::Black) == input_black_side,
            r.half_moves() == input_half_turns,
            r.full_moves() == input_full_turns,
    {
        Board {
            rows: input_rows,
            turn: current_turn,
            opt_legal_passant_square: input_passant_square,
            white_side_information: input_white_side,
            black_side_information: input_black_side,
            half_turns: input_half_turns,
            full_turns: input_full_turns,
        }
    }

    /// What one side keeps besides its pieces.
    pub fn get_side_information(&self, color: PieceColor) -> (r: &SideInformation)
        ensures
            *r == self.side(color),
    {
        match color {
            PieceColor::White => &self.white_side_information,
            PieceColor::Black => &self.black_side_information,
        }
    }

    pub fn get_turn(&self) -> (r: PieceColor)
        ensures
            r == self.turn_of(),
    {
        self.turn
    }

    pub fn get_half_turns(&self) -> (r: u32)
        ensures
            r == self.half_moves(),
    {
        self.half_turns
    }

    pub fn get_full_turns(&self) -> (r: u32)
        ensures
            r == self.full_moves(),
    {
        self.full_turns
    }

    pub fn get_opt_passant_square(&self) -> (r: Option<Coordinates>)
        ensures
            r == self.passant(),
    {
        self.opt_legal_passant_square
    }

    pub fn get_turn_full(&self) -> (r: &'static str)
        ensures
            r@ == match self.turn_of() {
                PieceColor::White => "white"@,
                PieceColor::Black => "black"@,
            },
    {
        match self.turn {
            PieceColor::White => "white",
            PieceColor::Black => "black",
        }
    }

    /// Every square of the board, rank 1 first and file A first within a rank.
    pub fn board_coords() -> (r: Vec<Coordinates>)
        ensures
            r@.len() == 64,
            forall|i: int| 0 <= i < 64 ==> #[trigger] r@[i] == coord(i % 8, i / 8 + 1),
    {
        let mut return_vector: Vec<Coordinates> = Vec::new();
        let letters = ColumnLetter::iterator();
        let mut row_number: isize = 1;
        while row_number < 9
            invariant
                1 <= row_number <= 9,
                letters@.len() == 8,
                forall|i: int| 0 <= i < 8 ==> #[trigger] letters@[i] == column_at(i),
                return_vector@.len() == 8 * (row_number - 1),
                forall|i: int|
                    0 <= i < return_vector@.len() ==> #[trigger] return_vector@[i] == coord(
                        i % 8,
                        i / 8 + 1,
                    ),
            decreases 9 - row_number,
        {
            let mut j: usize = 0;
            while j < 8
                invariant
                    1 <= row_number <= 8,
                    j <= 8,
                    letters@.len() == 8,
                    forall|i: int| 0 <= i < 8 ==> #[trigger] letters@[i] == column_at(i),
                    return_vector@.len() == 8 * (row_number - 1) + j,
                    forall|i: int|
                        0 <= i < return_vector@.len() ==> #[trigger] return_vector@[i] == coord(
                            i % 8,
                            i / 8 + 1,
                        ),
                decreases 8 - j,
            {
                let ghost n = return_vector@.len();
                return_vector.push(Coordinates { letter: letters[j], number: row_number });
                assert(n % 8 == j as int && n / 8 + 1 == row_number) by (nonlinear_arith)
                    requires
                        n == 8 * (row_number - 1) + j,
                        0 <= j < 8,
                ;
                j += 1;
            }
            row_number += 1;
        }
        return_vector
    }

    /// Maps a rank to the index of its stored row: rank 8 is stored first.
    fn convert_row_usize(size: usize) -> (r: Result<usize, &'static str>)
        ensures
            match r {
                Ok(i) => 1 <= size <= 8 && i == 8 - size,
                Err(e) => !(1 <= size <= 8) && e@ == ROW_OUT_OF_BOARD@,
            },
    {
        if size > 0 && size < 9 {
            Ok(7 - (size - 1))
        } else {
            Err(ROW_OUT_OF_BOARD)
        }
    }

    /// The contents of a square; an error when its rank is off the board.
    pub fn retreive_square(&self, coords: &Coordinates) -> (r: Result<Square, &'static str>)
        ensures
            match r {
                Ok(s) => coords.valid() && s == self.sq(*coords),
                Err(e) => !coords.valid() && (e@ == VALUE_OUT_OF_BOARD@ || e@ == ROW_OUT_OF_BOARD@),
            },
    {
        match board_safe_isize_converter(coords.number) {
            Ok(usize_number) => {
                let usize_letter = coords.letter.eval() as usize;
                match Self::convert_row_usize(usize_number) {
                    Ok(converted_size) => Ok(self.rows[converted_size].squares[usize_letter]),
                    Err(error_text) => Err(error_text),
                }
            },
            Err(number_text) => Err(number_text),
        }
    }

    /// Writes a square; a square off the board leaves the board as it was.
    pub fn set_square(&mut self, coords: &Coordinates, square: Square)
        ensures
            *final(self) == if coords.valid() {
                old(self).with_square(*coords, square)
            } else {
                *old(self)
            },
    {
        if 1 <= coords.number && coords.number <= 8 {
            grid_set(&mut self.rows, coords, square);
        }
    }

    pub fn remove_castling_rights(&mut self, side_color: PieceColor, is_kingside: bool)
        ensures
            final(self).grid() == old(self).grid(),
            final(self).right(side_color, is_kingside) == false,
            final(self).right(side_color, !is_kingside) == old(self).right(side_color, !is_kingside),
            final(self).right(side_color.inverse(), true) == old(self).right(side_color.inverse(), true),
            final(self).right(side_color.inverse(), false) == old(self).right(side_color.inverse(), false),
            final(self).side(side_color).taken() == old(self).side(side_color).taken(),
            final(self).side(side_color).king() == old(self).side(side_color).king(),
            final(self).side(side_color.inverse()) == old(self).side(side_color.inverse()),
            final(self).turn_of() == old(self).turn_of(),
            final(self).passant() == old(self).passant(),
            final(self).half_moves() == old(self).half_moves(),
            final(self).full_moves() == old(self).full_moves(),
    {
        match side_color {
            PieceColor::Black => self.black_side_information.remove_castling_rights(is_kingside),
            PieceColor::White => self.white_side_information.remove_castling_rights(is_kingside),
        }
    }

    /// Whether a square is empty; clears `path_clear` when it is not.
    fn inner_path_clear_checking(&self, path_clear: &mut bool, coords: &Coordinates) -> (r: bool)
        requires
            coords.valid(),
        ensures
            r == (self.sq(*coords) == Square::Empty),
            *final(path_clear) == (*old(path_clear) && r),
    {
        match grid_get(&self.rows, coords) {
            Square::Full(_) => {
                *path_clear = false;
                false
            },
            Square::Empty => true,
        }
    }

    /// Whether every square strictly between `from` and `to` is empty, for a sliding
    /// direction; a knight's hook and a non-move need no clear path.
    pub fn twixt_hither_and_yon(
        &self,
        from: &Coordinates,
        to: &Coordinates,
        direction: MoveDirection,
    ) -> (r: bool)
        requires
            from.valid(),
            to.valid(),
            direction == direction_between(*from, *to),
        ensures
            r == path_clear(self.grid(), *from, *to, direction),
    {
        match direction {
            MoveDirection::JHook | MoveDirection::NoMove | MoveDirection::IllegalMove => {
                return true;
            },
            _ => {},
        }
        let from_col = from.letter.eval();
        let lat = isize_difference(from_col, to.letter.eval());
        let vert = isize_difference(from.number, to.number);
        let length = if lat >= vert {
            lat
        } else {
            vert
        };
        let (col_step, row_step) = step_of(direction);
        let mut path_clear_so_far = true;
        let mut k: isize = 1;
        while k < length
            invariant
                from.valid(),
                to.valid(),
                direction == direction_between(*from, *to),
                is_sliding(direction),
                from_col == from.col(),
                col_step == step_col(direction),
                row_step == step_row(direction),
                length == span(*from, *to),
                1 <= k,
                length <= 7 ==> k <= length || length < 1,
                path_clear_so_far,
                forall|j: int|
                    1 <= j < k ==> grid_at(self.rows, #[trigger] path_square(*from, direction, j))
                        == Square::Empty,
            decreases length - k,
        {
            proof {
                lemma_path_square_on_board(*from, *to, k as int);
            }
            let col = from_col + shift_by(k, col_step);
            let row = from.number + shift_by(k, row_step);
            let letter = match ColumnLetter::construct_letter_from_isize(col) {
                Ok(l) => l,
                Err(_) => {
                    return false;
                },
            };
            let c = Coordinates { letter, number: row };
            assert(c == path_square(*from, direction, k as int));
            if !self.inner_path_clear_checking(&mut path_clear_so_far, &c) {
                return false;
            }
            k += 1;
        }
        true
    }

    /// Whether the piece on `from` attacks `to`: the move is legal, and for a pawn it is a
    /// diagonal step rather than a step straight ahead.
    pub fn square_threatens_square(&self, from: &Coordinates, to: &Coordinates) -> (r: bool)
        requires
            from.valid(),
        ensures
            r == threatens(*self, *from, *to),
            self.sq(*from) == Square::Empty ==> !r,
            self.sq(*from) is Full && piece_at(*self, *from).kind != PieceKind::Pawn ==> r == legal(
                *self,
                *from,
                *to,
            ),
            self.sq(*from) is Full && piece_at(*self, *from).kind == PieceKind::Pawn ==> r == (legal(
                *self,
                *from,
                *to,
            ) && distance_between(*from, *to) == 2 && direction_between(*from, *to)
                != MoveDirection::Up && direction_between(*from, *to) != MoveDirection::Down),
    {
        self.threatens_within(from, to, LOOKAHEAD)
    }

    /// `square_threatens_square` with `depth` levels of lookahead.
    pub(crate) fn threatens_within(&self, from: &Coordinates, to: &Coordinates, depth: u32) -> (r: bool)
        requires
            from.valid(),
        ensures
            r == threat_at(rules_view(*self), *from, *to, depth as nat),
        decreases depth, 5nat,
    {
        let judged = judge_within(from, to, self, depth);
        if !judged.0 {
            return false;
        }
        match grid_get(&self.rows, from) {
            Square::Full(piece) => {
                if piece.kind == PieceKind::Pawn {
                    judged.5 == 2 && judged.4 != MoveDirection::Up && judged.4 != MoveDirection::Down
                } else {
                    true
                }
            },
            Square::Empty => false,
        }
    }

    /// Whether a piece of the other side attacks the recorded square of the king of
    /// `king_color`.
    pub fn is_king_in_danger(&self, king_color: PieceColor) -> (r: bool)
        ensures
            r == self.in_danger(king_color),
    {
        self.king_in_danger_within(king_color, LOOKAHEAD)
    }

    /// `is_king_in_danger` with `depth` levels of lookahead.
    pub(crate) fn king_in_danger_within(&self, king_color: PieceColor, depth: u32) -> (r: bool)
        ensures
            r == danger_at(rules_view(*self), king_color, depth as nat),
        decreases depth, 0nat,
    {
        if depth == 0 {
            return false;
        }
        let ghost v = rules_view(*self);
        let target = match king_color {
            PieceColor::Black => self.black_side_information.current_king_square,
            PieceColor::White => self.white_side_information.current_king_square,
        };
        let enemy = king_color.get_inverse_color();
        let coords = Self::board_coords();
        let mut i: usize = 0;
        while i < 64
            invariant
                depth > 0,
                v == rules_view(*self),
                target == v.king_square(king_color),
                enemy == king_color.inverse(),
                coords@.len() == 64,
                forall|k: int| 0 <= k < 64 ==> #[trigger] coords@[k] == coord(k % 8, k / 8 + 1),
                i <= 64,
                !danger_scan(v, king_color, depth as nat, i as nat),
            decreases 64 - i,
        {
            let from_coords = coords[i];
            assert(from_coords == index_square(i as int));
            assert(from_coords.valid()) by {
                assert(0 <= (i as int) / 8 < 8);
            }
            let enemy_here = match grid_get(&self.rows, &from_coords) {
                Square::Full(piece) => piece.color == enemy,
                Square::Empty => false,
            };
            if enemy_here && self.threatens_within(&from_coords, &target, depth - 1) {
                proof {
                    assert(danger_scan(v, king_color, depth as nat, (i + 1) as nat));
                    lemma_danger_scan_grows(v, king_color, depth as nat, (i + 1) as nat, 64);
                }
                return true;
            }
            assert(!danger_scan(v, king_color, depth as nat, (i + 1) as nat));
            i += 1;
        }
        false
    }

    /// A copy of the position for trying a move out: the grid, the turn, the en passant
    /// target, the counters, each side's king square and castling rights.  The captured
    /// pieces, which no rule reads, are left out.
    pub(crate) fn snapshot(&self) -> (r: Board)
        ensures
            r.rows == self.rows,
            r.turn == self.turn,
            r.opt_legal_passant_square == self.opt_legal_passant_square,
            r.half_turns == self.half_turns,
            r.full_turns == self.full_turns,
            r.king_square(PieceColor::White) == self.king_square(PieceColor::White),
            r.king_square(PieceColor::Black) == self.king_square(PieceColor::Black),
            forall|c: PieceColor, k: bool| #[trigger] r.right(c, k) == self.right(c, k),
            r.white_side_information.can_castle_kingside == self.white_side_information.can_castle_kingside,
            r.white_side_information.can_castle_queenside == self.white_side_information.can_castle_queenside,
            r.black_side_information.can_castle_kingside == self.black_side_information.can_castle_kingside,
            r.black_side_information.can_castle_queenside == self.black_side_information.can_castle_queenside,
            rules_view(r) == rules_view(*self),
    {
        Board {
            rows: self.rows,
            turn: self.turn,
            opt_legal_passant_square: self.opt_legal_passant_square,
            white_side_information: SideInformation {
                taken_pieces: Vec::new(),
                can_castle_kingside: self.white_side_information.can_castle_kingside,
                can_castle_queenside: self.white_side_information.can_castle_queenside,
                current_king_square: self.white_side_information.current_king_square,
            },
            black_side_information: SideInformation {
                taken_pieces: Vec::new(),
                can_castle_kingside: self.black_side_information.can_castle_kingside,
                can_castle_queenside: self.black_side_information.can_castle_queenside,
                current_king_square: self.black_side_information.current_king_square,
            },
            half_turns: self.half_turns,
            full_turns: self.full_turns,
        }
    }

    /// Records the king of `king_color` on `coords`; that side loses both castling rights.
    fn update_king_location(&mut self, coords: Coordinates, king_color: PieceColor)
        ensures
            *final(self) == old(self).with_king(king_color, coords),
    {
        match king_color {
            PieceColor::Black => {
                self.black_side_information.current_king_square = coords;
                self.black_side_information.can_castle_kingside = false;
                self.black_side_information.can_castle_queenside = false;
            },
            PieceColor::White => {
                self.white_side_information.current_king_square = coords;
                self.white_side_information.can_castle_kingside = false;
                self.white_side_information.can_castle_queenside = false;
            },
        }
    }

    /// Whether the side to move has a legal move.
    pub fn legal_move_available(&self) -> (r: bool)
        ensures
            r == has_legal_move(*self),
    {
        let coords = Self::board_coords();
        let mut i: usize = 0;
        while i < 64
            invariant
                coords@.len() == 64,
                forall|k: int| 0 <= k < 64 ==> #[trigger] coords@[k] == coord(k % 8, k / 8 + 1),
                i <= 64,
                forall|k: int, to: Coordinates|
                    0 <= k < i ==> !(to.valid() && holds_side(self.rows, coords@[k], self.turn)
                        && #[trigger] legal(*self, coords@[k], to)),
            decreases 64 - i,
        {
            let coordinate = coords[i];
            let square = grid_get(&self.rows, &coordinate);
            let own = match square {
                Square::Full(p) => p.color == self.turn,
                Square::Empty => false,
            };
            if own {
                let targets = square.get_legal_targets(&coordinate, self);
                if targets.len() > 0 {
                    assert(legal(*self, coordinate, targets@[0]));
                    return true;
                }
            }
            i += 1;
        }
        proof {
            assert forall|from: Coordinates, to: Coordinates|
                from.valid() && to.valid() && holds_side(self.rows, from, self.turn)
                    implies !#[trigger] legal(*self, from, to) by {
                let k = board_index(from);
                lemma_board_index(from);
                assert(coords@[k] == from);
            }
        }
        false
    }

    /// Adds a captured piece to the captures of the side that took it.
    pub fn add_piece_to_kills(&mut self, piece_kind: PieceKind, piece_color: PieceColor)
        requires
            old(self).wf(),
            piece_kind != PieceKind::King,
        ensures
            final(self).wf(),
            final(self).side(piece_color.inverse()).taken() == sorted_kinds(
                old(self).side(piece_color.inverse()).taken().push(piece_kind),
            ),
            final(self).side(piece_color).taken() == old(self).side(piece_color).taken(),
            forall|c: PieceColor, k: bool| #[trigger] final(self).right(c, k) == old(self).right(c, k),
            forall|c: PieceColor| #[trigger] final(self).king_square(c) == old(self).king_square(c),
            final(self).grid() == old(self).grid(),
            final(self).turn_of() == old(self).turn_of(),
            final(self).passant() == old(self).passant(),
            final(self).half_moves() == old(self).half_moves(),
            final(self).full_moves() == old(self).full_moves(),
    {
        match piece_color {
            PieceColor::Black => self.white_side_information.add_taken_piece(piece_kind),
            PieceColor::White => self.black_side_information.add_taken_piece(piece_kind),
        }
    }

    /// Plays a move for the side to move and reports the outcome.  A move that is not
    /// played leaves the board as it was.  When the half-move clock stands at 100 the
    /// outcome is a stalemate.
    pub fn move_piece(&mut self, from: &Coordinates, to: &Coordinates) -> (r: MoveResult)
        requires
            old(self).wf(),
            old(self).half_moves() < u32::MAX,
            old(self).full_moves() < u32::MAX,
        ensures
            final(self).wf(),
            old(self).kings_placed() ==> final(self).kings_placed(),
            !playable(*old(self), *from, *to) ==> *final(self) == *old(self),
            r == if final(self).half_moves() == 100 {
                MoveResult::Stalemate
            } else if !playable(*old(self), *from, *to) {
                refusal(*old(self), *from, *to)
            } else {
                classify(*final(self), final(self).turn_of())
            },
            playable(*old(self), *from, *to) ==> {
                let b = *old(self);
                let mover = piece_at(b, *from);
                &&& final(self).grid() == after(b, *from, *to).grid()
                &&& forall|c: PieceColor|
                    #[trigger] final(self).king_square(c) == after(b, *from, *to).king_square(c)
                &&& !final(self).in_danger(mover.color)
                &&& forall|c: PieceColor, k: bool|
                    #[trigger] final(self).right(c, k) == right_after(b, *from, *to, c, k)
                &&& forall|c: PieceColor, k: bool|
                    #[trigger] final(self).right(c, k) ==> b.right(c, k)
                &&& final(self).passant() == new_passant(b, *from, *to)
                &&& (double_step(b, *from, *to) ==> final(self).passant() == Some(
                    Coordinates { letter: to.letter, number: (to.number - step_row(forward(mover.color))) as isize },
                ))
                &&& (!double_step(b, *from, *to) ==> final(self).passant() is None)
                &&& final(self).turn_of() == b.turn_of().inverse()
                &&& final(self).half_moves() == if is_capture(b, *from, *to) || mover.kind
                    == PieceKind::Pawn {
                    0
                } else {
                    b.half_moves() + 1
                }
                &&& final(self).full_moves() == if b.turn_of() == PieceColor::Black {
                    b.full_moves() + 1
                } else {
                    b.full_moves() as int
                }
                &&& final(self).side(mover.color).taken() == if is_capture(b, *from, *to) {
                    sorted_kinds(b.side(mover.color).taken().push(captured(b, *from, *to).kind))
                } else {
                    b.side(mover.color).taken()
                }
                &&& final(self).side(mover.color.inverse()).taken() == b.side(
                    mover.color.inverse(),
                ).taken()
            },
    {
        let result = self.play(from, to);
        if self.half_turns == 100 {
            MoveResult::Stalemate
        } else {
            result
        }
    }

    /// The en passant target that moving `piece` from `from` to `to` leaves: one rank behind
    /// a pawn's double step, none otherwise.
    fn passant_after(&self, from: &Coordinates, to: &Coordinates, piece: Piece) -> (r: Option<Coordinates>)
        requires
            from.valid(),
            to.valid(),
            self.sq(*from) == Square::Full(piece),
        ensures
            r == new_passant(*self, *from, *to),
    {
        let info = measure_distance(from, to);
        let target_empty = match grid_get(&self.rows, to) {
            Square::Empty => true,
            Square::Full(_) => false,
        };
        let ahead = match piece.color {
            PieceColor::White => MoveDirection::Up,
            PieceColor::Black => MoveDirection::Down,
        };
        if piece.kind == PieceKind::Pawn && target_empty && info.distance == 2
            && info.move_direction == ahead {
            let behind: isize = match piece.color {
                PieceColor::White => to.number - 1,
                PieceColor::Black => to.number + 1,
            };
            Some(Coordinates { letter: to.letter, number: behind })
        } else {
            None
        }
    }

    /// Plays a move on the board but for the turn, the counters and the captured pieces:
    /// castling rights, the en passant target, and the pieces on the grid.
    pub(crate) fn relocate(&mut self, from: &Coordinates, to: &Coordinates, piece: Piece)
        requires
            from.valid(),
            to.valid(),
            old(self).sq(*from) == Square::Full(piece),
        ensures
            *final(self) == after(*old(self), *from, *to),
            forall|c: PieceColor, k: bool|
                #[trigger] final(self).right(c, k) == right_after(*old(self), *from, *to, c, k),
            final(self).passant() == new_passant(*old(self), *from, *to),
            final(self).turn_of() == old(self).turn_of(),
            final(self).half_moves() == old(self).half_moves(),
            final(self).full_moves() == old(self).full_moves(),
            final(self).side(PieceColor::White).taken() == old(self).side(PieceColor::White).taken(),
            final(self).side(PieceColor::Black).taken() == old(self).side(PieceColor::Black).taken(),
    {
        let ghost b = *self;
        let new_passant_target = self.passant_after(from, to, piece);
        if piece.kind == PieceKind::Rook {
            if from.letter == ColumnLetter::A {
                match piece.color {
                    PieceColor::White => self.white_side_information.can_castle_queenside = false,
                    PieceColor::Black => self.black_side_information.can_castle_queenside = false,
                }
            } else if from.letter == ColumnLetter::H {
                match piece.color {
                    PieceColor::White => self.white_side_information.can_castle_kingside = false,
                    PieceColor::Black => self.black_side_information.can_castle_kingside = false,
                }
            }
        }
        self.opt_legal_passant_square = new_passant_target;
        assert(*self == prepared(b, *from, *to));
        self.place_move(from, to, piece);
        proof {
            assert forall|c: PieceColor, k: bool| #[trigger] self.right(c, k) == right_after(b, *from, *to, c, k) by {
                if c == PieceColor::White {
                    if k {} else {}
                } else {
                    if k {} else {}
                }
            }
        }
    }

    #[verifier::rlimit(100)]
    fn play(&mut self, from: &Coordinates, to: &Coordinates) -> (r: MoveResult)
        requires
            old(self).wf(),
            old(self).half_moves() < u32::MAX,
            old(self).full_moves() < u32::MAX,
        ensures
            final(self).wf(),
            old(self).kings_placed() ==> final(self).kings_placed(),
            !playable(*old(self), *from, *to) ==> *final(self) == *old(self) && r == refusal(
                *old(self),
                *from,
                *to,
            ),
            playable(*old(self), *from, *to) ==> {
                let b = *old(self);
                let mover = piece_at(b, *from);
                &&& r == classify(*final(self), final(self).turn_of())
                &&& final(self).grid() == after(b, *from, *to).grid()
                &&& forall|c: PieceColor|
                    #[trigger] final(self).king_square(c) == after(b, *from, *to).king_square(c)
                &&& !final(self).in_danger(mover.color)
                &&& forall|c: PieceColor, k: bool|
                    #[trigger] final(self).right(c, k) == right_after(b, *from, *to, c, k)
                &&& forall|c: PieceColor, k: bool|
                    #[trigger] final(self).right(c, k) ==> b.right(c, k)
                &&& final(self).passant() == new_passant(b, *from, *to)
                &&& (double_step(b, *from, *to) ==> final(self).passant() == Some(
                    Coordinates { letter: to.letter, number: (to.number - step_row(forward(mover.color))) as isize },
                ))
                &&& (!double_step(b, *from, *to) ==> final(self).passant() is None)
                &&& final(self).turn_of() == b.turn_of().inverse()
                &&& final(self).half_moves() == if is_capture(b, *from, *to) || mover.kind
                    == PieceKind::Pawn {
                    0
                } else {
                    b.half_moves() + 1
                }
                &&& final(self).full_moves() == if b.turn_of() == PieceColor::Black {
                    b.full_moves() + 1
                } else {
                    b.full_moves() as int
                }
                &&& final(self).side(mover.color).taken() == if is_capture(b, *from, *to) {
                    sorted_kinds(b.side(mover.color).taken().push(captured(b, *from, *to).kind))
                } else {
                    b.side(mover.color).taken()
                }
                &&& final(self).side(mover.color.inverse()).taken() == b.side(
                    mover.color.inverse(),
                ).taken()
            },
    {
        let ghost b = *self;
        let piece = match self.retreive_square(from) {
            Ok(Square::Full(piece)) => piece,
            Ok(Square::Empty) => {
                return MoveResult::EmptySquare;
            },
            Err(_) => {
                return MoveResult::MoveIllegal;
            },
        };
        if piece.color != self.turn {
            return MoveResult::WrongTurn;
        }
        let (
            move_legal,
            taking_piece,
            target_piece_color,
            target_piece_kind,
            _move_direction,
            _move_distance,
            _opt_passant_target,
            opt_new_passant_legal,
        ) = parse_move_legality(from, to, self);
        if !move_legal {
            return MoveResult::MoveIllegal;
        }
        if taking_piece && target_piece_kind == PieceKind::King {
            return MoveResult::MoveIllegal;
        }
        self.relocate(from, to, piece);
        let ghost placed = *self;
        if taking_piece {
            self.add_piece_to_kills(target_piece_kind, target_piece_color);
            assert(self.king_square(PieceColor::White) == placed.king_square(PieceColor::White));
            assert(self.king_square(PieceColor::Black) == placed.king_square(PieceColor::Black));
        }
        let ghost counted = *self;
        if taking_piece || piece.kind == PieceKind::Pawn {
            self.half_turns = 0;
        } else {
            self.half_turns = self.half_turns + 1;
        }
        match self.turn {
            PieceColor::Black => {
                self.turn = PieceColor::White;
                self.full_turns = self.full_turns + 1;
            },
            PieceColor::White => self.turn = PieceColor::Black,
        }
        let opponent_color = piece.color.get_inverse_color();
        proof {
            let full = after(b, *from, *to);
            assert(self.white_side_information == counted.white_side_information);
            assert(self.black_side_information == counted.black_side_information);
            assert forall|c: PieceColor, k: bool| #[trigger] self.right(c, k) == right_after(b, *from, *to, c, k) by {
                assert(counted.right(c, k) == placed.right(c, k));
            }
            assert forall|c: PieceColor, k: bool| #[trigger] self.right(c, k) ==> b.right(c, k) by {
                assert(self.right(c, k) == right_after(b, *from, *to, c, k));
            }
            assert(self.king_square(PieceColor::White) == full.king_square(PieceColor::White));
            assert(self.king_square(PieceColor::Black) == full.king_square(PieceColor::Black));
            assert forall|c: PieceColor| #[trigger] self.king_square(c) == full.king_square(c) by {
                if c == PieceColor::White {
                } else {
                }
            }
            assert(self.right(PieceColor::White, true) == placed.right(PieceColor::White, true));
            assert(self.right(PieceColor::White, false) == placed.right(PieceColor::White, false));
            assert(self.right(PieceColor::Black, true) == placed.right(PieceColor::Black, true));
            assert(self.right(PieceColor::Black, false) == placed.right(PieceColor::Black, false));
            assert(self.king_square(PieceColor::White) == placed.king_square(PieceColor::White));
            assert(self.king_square(PieceColor::Black) == placed.king_square(PieceColor::Black));
            assert(rules_view(*self) == rules_view(placed));
            lemma_view_after(b, b, *from, *to);
            assert(rules_view(placed) == after(rules_view(b), *from, *to));
            assert(piece_at(rules_view(b), *from) == piece_at(b, *from));
            assert(!self.in_danger(piece.color));
            if b.kings_placed() {
                lemma_move_keeps_kings(b, *from, *to);
                assert(self.king_placed(PieceColor::White) == full.king_placed(PieceColor::White));
                assert(self.king_placed(PieceColor::Black) == full.king_placed(PieceColor::Black));
            }
        }
        match king_checkmate_state(opponent_color, &*self) {
            MateState::Check => match opponent_color {
                PieceColor::Black => MoveResult::BlackKingChecked,
                PieceColor::White => MoveResult::WhiteKingChecked,
            },
            MateState::CheckMate => match opponent_color {
                PieceColor::Black => MoveResult::BlackKingCheckmated,
                PieceColor::White => MoveResult::WhiteKingCheckmated,
            },
            MateState::StaleMate => MoveResult::Stalemate,
            MateState::Safe => MoveResult::CompletedSafely,
        }
    }

    /// How many squares hold the piece.
    pub fn count_on_board(&self, piece: Piece) -> (r: i32)
        ensures
            r == board_count(*self, Square::Full(piece)),
    {
        let coords = Self::board_coords();
        let ghost f = |c: Coordinates| grid_at(self.rows, c);
        let mut count: i32 = 0;
        let mut i: usize = 0;
        while i < 64
            invariant
                coords@.len() == 64,
                forall|k: int| 0 <= k < 64 ==> #[trigger] coords@[k] == coord(k % 8, k / 8 + 1),
                i <= 64,
                f == (|c: Coordinates| grid_at(self.rows, c)),
                count == count_in(f, Square::Full(piece), i as int),
                count <= i,
            decreases 64 - i,
        {
            let c = coords[i];
            assert(c == index_square(i as int));
            assert(c.valid()) by {
                assert(0 <= (i as int) / 8 < 8);
            }
            if grid_get(&self.rows, &c) == Square::Full(piece) {
                count += 1;
            }
            i += 1;
        }
        count
    }

    /// Sets each side's captured pieces from what the other side is missing, measured
    /// against the starting set.
    pub fn adjust_taken_pieces(&mut self)
        requires
            board_count(*old(self), Square::Full(Piece { color: PieceColor::White, kind: PieceKind::King })) >= 1,
            board_count(*old(self), Square::Full(Piece { color: PieceColor::Black, kind: PieceKind::King })) >= 1,
        ensures
            final(self).wf(),
            final(self).side(PieceColor::White).taken() == missing_pieces(*old(self), PieceColor::White),
            final(self).side(PieceColor::Black).taken() == missing_pieces(*old(self), PieceColor::Black),
            final(self).grid() == old(self).grid(),
            forall|c: PieceColor, k: bool| #[trigger] final(self).right(c, k) == old(self).right(c, k),
            forall|c: PieceColor| #[trigger] final(self).king_square(c) == old(self).king_square(c),
            final(self).turn_of() == old(self).turn_of(),
            final(self).passant() == old(self).passant(),
            final(self).half_moves() == old(self).half_moves(),
            final(self).full_moves() == old(self).full_moves(),
    {
        let black_pawn_count = self.count_on_board(Piece { color: PieceColor::Black, kind: PieceKind::Pawn });
        let black_rook_count = self.count_on_board(Piece { color: PieceColor::Black, kind: PieceKind::Rook });
        let black_knight_count = self.count_on_board(Piece { color: PieceColor::Black, kind: PieceKind::Knight });
        let black_bishop_count = self.count_on_board(Piece { color: PieceColor::Black, kind: PieceKind::Bishop });
        let black_queen_count = self.count_on_board(Piece { color: PieceColor::Black, kind: PieceKind::Queen });
        let white_pawn_count = self.count_on_board(Piece { color: PieceColor::White, kind: PieceKind::Pawn });
        let white_rook_count = self.count_on_board(Piece { color: PieceColor::White, kind: PieceKind::Rook });
        let white_knight_count = self.count_on_board(Piece { color: PieceColor::White, kind: PieceKind::Knight });
        let white_bishop_count = self.count_on_board(Piece { color: PieceColor::White, kind: PieceKind::Bishop });
        let white_queen_count = self.count_on_board(Piece { color: PieceColor::White, kind: PieceKind::Queen });
        let ghost b = *self;
        self.white_side_information.adjust_taken_pieces(
            8 - black_pawn_count,
            2 - black_rook_count,
            2 - black_knight_count,
            2 - black_bishop_count,
            1 - black_queen_count,
        );
        self.black_side_information.adjust_taken_pieces(
            8 - white_pawn_count,
            2 - white_rook_count,
            2 - white_knight_count,
            2 - white_bishop_count,
            1 - white_queen_count,
        );
        proof {
            assert forall|c: PieceColor| #[trigger] self.king_square(c) == b.king_square(c) by {
                if c == PieceColor::White {} else {}
            }
            assert forall|c: PieceColor, k: bool| #[trigger] self.right(c, k) == b.right(c, k) by {
                if c == PieceColor::White {} else {}
            }
            assert(no_king(self.white_side_information.taken()));
            assert(no_king(self.black_side_information.taken()));
        }
    }

    /// The first square, in the order of `board_coords`, that holds the piece.
    pub fn find_piece(&self, piece: Piece) -> (r: Option<Coordinates>)
        ensures
            match r {
                Some(c) => c.valid() && self.sq(c) == Square::Full(piece),
                None => board_count(*self, Square::Full(piece)) == 0,
            },
    {
        let coords = Self::board_coords();
        let ghost f = |c: Coordinates| grid_at(self.rows, c);
        let mut i: usize = 0;
        while i < 64
            invariant
                coords@.len() == 64,
                forall|k: int| 0 <= k < 64 ==> #[trigger] coords@[k] == coord(k % 8, k / 8 + 1),
                i <= 64,
                f == (|c: Coordinates| grid_at(self.rows, c)),
                count_in(f, Square::Full(piece), i as int) == 0,
            decreases 64 - i,
        {
            let c = coords[i];
            assert(c == index_square(i as int));
            assert(c.valid()) by {
                assert(0 <= (i as int) / 8 < 8);
            }
            if grid_get(&self.rows, &c) == Square::Full(piece) {
                return Some(c);
            }
            i += 1;
        }
        None
    }

    /// Records each side's king square and castling rights.
    pub fn record_sides(
        &mut self,
        white_king: Coordinates,
        black_king: Coordinates,
        white_kingside: bool,
        white_queenside: bool,
        black_kingside: bool,
        black_queenside: bool,
    )
        ensures
            final(self).grid() == old(self).grid(),
            final(self).king_square(PieceColor::White) == white_king,
            final(self).king_square(PieceColor::Black) == black_king,
            final(self).right(PieceColor::White, true) == white_kingside,
            final(self).right(PieceColor::White, false) == white_queenside,
            final(self).right(PieceColor::Black, true) == black_kingside,
            final(self).right(PieceColor::Black, false) == black_queenside,
            final(self).turn_of() == old(self).turn_of(),
            final(self).passant() == old(self).passant(),
            final(self).half_moves() == old(self).half_moves(),
            final(self).full_moves() == old(self).full_moves(),
    {
        self.white_side_information.update_king_location(&white_king.letter, &white_king.number);
        self.white_side_information.set_castling_rights(white_kingside, white_queenside);
        self.black_side_information.update_king_location(&black_king.letter, &black_king.number);
        self.black_side_information.set_castling_rights(black_kingside, black_queenside);
    }

    /// Moves king and rook to their castled squares.
    fn castle(&mut self, king_color: PieceColor, is_kingside: bool)
        ensures
            *final(self) == old(self).with_square(rook_corner(king_color, is_kingside), Square::Empty)
                .with_square(king_home(king_color), Square::Empty).with_square(
                coord(castle_file(is_kingside, 2), home_rank(king_color)),
                old(self).sq(king_home(king_color)),
            ).with_square(
                coord(castle_file(is_kingside, 1), home_rank(king_color)),
                old(self).sq(rook_corner(king_color, is_kingside)),
            ),
    {
        let row_number: isize = match king_color {
            PieceColor::White => 1,
            PieceColor::Black => 8,
        };
        let home = Coordinates { letter: ColumnLetter::E, number: row_number };
        let (corner, king_dest, rook_dest) = if is_kingside {
            (
                Coordinates { letter: ColumnLetter::H, number: row_number },
                Coordinates { letter: ColumnLetter::G, number: row_number },
                Coordinates { letter: ColumnLetter::F, number: row_number },
            )
        } else {
            (
                Coordinates { letter: ColumnLetter::A, number: row_number },
                Coordinates { letter: ColumnLetter::C, number: row_number },
                Coordinates { letter: ColumnLetter::D, number: row_number },
            )
        };
        let pulled_king = grid_get(&self.rows, &home);
        let pulled_rook = grid_get(&self.rows, &corner);
        self.set_square(&corner, Square::Empty);
        self.set_square(&home, Square::Empty);
        self.set_square(&king_dest, pulled_king);
        self.set_square(&rook_dest, pulled_rook);
    }

    /// Moves the pieces of a move on the grid, as `placed` describes: the rook when
    /// castling, the piece itself, a pawn taken en passant, and the king's recorded square.
    pub(crate) fn place_move(&mut self, from: &Coordinates, to: &Coordinates, piece: Piece)
        requires
            from.valid(),
            to.valid(),
            old(self).sq(*from) == Square::Full(piece),
        ensures
            *final(self) == placed(*old(self), *from, *to),
    {
        let info = measure_distance(from, to);
        let castling = match (piece.kind, info.move_direction) {
            (PieceKind::King, MoveDirection::Left) | (PieceKind::King, MoveDirection::Right) => info.distance == 2,
            _ => false,
        };
        if castling {
            self.castle(piece.color, info.move_direction == MoveDirection::Right);
        }
        let passant_capture = match (piece.kind, info.move_direction) {
            (PieceKind::Pawn, MoveDirection::Diagonal(_)) => match grid_get(&self.rows, to) {
                Square::Empty => true,
                Square::Full(_) => false,
            },
            _ => false,
        };
        assert(castling ==> passant_capture == false);
        self.set_square(from, Square::Empty);
        self.set_square(to, Square::Full(piece));
        if passant_capture {
            let victim = Coordinates { letter: to.letter, number: from.number };
            self.set_square(&victim, Square::Empty);
        }
        if piece.kind == PieceKind::King {
            self.update_king_location(*to, piece.color);
        }
    }

    /// Whether a side may castle on the given wing now: its king is not attacked, the right
    /// is kept, and the king would not be attacked on either square it crosses.
    pub fn king_can_castle(&self, king_color: PieceColor, is_kingside_query: bool) -> (r: bool)
        ensures
            r == can_castle(*self, king_color, is_kingside_query),
    {
        self.can_castle_within(king_color, is_kingside_query, LOOKAHEAD)
    }

    /// `king_can_castle` with `depth` levels of lookahead.
    pub(crate) fn can_castle_within(&self, king_color: PieceColor, is_kingside_query: bool, depth: u32) -> (r: bool)
        ensures
            r == can_castle_at(rules_view(*self), king_color, is_kingside_query, depth as nat),
        decreases depth, 2nat,
    {
        if self.king_in_danger_within(king_color, depth) {
            return false;
        }
        let flag = match king_color {
            PieceColor::Black => self.black_side_information.king_can_castle(is_kingside_query),
            PieceColor::White => self.white_side_information.king_can_castle(is_kingside_query),
        };
        flag && self.castling_safe_within(king_color, is_kingside_query, depth)
    }

    /// Moves the king square by square along its castling path on a copy of the board and
    /// asks after each step whether it is attacked there.
    fn castling_safe_within(&self, king_color: PieceColor, is_kingside_query: bool, depth: u32) -> (r: bool)
        ensures
            r == (!danger_at(castle_hop(rules_view(*self), king_color, is_kingside_query, 1), king_color, depth as nat)
                && !danger_at(castle_hop(rules_view(*self), king_color, is_kingside_query, 2), king_color, depth as nat)),
        decreases depth, 1nat,
    {
        let mut copied_board = self.snapshot();
        let row_number: isize = match king_color {
            PieceColor::Black => 8,
            PieceColor::White => 1,
        };
        let home = Coordinates { letter: ColumnLetter::E, number: row_number };
        let (first, second) = if is_kingside_query {
            (
                Coordinates { letter: ColumnLetter::F, number: row_number },
                Coordinates { letter: ColumnLetter::G, number: row_number },
            )
        } else {
            (
                Coordinates { letter: ColumnLetter::D, number: row_number },
                Coordinates { letter: ColumnLetter::C, number: row_number },
            )
        };
        let moved_square = grid_get(&copied_board.rows, &home);
        copied_board.set_square(&home, Square::Empty);
        copied_board.set_square(&first, moved_square);
        copied_board.update_king_location(first, king_color);
        let ghost hop1 = castle_hop(rules_view(*self), king_color, is_kingside_query, 1);
        assert(rules_view(copied_board).rows == hop1.rows);
        assert(rules_view(copied_board).white_side_information == hop1.white_side_information);
        assert(rules_view(copied_board).black_side_information == hop1.black_side_information);
        assert(rules_view(copied_board) == hop1);
        if copied_board.king_in_danger_within(king_color, depth) {
            return false;
        }
        copied_board.set_square(&first, Square::Empty);
        copied_board.set_square(&second, moved_square);
        copied_board.update_king_location(second, king_color);
        let ghost hop2 = castle_hop(rules_view(*self), king_color, is_kingside_query, 2);
        assert(rules_view(copied_board) == hop2);
        !copied_board.king_in_danger_within(king_color, depth)
    }
}

/// The position of a square in the list of `board_coords`.
pub open spec fn board_index(c: Coordinates) -> int {
    (c.number - 1) * 8 + c.col()
}

pub proof fn lemma_board_index(c: Coordinates)
    requires
        c.valid(),
    ensures
        0 <= board_index(c) < 64,
        coord(board_index(c) % 8, board_index(c) / 8 + 1) == c,
{
    let i = board_index(c);
    assert(i % 8 == c.col() && i / 8 == c.number - 1) by (nonlinear_arith)
        requires
            i == (c.number - 1) * 8 + c.col(),
            0 <= c.col() < 8,
            1 <= c.number <= 8,
    ;
}

/// The square at a position of `board_coords`.
pub open spec fn index_square(k: int) -> Coordinates {
    coord(k % 8, k / 8 + 1)
}

/// How many of the first `n` squares of `board_coords` hold `target` under `f`.
pub open spec fn count_in(f: spec_fn(Coordinates) -> Square, target: Square, n: int) -> nat
    decreases n,
{
    if n <= 0 {
        0
    } else {
        count_in(f, target, n - 1) + if f(index_square(n - 1)) == target {
            1nat
        } else {
            0nat
        }
    }
}

pub proof fn lemma_count_agrees(
    f: spec_fn(Coordinates) -> Square,
    g: spec_fn(Coordinates) -> Square,
    target: Square,
    n: int,
)
    requires
        0 <= n <= 64,
        forall|c: Coordinates| c.valid() ==> #[trigger] f(c) == g(c),
    ensures
        count_in(f, target, n) == count_in(g, target, n),
    decreases n,
{
    if n > 0 {
        lemma_count_agrees(f, g, target, n - 1);
        assert(index_square(n - 1).valid());
    }
}

/// How many squares of the board hold `target`.
pub open(crate) spec fn board_count(b: Board, target: Square) -> nat {
    grid_count(b.grid(), target)
}

/// How many squares of a grid hold `target`.
pub open(crate) spec fn grid_count(g: [Row; 8], target: Square) -> nat {
    count_in(|c: Coordinates| grid_at(g, c), target, 64)
}

/// The pieces of the other side that are missing from the board, measured against the
/// starting set of eight pawns, two rooks, two knights, two bishops and a queen, in display
/// order: what `color` has captured.
pub open(crate) spec fn missing_pieces(b: Board, color: PieceColor) -> Seq<PieceKind> {
    let other = color.inverse();
    repeat_kind(PieceKind::Pawn, 8 - board_count(b, Square::Full(Piece { color: other, kind: PieceKind::Pawn })))
        + repeat_kind(PieceKind::Rook, 2 - board_count(b, Square::Full(Piece { color: other, kind: PieceKind::Rook })))
        + repeat_kind(PieceKind::Knight, 2 - board_count(b, Square::Full(Piece { color: other, kind: PieceKind::Knight })))
        + repeat_kind(PieceKind::Bishop, 2 - board_count(b, Square::Full(Piece { color: other, kind: PieceKind::Bishop })))
        + repeat_kind(PieceKind::Queen, 1 - board_count(b, Square::Full(Piece { color: other, kind: PieceKind::Queen })))
}

/// The square a side's king starts on.
pub open spec fn king_home(color: PieceColor) -> Coordinates {
    coord(4, home_rank(color))
}

/// The file of the `n`th square the king crosses when castling (1 or 2).
pub open spec fn castle_file(kingside: bool, n: int) -> int {
    if kingside {
        4 + n
    } else {
        4 - n
    }
}

/// The corner a castling rook starts on.
pub open spec fn rook_corner(color: PieceColor, kingside: bool) -> Coordinates {
    coord(if kingside { 7 } else { 0 }, home_rank(color))
}

/// The board with the piece on the king's home square moved `n` steps (1 or 2) along the
/// castling path, one step at a time, and recorded there as the king.
pub open(crate) spec fn castle_hop(b: Board, color: PieceColor, kingside: bool, n: int) -> Board
    decreases n,
{
    let home = king_home(color);
    let dest = coord(castle_file(kingside, n), home_rank(color));
    if n <= 1 {
        b.with_square(home, Square::Empty).with_square(dest, b.sq(home)).with_king(color, dest)
    } else {
        let prev = coord(castle_file(kingside, n - 1), home_rank(color));
        castle_hop(b, color, kingside, n - 1).with_square(prev, Square::Empty).with_square(
            dest,
            b.sq(home),
        ).with_king(color, dest)
    }
}

/// Whether the list holds the square.
fn listed(v: &Vec<Coordinates>, c: &Coordinates) -> (r: bool)
    ensures
        r == v@.contains(*c),
{
    let mut i: usize = 0;
    while i < v.len()
        invariant
            i <= v@.len(),
            forall|j: int| 0 <= j < i ==> v@[j] != *c,
        decreases v@.len() - i,
    {
        if v[i] == *c {
            return true;
        }
        i += 1;
    }
    false
}

/// Appending a square the list does not hold keeps it free of repeats.
proof fn lemma_push_new(v: Seq<Coordinates>, c: Coordinates)
    requires
        v.no_duplicates(),
        !v.contains(c),
    ensures
        v.push(c).no_duplicates(),
{
    assert forall|i: int, j: int| 0 <= i < j < v.push(c).len() implies v.push(c)[i] != v.push(c)[j] by {
        if j == v.len() {
            assert(v[i] != c);
        }
    }
}

/// The list after a step of collecting targets: it keeps what it held and gains only
/// squares that the piece on `from` may legally move to.
pub open(crate) spec fn collects(
    after: Seq<Coordinates>,
    before: Seq<Coordinates>,
    b: Board,
    from: Coordinates,
) -> bool {
    &&& forall|c: Coordinates| before.contains(c) ==> #[trigger] after.contains(c)
    &&& forall|c: Coordinates| #[trigger] after.contains(c) ==> before.contains(c) || legal(b, from, c)
    &&& (before.no_duplicates() ==> after.no_duplicates())
}

impl DiagonalDirection {
    pub open spec fn col_step(self) -> int {
        match self {
            DiagonalDirection::UpLeft | DiagonalDirection::DownLeft => -1,
            DiagonalDirection::UpRight | DiagonalDirection::DownRight => 1,
        }
    }

    pub open spec fn row_step(self) -> int {
        match self {
            DiagonalDirection::UpLeft | DiagonalDirection::UpRight => 1,
            DiagonalDirection::DownLeft | DiagonalDirection::DownRight => -1,
        }
    }

    /// Whether one more step in this direction from file index `letter_value` and rank
    /// `number_value` stays on the board.
    pub fn conditional_continue(&self, letter_value: isize, number_value: isize) -> (r: bool)
        requires
            0 <= letter_value <= 7,
            1 <= number_value <= 8,
        ensures
            r == (0 <= letter_value + self.col_step() <= 7 && 1 <= number_value + self.row_step()
                <= 8),
    {
        match self {
            Self::DownLeft => letter_value > 0 && number_value > 1,
            Self::DownRight => letter_value < 7 && number_value > 1,
            Self::UpLeft => letter_value > 0 && number_value < 8,
            Self::UpRight => letter_value < 7 && number_value < 8,
        }
    }

    /// Takes one step in this direction.
    pub fn modify_letter_and_number_values(
        &self,
        letter_value: &mut isize,
        number_value: &mut isize,
    )
        requires
            -8 <= *old(letter_value) <= 16,
            -8 <= *old(number_value) <= 16,
        ensures
            *final(letter_value) == *old(letter_value) + self.col_step(),
            *final(number_value) == *old(number_value) + self.row_step(),
    {
        match self {
            Self::DownLeft => {
                *letter_value -= 1;
                *number_value -= 1;
            },
            Self::DownRight => {
                *letter_value += 1;
                *number_value -= 1;
            },
            Self::UpLeft => {
                *letter_value -= 1;
                *number_value += 1;
            },
            Self::UpRight => {
                *letter_value += 1;
                *number_value += 1;
            },
        }
    }
}

impl Square {
    /// Adds the square at `col_letter`, `row_number` to the list when the piece on `from`
    /// may legally move there and the list does not hold it yet.
    pub fn get_legal_single_target(
        &self,
        from: &Coordinates,
        col_letter: ColumnLetter,
        row_number: isize,
        board: &Board,
        legal_target_squares: &mut Vec<Coordinates>,
    )
        ensures
            final(legal_target_squares)@ == if legal(
                *board,
                *from,
                Coordinates { letter: col_letter, number: row_number },
            ) && !old(legal_target_squares)@.contains(
                Coordinates { letter: col_letter, number: row_number },
            ) {
                old(legal_target_squares)@.push(Coordinates { letter: col_letter, number: row_number })
            } else {
                old(legal_target_squares)@
            },
    {
        let investigating_coordinates = Coordinates { letter: col_letter, number: row_number };
        let (move_legal, _, _, _, _, _, _, _) = parse_move_legality(
            from,
            &investigating_coordinates,
            board,
        );
        if move_legal && !listed(legal_target_squares, &investigating_coordinates) {
            legal_target_squares.push(investigating_coordinates);
        }
    }

    /// Tries the square `dc` files and `dr` ranks away from `from`.
    fn try_offset(
        &self,
        from: &Coordinates,
        dc: isize,
        dr: isize,
        board: &Board,
        legal_target_squares: &mut Vec<Coordinates>,
    )
        requires
            from.valid(),
            -2 <= dc <= 2,
            -2 <= dr <= 2,
        ensures
            collects(final(legal_target_squares)@, old(legal_target_squares)@, *board, *from),
            0 <= from.col() + dc <= 7 && legal(*board, *from, coord(from.col() + dc, from.number + dr))
                ==> final(legal_target_squares)@.contains(coord(from.col() + dc, from.number + dr)),
    {
        let ghost before = legal_target_squares@;
        match ColumnLetter::construct_letter_from_isize(from.letter.eval() + dc) {
            Ok(letter) => {
                self.get_legal_single_target(from, letter, from.number + dr, board, legal_target_squares);
                proof {
                    let t = Coordinates { letter, number: (from.number + dr) as isize };
                    assert(t == coord(from.col() + dc, from.number + dr));
                    if legal(*board, *from, t) && !before.contains(t) {
                        assert(legal_target_squares@[before.len() as int] == t);
                        if before.no_duplicates() {
                            lemma_push_new(before, t);
                        }
                    }
                }
            },
            Err(_) => {},
        }
        assert(collects(legal_target_squares@, before, *board, *from)) by {
            assert forall|c: Coordinates| before.contains(c) implies #[trigger] legal_target_squares@.contains(c) by {
                let i = choose|i: int| 0 <= i < before.len() && before[i] == c;
                assert(legal_target_squares@[i] == c);
            }
            assert forall|c: Coordinates| #[trigger] legal_target_squares@.contains(c) implies before.contains(c) || legal(*board, *from, c) by {
                let i = choose|i: int| 0 <= i < legal_target_squares@.len() && legal_target_squares@[i] == c;
                if i < before.len() {
                    assert(before[i] == c);
                }
            }
        }
    }

    /// Collects the legal targets on the rank and the file of `coordinates`.
    pub fn get_legal_cross_targets(
        &self,
        coordinates: &Coordinates,
        board: &Board,
        legal_target_squares: &mut Vec<Coordinates>,
    )
        requires
            coordinates.valid(),
        ensures
            collects(final(legal_target_squares)@, old(legal_target_squares)@, *board, *coordinates),
            forall|c: Coordinates|
                c.valid() && (c.number == coordinates.number || c.letter == coordinates.letter)
                    && #[trigger] legal(*board, *coordinates, c) ==> final(legal_target_squares)@.contains(c),
    {
        let ghost start = legal_target_squares@;
        let mut i: isize = 0;
        while i < 8
            invariant
                coordinates.valid(),
                0 <= i <= 8,
                collects(legal_target_squares@, start, *board, *coordinates),
                forall|c: Coordinates|
                    c.valid() && ((c.number == coordinates.number && c.col() < i) || (c.letter
                        == coordinates.letter && c.number <= i)) && #[trigger] legal(*board, *coordinates, c)
                        ==> legal_target_squares@.contains(c),
            decreases 8 - i,
        {
            let ghost before = legal_target_squares@;
            let found_letter = match ColumnLetter::construct_letter_from_isize(i) {
                Ok(l) => l,
                Err(_) => {
                    return;
                },
            };
            self.get_legal_single_target(coordinates, found_letter, coordinates.number, board, legal_target_squares);
            let ghost middle = legal_target_squares@;
            self.get_legal_single_target(coordinates, coordinates.letter, i + 1, board, legal_target_squares);
            proof {
                let a = Coordinates { letter: found_letter, number: coordinates.number };
                let b = Coordinates { letter: coordinates.letter, number: (i + 1) as isize };
                assert forall|c: Coordinates| before.contains(c) implies #[trigger] legal_target_squares@.contains(c) by {
                    let j = choose|j: int| 0 <= j < before.len() && before[j] == c;
                    assert(middle[j] == c);
                    assert(legal_target_squares@[j] == c);
                }
                assert forall|c: Coordinates| #[trigger] legal_target_squares@.contains(c) implies start.contains(c) || legal(*board, *coordinates, c) by {
                    let j = choose|j: int| 0 <= j < legal_target_squares@.len() && legal_target_squares@[j] == c;
                    if j < before.len() {
                        assert(before[j] == c);
                        assert(before.contains(c));
                    }
                }
                if legal(*board, *coordinates, a) {
                    if !before.contains(a) {
                        assert(middle[before.len() as int] == a);
                        assert(legal_target_squares@[before.len() as int] == a);
                        if before.no_duplicates() {
                            lemma_push_new(before, a);
                        }
                    } else {
                        let j = choose|j: int| 0 <= j < before.len() && before[j] == a;
                        assert(legal_target_squares@[j] == a);
                    }
                }
                if legal(*board, *coordinates, b) {
                    if !middle.contains(b) {
                        assert(legal_target_squares@[middle.len() as int] == b);
                        if middle.no_duplicates() {
                            lemma_push_new(middle, b);
                        }
                    } else {
                        let j = choose|j: int| 0 <= j < middle.len() && middle[j] == b;
                        assert(legal_target_squares@[j] == b);
                    }
                }
                if before.no_duplicates() && legal(*board, *coordinates, a) && !before.contains(a) {
                    lemma_push_new(before, a);
                }
                assert forall|c: Coordinates|
                    c.valid() && ((c.number == coordinates.number && c.col() < i + 1) || (c.letter
                        == coordinates.letter && c.number <= i + 1)) && #[trigger] legal(*board, *coordinates, c)
                        implies legal_target_squares@.contains(c) by {
                    if c.number == coordinates.number && c.col() == i {
                        assert(c == a);
                    } else if c.letter == coordinates.letter && c.number == i + 1 {
                        assert(c == b);
                    } else {
                        assert(before.contains(c));
                    }
                }
            }
            i += 1;
        }
    }

    /// Walks one diagonal from `coordinates` to the edge of the board and collects the
    /// legal targets on it.
    pub fn get_legal_single_diagonal(
        &self,
        coordinates: &Coordinates,
        direction: DiagonalDirection,
        board: &Board,
        legal_target_squares: &mut Vec<Coordinates>,
    )
        requires
            coordinates.valid(),
        ensures
            collects(final(legal_target_squares)@, old(legal_target_squares)@, *board, *coordinates),
            forall|c: Coordinates|
                c.valid() && direction_between(*coordinates, c) == MoveDirection::Diagonal(direction)
                    && #[trigger] legal(*board, *coordinates, c) ==> final(legal_target_squares)@.contains(c),
    {
        let ghost start = legal_target_squares@;
        let ghost sc = direction.col_step();
        let ghost sr = direction.row_step();
        let mut moving_letter_value = coordinates.letter.eval();
        let mut moving_number_value = coordinates.number;
        let ghost mut k: int = 0;
        while direction.conditional_continue(moving_letter_value, moving_number_value)
            invariant
                coordinates.valid(),
                sc == direction.col_step(),
                sr == direction.row_step(),
                0 <= k <= 7,
                0 <= moving_letter_value <= 7,
                1 <= moving_number_value <= 8,
                moving_letter_value == coordinates.col() + shift(k, sc),
                moving_number_value == coordinates.number + shift(k, sr),
                collects(legal_target_squares@, start, *board, *coordinates),
                forall|c: Coordinates|
                    c.valid() && direction_between(*coordinates, c) == MoveDirection::Diagonal(direction)
                        && span(*coordinates, c) <= k && #[trigger] legal(*board, *coordinates, c)
                        ==> legal_target_squares@.contains(c),
            decreases 7 - k,
        {
            let ghost before = legal_target_squares@;
            direction.modify_letter_and_number_values(&mut moving_letter_value, &mut moving_number_value);
            proof {
                k = k + 1;
            }
            let found_letter = match ColumnLetter::construct_letter_from_isize(moving_letter_value) {
                Ok(l) => l,
                Err(_) => {
                    return;
                },
            };
            self.get_legal_single_target(coordinates, found_letter, moving_number_value, board, legal_target_squares);
            proof {
                let t = Coordinates { letter: found_letter, number: moving_number_value };
                assert forall|c: Coordinates| before.contains(c) implies #[trigger] legal_target_squares@.contains(c) by {
                    let j = choose|j: int| 0 <= j < before.len() && before[j] == c;
                    assert(legal_target_squares@[j] == c);
                }
                assert forall|c: Coordinates| #[trigger] legal_target_squares@.contains(c) implies start.contains(c) || legal(*board, *coordinates, c) by {
                    let j = choose|j: int| 0 <= j < legal_target_squares@.len() && legal_target_squares@[j] == c;
                    if j < before.len() {
                        assert(before[j] == c);
                        assert(before.contains(c));
                    }
                }
                if legal(*board, *coordinates, t) {
                    if !before.contains(t) {
                        assert(legal_target_squares@[before.len() as int] == t);
                        if before.no_duplicates() {
                            lemma_push_new(before, t);
                        }
                    } else {
                        let j = choose|j: int| 0 <= j < before.len() && before[j] == t;
                        assert(legal_target_squares@[j] == t);
                    }
                }
                assert forall|c: Coordinates|
                    c.valid() && direction_between(*coordinates, c) == MoveDirection::Diagonal(direction)
                        && span(*coordinates, c) <= k && #[trigger] legal(*board, *coordinates, c)
                        implies legal_target_squares@.contains(c) by {
                    if span(*coordinates, c) == k {
                        assert(c.col() == moving_letter_value);
                        assert(c.letter == found_letter);
                        assert(c == t);
                    } else {
                        assert(before.contains(c));
                    }
                }
            }
        }
    }

    /// Collects the legal targets on the four diagonals through `coordinates`.
    pub fn get_legal_diagonal_targets(
        &self,
        coordinates: &Coordinates,
        board: &Board,
        legal_target_squares: &mut Vec<Coordinates>,
    )
        requires
            coordinates.valid(),
        ensures
            collects(final(legal_target_squares)@, old(legal_target_squares)@, *board, *coordinates),
            forall|c: Coordinates|
                c.valid() && direction_between(*coordinates, c) is Diagonal
                    && #[trigger] legal(*board, *coordinates, c) ==> final(legal_target_squares)@.contains(c),
    {
        let ghost v0 = legal_target_squares@;
        self.get_legal_single_diagonal(coordinates, DiagonalDirection::UpRight, board, legal_target_squares);
        let ghost v1 = legal_target_squares@;
        self.get_legal_single_diagonal(coordinates, DiagonalDirection::DownRight, board, legal_target_squares);
        let ghost v2 = legal_target_squares@;
        self.get_legal_single_diagonal(coordinates, DiagonalDirection::UpLeft, board, legal_target_squares);
        let ghost v3 = legal_target_squares@;
        self.get_legal_single_diagonal(coordinates, DiagonalDirection::DownLeft, board, legal_target_squares);
        proof {
            assert forall|c: Coordinates|
                c.valid() && direction_between(*coordinates, c) is Diagonal
                    && #[trigger] legal(*board, *coordinates, c) implies legal_target_squares@.contains(c) by {
                if direction_between(*coordinates, c) == MoveDirection::Diagonal(DiagonalDirection::UpRight) {
                    assert(v1.contains(c));
                    assert(v2.contains(c));
                    assert(v3.contains(c));
                } else if direction_between(*coordinates, c) == MoveDirection::Diagonal(DiagonalDirection::DownRight) {
                    assert(v2.contains(c));
                    assert(v3.contains(c));
                } else if direction_between(*coordinates, c) == MoveDirection::Diagonal(DiagonalDirection::UpLeft) {
                    assert(v3.contains(c));
                }
            }
            assert forall|c: Coordinates| #[trigger] legal_target_squares@.contains(c) implies v0.contains(c) || legal(*board, *coordinates, c) by {
                if !legal(*board, *coordinates, c) {
                    assert(v3.contains(c));
                    assert(v2.contains(c));
                    assert(v1.contains(c));
                }
            }
            assert forall|c: Coordinates| v0.contains(c) implies #[trigger] legal_target_squares@.contains(c) by {
                assert(v1.contains(c));
                assert(v2.contains(c));
                assert(v3.contains(c));
            }
        }
    }

    /// Tries each square at one of the given offsets (files, ranks) from `from`.
    fn try_offsets(
        &self,
        from: &Coordinates,
        offsets: &Vec<(isize, isize)>,
        board: &Board,
        legal_target_squares: &mut Vec<Coordinates>,
    )
        requires
            from.valid(),
            forall|j: int|
                0 <= j < offsets@.len() ==> -2 <= #[trigger] offsets@[j].0 <= 2 && -2 <= offsets@[j].1
                    <= 2,
        ensures
            collects(final(legal_target_squares)@, old(legal_target_squares)@, *board, *from),
            forall|j: int|
                0 <= j < offsets@.len() && 0 <= from.col() + offsets@[j].0 <= 7 && #[trigger] legal(
                    *board,
                    *from,
                    coord(from.col() + offsets@[j].0, from.number + offsets@[j].1),
                ) ==> final(legal_target_squares)@.contains(
                    coord(from.col() + offsets@[j].0, from.number + offsets@[j].1),
                ),
    {
        let ghost start = legal_target_squares@;
        let mut i: usize = 0;
        while i < offsets.len()
            invariant
                from.valid(),
                i <= offsets@.len(),
                forall|j: int|
                    0 <= j < offsets@.len() ==> -2 <= #[trigger] offsets@[j].0 <= 2 && -2
                        <= offsets@[j].1 <= 2,
                collects(legal_target_squares@, start, *board, *from),
                forall|j: int|
                    0 <= j < i && 0 <= from.col() + offsets@[j].0 <= 7 && #[trigger] legal(
                        *board,
                        *from,
                        coord(from.col() + offsets@[j].0, from.number + offsets@[j].1),
                    ) ==> legal_target_squares@.contains(
                        coord(from.col() + offsets@[j].0, from.number + offsets@[j].1),
                    ),
            decreases offsets@.len() - i,
        {
            let (dc, dr) = offsets[i];
            self.try_offset(from, dc, dr, board, legal_target_squares);
            i += 1;
        }
    }

    /// Tries the pawn's forward steps and its two forward diagonals.
    fn collect_pawn_targets(
        &self,
        coordinates: &Coordinates,
        piece: &Piece,
        board: &Board,
        legal_target_squares: &mut Vec<Coordinates>,
    )
        requires
            coordinates.valid(),
            board.sq(*coordinates) == Square::Full(*piece),
            piece.kind == PieceKind::Pawn,
        ensures
            collects(final(legal_target_squares)@, old(legal_target_squares)@, *board, *coordinates),
            forall|c: Coordinates|
                c.valid() && #[trigger] legal(*board, *coordinates, c) ==> final(legal_target_squares)@.contains(c),
    {
        let ghost from = *coordinates;
        let single_step: isize = match piece.color {
            PieceColor::Black => -1,
            PieceColor::White => 1,
        };
        let offsets = vec![
            (0, single_step),
            (0, 2 * single_step),
            (-1, single_step),
            (1, single_step),
        ];
        self.try_offsets(coordinates, &offsets, board, legal_target_squares);
        proof {
            assert forall|c: Coordinates|
                c.valid() && #[trigger] legal(*board, from, c)
                    implies legal_target_squares@.contains(c) by {
                let dc = c.col() - from.col();
                let dr = c.number - from.number;
                let dir = direction_between(from, c);
                let dist = distance_between(from, c);
                assert(piece_at(*board, from) == *piece);
                assert(pseudo_legal(*board, from, c));
                assert(!castle_ok(*board, from, c));
                assert(kind_reaches(*piece, from, dir, dist, board.sq(c) is Full)
                    || en_passant_ok(*board, from, c));
                assert((dir == forward(piece.color) && (dist == 1 || dist == 2))
                    || (dist == 2 && is_forward_diagonal(piece.color, dir)));
                assert(c == coord(from.col() + dc, from.number + dr));
                let idx: int = if dc == 0 && dr == single_step {
                    assert(offsets@[0] == (0isize, single_step));
                    0int
                } else if dc == 0 {
                    assert(offsets@[1] == (0isize, (2 * single_step) as isize));
                    1int
                } else if dc == -1 {
                    assert(offsets@[2] == (-1isize, single_step));
                    2int
                } else {
                    assert(offsets@[3] == (1isize, single_step));
                    3int
                };
                assert(coord(from.col() + offsets@[idx].0, from.number + offsets@[idx].1) == c);
                assert(legal(*board, *coordinates, coord(from.col() + offsets@[idx].0, from.number + offsets@[idx].1)));
            }
        }
    }

    /// Tries the eight squares a knight's hook away.
    fn collect_knight_targets(
        &self,
        coordinates: &Coordinates,
        piece: &Piece,
        board: &Board,
        legal_target_squares: &mut Vec<Coordinates>,
    )
        requires
            coordinates.valid(),
            board.sq(*coordinates) == Square::Full(*piece),
            piece.kind == PieceKind::Knight,
        ensures
            collects(final(legal_target_squares)@, old(legal_target_squares)@, *board, *coordinates),
            forall|c: Coordinates|
                c.valid() && #[trigger] legal(*board, *coordinates, c) ==> final(legal_target_squares)@.contains(c),
    {
        let ghost from = *coordinates;
        let offsets = vec![
            (-2, -1),
            (-2, 1),
            (2, -1),
            (2, 1),
            (-1, -2),
            (1, -2),
            (-1, 2),
            (1, 2),
        ];
        self.try_offsets(coordinates, &offsets, board, legal_target_squares);
        proof {
            assert forall|c: Coordinates|
                c.valid() && #[trigger] legal(*board, from, c)
                    implies legal_target_squares@.contains(c) by {
                let dc = c.col() - from.col();
                let dr = c.number - from.number;
                assert(c == coord(from.col() + dc, from.number + dr));
                let idx: int = if dc == -2 && dr == -1 {
                    assert(offsets@[0] == (-2isize, -1isize));
                    0int
                } else if dc == -2 {
                    assert(offsets@[1] == (-2isize, 1isize));
                    1int
                } else if dc == 2 && dr == -1 {
                    assert(offsets@[2] == (2isize, -1isize));
                    2int
                } else if dc == 2 {
                    assert(offsets@[3] == (2isize, 1isize));
                    3int
                } else if dc == -1 && dr == -2 {
                    assert(offsets@[4] == (-1isize, -2isize));
                    4int
                } else if dc == 1 && dr == -2 {
                    assert(offsets@[5] == (1isize, -2isize));
                    5int
                } else if dc == -1 {
                    assert(offsets@[6] == (-1isize, 2isize));
                    6int
                } else {
                    assert(offsets@[7] == (1isize, 2isize));
                    7int
                };
                assert(coord(from.col() + offsets@[idx].0, from.number + offsets@[idx].1) == c);
                assert(legal(*board, *coordinates, coord(from.col() + offsets@[idx].0, from.number + offsets@[idx].1)));
            }
        }
    }

    /// Tries the eight neighbouring squares and the two castling squares.
    fn collect_king_targets(
        &self,
        coordinates: &Coordinates,
        piece: &Piece,
        board: &Board,
        legal_target_squares: &mut Vec<Coordinates>,
    )
        requires
            coordinates.valid(),
            board.sq(*coordinates) == Square::Full(*piece),
            piece.kind == PieceKind::King,
        ensures
            collects(final(legal_target_squares)@, old(legal_target_squares)@, *board, *coordinates),
            forall|c: Coordinates|
                c.valid() && #[trigger] legal(*board, *coordinates, c) ==> final(legal_target_squares)@.contains(c),
    {
        let ghost from = *coordinates;
        let offsets = vec![
            (-1, -1),
            (-1, 0),
            (-1, 1),
            (0, -1),
            (0, 1),
            (1, -1),
            (1, 0),
            (1, 1),
            (-2, 0),
            (2, 0),
        ];
        self.try_offsets(coordinates, &offsets, board, legal_target_squares);
        proof {
            assert forall|c: Coordinates|
                c.valid() && #[trigger] legal(*board, from, c)
                    implies legal_target_squares@.contains(c) by {
                let dc = c.col() - from.col();
                let dr = c.number - from.number;
                let dir = direction_between(from, c);
                let dist = distance_between(from, c);
                assert(piece_at(*board, from) == *piece);
                assert(pseudo_legal(*board, from, c));
                assert(!en_passant_ok(*board, from, c));
                assert(kind_reaches(*piece, from, dir, dist, board.sq(c) is Full)
                    || castle_ok(*board, from, c));
                assert(dist == 1 || (dist == 2 && dir is Diagonal) || (dist == 2 && (dir
                    == MoveDirection::Left || dir == MoveDirection::Right)));
                assert(-2 <= dc <= 2 && -1 <= dr <= 1);
                assert(c == coord(from.col() + dc, from.number + dr));
                let idx: int = if dc == -1 && dr == -1 {
                    assert(offsets@[0] == (-1isize, -1isize));
                    0int
                } else if dc == -1 && dr == 0 {
                    assert(offsets@[1] == (-1isize, 0isize));
                    1int
                } else if dc == -1 {
                    assert(offsets@[2] == (-1isize, 1isize));
                    2int
                } else if dc == 0 && dr == -1 {
                    assert(offsets@[3] == (0isize, -1isize));
                    3int
                } else if dc == 0 {
                    assert(offsets@[4] == (0isize, 1isize));
                    4int
                } else if dc == 1 && dr == -1 {
                    assert(offsets@[5] == (1isize, -1isize));
                    5int
                } else if dc == 1 && dr == 0 {
                    assert(offsets@[6] == (1isize, 0isize));
                    6int
                } else if dc == 1 {
                    assert(offsets@[7] == (1isize, 1isize));
                    7int
                } else if dc == -2 {
                    assert(offsets@[8] == (-2isize, 0isize));
                    8int
                } else {
                    assert(offsets@[9] == (2isize, 0isize));
                    9int
                };
                assert(coord(from.col() + offsets@[idx].0, from.number + offsets@[idx].1) == c);
                assert(legal(*board, *coordinates, coord(from.col() + offsets@[idx].0, from.number + offsets@[idx].1)));
            }
        }
    }

    /// The squares the piece on `coordinates` may legally move to; none for an empty
    /// square.  Candidates are generated by the piece's kind and each is judged by the
    /// legality engine.
    pub fn get_legal_targets(&self, coordinates: &Coordinates, board: &Board) -> (r: Vec<
        Coordinates,
    >)
        requires
            coordinates.valid() ==> board.sq(*coordinates) == *self,
        ensures
            *self == Square::Empty ==> r@.len() == 0,
            forall|i: int| 0 <= i < r@.len() ==> #[trigger] legal(*board, *coordinates, r@[i]),
            forall|c: Coordinates|
                c.valid() && #[trigger] legal(*board, *coordinates, c) ==> r@.contains(c),
            r@.no_duplicates(),
    {
        let mut legal_target_squares: Vec<Coordinates> = Vec::new();
        if coordinates.number < 1 || coordinates.number > 8 {
            return legal_target_squares;
        }
        let ghost start = legal_target_squares@;
        let ghost from = *coordinates;
        match self {
            Square::Empty => {},
            Square::Full(piece) => {
                match piece.kind {
                    PieceKind::Pawn => {
                        self.collect_pawn_targets(coordinates, piece, board, &mut legal_target_squares);
                    },
                    PieceKind::Rook => {
                        self.get_legal_cross_targets(coordinates, board, &mut legal_target_squares);
                    },
                    PieceKind::Knight => {
                        self.collect_knight_targets(coordinates, piece, board, &mut legal_target_squares);
                    },
                    PieceKind::Bishop => {
                        self.get_legal_diagonal_targets(coordinates, board, &mut legal_target_squares);
                    },
                    PieceKind::Queen => {
                        self.get_legal_cross_targets(coordinates, board, &mut legal_target_squares);
                        let ghost middle = legal_target_squares@;
                        self.get_legal_diagonal_targets(coordinates, board, &mut legal_target_squares);
                        proof {
                            assert forall|c: Coordinates|
                                c.valid() && #[trigger] legal(*board, from, c)
                                    implies legal_target_squares@.contains(c) by {
                                if !(direction_between(from, c) is Diagonal) {
                                    assert(middle.contains(c));
                                }
                            }
                            assert forall|c: Coordinates| #[trigger] legal_target_squares@.contains(c)
                                implies start.contains(c) || legal(*board, from, c) by {
                                if !legal(*board, from, c) {
                                    assert(middle.contains(c));
                                }
                            }
                        }
                    },
                    PieceKind::King => {
                        self.collect_king_targets(coordinates, piece, board, &mut legal_target_squares);
                    },
                }
            },
        }
        proof {
            assert forall|i: int| 0 <= i < legal_target_squares@.len() implies #[trigger] legal(
                *board,
                *coordinates,
                legal_target_squares@[i],
            ) by {
                assert(legal_target_squares@.contains(legal_target_squares@[i]));
            }
        }
        legal_target_squares
    }
}

} // verus!
