use vstd::prelude::*;

verus! {

/// The two sides of a game.
#[derive(Clone, Copy, PartialEq, Eq, Structural, Hash, Debug)]
pub enum PieceColor {
    White,
    Black,
}

impl PieceColor {
    pub open spec fn inverse(self) -> PieceColor {
        match self {
            PieceColor::White => PieceColor::Black,
            PieceColor::Black => PieceColor::White,
        }
    }

    pub fn get_inverse_color(&self) -> (r: PieceColor)
        ensures
            r == self.inverse(),
    {
        match self {
            PieceColor::Black => PieceColor::White,
            PieceColor::White => PieceColor::Black,
        }
    }
}

/// The six kinds of chess piece.
#[derive(Clone, Copy, PartialEq, Eq, Structural, Hash, Debug)]
pub enum PieceKind {
    Pawn,
    Rook,
    Knight,
    Bishop,
    Queen,
    King,
}

impl PieceKind {
    /// Material value used for the captured-piece score.
    pub open spec fn value(self) -> u32 {
        match self {
            PieceKind::Pawn => 1,
            PieceKind::Knight | PieceKind::Bishop => 3,
            PieceKind::Rook => 4,
            PieceKind::Queen => 8,
            PieceKind::King => 0,
        }
    }

    /// Lower-case letter of the kind in the position text format.
    pub open spec fn letter(self) -> char {
        match self {
            PieceKind::Pawn => 'p',
            PieceKind::Rook => 'r',
            PieceKind::Knight => 'n',
            PieceKind::Bishop => 'b',
            PieceKind::Queen => 'q',
            PieceKind::King => 'k',
        }
    }

    pub fn get_value(&self) -> (r: u32)
        ensures
            r == self.value(),
    {
        match self {
            PieceKind::Pawn => 1,
            PieceKind::Knight | PieceKind::Bishop => 3,
            PieceKind::Rook => 4,
            PieceKind::Queen => 8,
            PieceKind::King => 0,
        }
    }

    pub fn get_fen_string(&self) -> (r: String)
        ensures
            r@ == seq![self.letter()],
    {
        let s = match self {
            PieceKind::Rook => "r",
            PieceKind::Knight => "n",
            PieceKind::Bishop => "b",
            PieceKind::King => "k",
            PieceKind::Queen => "q",
            PieceKind::Pawn => "p",
        };
        proof {
            reveal_strlit("r");
            reveal_strlit("n");
            reveal_strlit("b");
            reveal_strlit("k");
            reveal_strlit("q");
            reveal_strlit("p");
        }
        let r = String::from_str(s);
        assert(r@ =~= seq![self.letter()]);
        r
    }
}

/// A piece: its side and its kind.
#[derive(Clone, Copy, Hash, PartialEq, Eq, Structural, Debug)]
pub struct Piece {
    pub color: PieceColor,
    pub kind: PieceKind,
}

/// Upper-case form of a lower-case ASCII letter.
pub open spec fn upper(c: char) -> char {
    if 'a' <= c && c <= 'z' {
        ((c as u32) - 32) as char
    } else {
        c
    }
}

impl Piece {
    /// Letter of the piece in the position text format: upper case for White.
    pub open spec fn letter(self) -> char {
        match self.color {
            PieceColor::White => upper(self.kind.letter()),
            PieceColor::Black => self.kind.letter(),
        }
    }

    pub fn get_fen_string(&self) -> (r: String)
        ensures
            r@ == seq![self.letter()],
    {
        let s = match (self.color, self.kind) {
            (PieceColor::White, PieceKind::Rook) => "R",
            (PieceColor::White, PieceKind::Knight) => "N",
            (PieceColor::White, PieceKind::Bishop) => "B",
            (PieceColor::White, PieceKind::King) => "K",
            (PieceColor::White, PieceKind::Queen) => "Q",
            (PieceColor::White, PieceKind::Pawn) => "P",
            (PieceColor::Black, PieceKind::Rook) => "r",
            (PieceColor::Black, PieceKind::Knight) => "n",
            (PieceColor::Black, PieceKind::Bishop) => "b",
            (PieceColor::Black, PieceKind::King) => "k",
            (PieceColor::Black, PieceKind::Queen) => "q",
            (PieceColor::Black, PieceKind::Pawn) => "p",
        };
        proof {
            reveal_strlit("R");
            reveal_strlit("N");
            reveal_strlit("B");
            reveal_strlit("K");
            reveal_strlit("Q");
            reveal_strlit("P");
            reveal_strlit("r");
            reveal_strlit("n");
            reveal_strlit("b");
            reveal_strlit("k");
            reveal_strlit("q");
            reveal_strlit("p");
        }
        let r = String::from_str(s);
        assert(r@ =~= seq![self.letter()]);
        r
    }
}

} // verus!
