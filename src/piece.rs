use vstd::prelude::*;

verus! {

/// A kind of piece of one side. The order of the variants is the order of
/// the boards in the piece-placement data.
#[derive(Debug, Clone, Copy, PartialEq, Eq, Structural)]
pub enum Piece {
    WhiteKing,
    WhiteQueen,
    WhiteRook,
    WhiteBishop,
    WhiteKnight,
    WhitePawn,
    BlackKing,
    BlackQueen,
    BlackRook,
    BlackBishop,
    BlackKnight,
    BlackPawn,
}

impl Piece {
    /// The position of this piece's board in the piece-placement data.
    pub open spec fn spec_index(self) -> int {
        match self {
            Piece::WhiteKing => 0,
            Piece::WhiteQueen => 1,
            Piece::WhiteRook => 2,
            Piece::WhiteBishop => 3,
            Piece::WhiteKnight => 4,
            Piece::WhitePawn => 5,
            Piece::BlackKing => 6,
            Piece::BlackQueen => 7,
            Piece::BlackRook => 8,
            Piece::BlackBishop => 9,
            Piece::BlackKnight => 10,
            Piece::BlackPawn => 11,
        }
    }

    /// The FEN letter: upper case for White, lower case for Black.
    pub open spec fn spec_letter(self) -> char {
        match self {
            Piece::WhiteKing => 'K',
            Piece::WhiteQueen => 'Q',
            Piece::WhiteRook => 'R',
            Piece::WhiteBishop => 'B',
            Piece::WhiteKnight => 'N',
            Piece::WhitePawn => 'P',
            Piece::BlackKing => 'k',
            Piece::BlackQueen => 'q',
            Piece::BlackRook => 'r',
            Piece::BlackBishop => 'b',
            Piece::BlackKnight => 'n',
            Piece::BlackPawn => 'p',
        }
    }

    /// The piece whose board stands at position `i`, for `i` in `0..12`.
    pub open spec fn of_index(i: int) -> Piece {
        if i == 0 {
            Piece::WhiteKing
        } else if i == 1 {
            Piece::WhiteQueen
        } else if i == 2 {
            Piece::WhiteRook
        } else if i == 3 {
            Piece::WhiteBishop
        } else if i == 4 {
            Piece::WhiteKnight
        } else if i == 5 {
            Piece::WhitePawn
        } else if i == 6 {
            Piece::BlackKing
        } else if i == 7 {
            Piece::BlackQueen
        } else if i == 8 {
            Piece::BlackRook
        } else if i == 9 {
            Piece::BlackBishop
        } else if i == 10 {
            Piece::BlackKnight
        } else {
            Piece::BlackPawn
        }
    }

    /// The piece that the FEN letter `c` stands for, if any.
    pub open spec fn of_letter(c: char) -> Option<Piece> {
        if c == 'K' {
            Some(Piece::WhiteKing)
        } else if c == 'Q' {
            Some(Piece::WhiteQueen)
        } else if c == 'R' {
            Some(Piece::WhiteRook)
        } else if c == 'B' {
            Some(Piece::WhiteBishop)
        } else if c == 'N' {
            Some(Piece::WhiteKnight)
        } else if c == 'P' {
            Some(Piece::WhitePawn)
        } else if c == 'k' {
            Some(Piece::BlackKing)
        } else if c == 'q' {
            Some(Piece::BlackQueen)
        } else if c == 'r' {
            Some(Piece::BlackRook)
        } else if c == 'b' {
            Some(Piece::BlackBishop)
        } else if c == 'n' {
            Some(Piece::BlackKnight)
        } else if c == 'p' {
            Some(Piece::BlackPawn)
        } else {
            None
        }
    }

    /// The tables between pieces, board positions and letters agree both ways.
    pub proof fn lemma_tables(self)
        ensures
            0 <= self.spec_index() < 12,
            Piece::of_index(self.spec_index()) == self,
            Piece::of_letter(self.spec_letter()) == Some(self),
            forall|i: int| 0 <= i < 12 ==> (#[trigger] Piece::of_index(i)).spec_index() == i,
            forall|c: char| #[trigger] Piece::of_letter(c) matches Some(p) ==> p.spec_letter() == c,
    {
    }

    /// The position of this piece's board in the piece-placement data.
    pub fn index(self) -> (r: usize)
        ensures
            r == self.spec_index(),
    {
        match self {
            Piece::WhiteKing => 0,
            Piece::WhiteQueen => 1,
            Piece::WhiteRook => 2,
            Piece::WhiteBishop => 3,
            Piece::WhiteKnight => 4,
            Piece::WhitePawn => 5,
            Piece::BlackKing => 6,
            Piece::BlackQueen => 7,
            Piece::BlackRook => 8,
            Piece::BlackBishop => 9,
            Piece::BlackKnight => 10,
            Piece::BlackPawn => 11,
        }
    }

    /// The piece whose board stands at position `i`, if `i` is below 12.
    pub fn from_index(i: usize) -> (r: Option<Piece>)
        ensures
            i < 12 ==> r == Some(Piece::of_index(i as int)),
            i >= 12 ==> r is None,
    {
        match i {
            0 => Some(Piece::WhiteKing),
            1 => Some(Piece::WhiteQueen),
            2 => Some(Piece::WhiteRook),
            3 => Some(Piece::WhiteBishop),
            4 => Some(Piece::WhiteKnight),
            5 => Some(Piece::WhitePawn),
            6 => Some(Piece::BlackKing),
            7 => Some(Piece::BlackQueen),
            8 => Some(Piece::BlackRook),
            9 => Some(Piece::BlackBishop),
            10 => Some(Piece::BlackKnight),
            11 => Some(Piece::BlackPawn),
            _ => None,
        }
    }

    /// The FEN letter: upper case for White, lower case for Black.
    pub fn letter(self) -> (r: char)
        ensures
            r == self.spec_letter(),
    {
        match self {
            Piece::WhiteKing => 'K',
            Piece::WhiteQueen => 'Q',
            Piece::WhiteRook => 'R',
            Piece::WhiteBishop => 'B',
            Piece::WhiteKnight => 'N',
            Piece::WhitePawn => 'P',
            Piece::BlackKing => 'k',
            Piece::BlackQueen => 'q',
            Piece::BlackRook => 'r',
            Piece::BlackBishop => 'b',
            Piece::BlackKnight => 'n',
            Piece::BlackPawn => 'p',
        }
    }

    /// The piece that the FEN letter `c` stands for, if any.
    pub fn from_letter(c: char) -> (r: Option<Piece>)
        ensures
            r == Piece::of_letter(c),
    {
        match c {
            'K' => Some(Piece::WhiteKing),
            'Q' => Some(Piece::WhiteQueen),
            'R' => Some(Piece::WhiteRook),
            'B' => Some(Piece::WhiteBishop),
            'N' => Some(Piece::WhiteKnight),
            'P' => Some(Piece::WhitePawn),
            'k' => Some(Piece::BlackKing),
            'q' => Some(Piece::BlackQueen),
            'r' => Some(Piece::BlackRook),
            'b' => Some(Piece::BlackBishop),
            'n' => Some(Piece::BlackKnight),
            'p' => Some(Piece::BlackPawn),
            _ => None,
        }
    }
}

} // verus!
