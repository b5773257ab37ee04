use vstd::prelude::*;

use crate::error::{Error, ParseErrorKind};
use crate::text::{chars_of, push_char};

verus! {

/// The letter of file `f` (0 is `a`).
pub open spec fn file_char(f: int) -> char {
    (f + 'a' as int) as char
}

/// The digit of rank `r` (0 is `1`).
pub open spec fn rank_char(r: int) -> char {
    (r + '1' as int) as char
}

/// Algebraic notation of the square with index `i`: file letter, then rank digit.
pub open spec fn square_text(i: int) -> Seq<char> {
    seq![file_char(i % 8), rank_char(i / 8)]
}

/// The index of the square that `t` names in algebraic notation, if it names one.
pub open spec fn square_of_text(t: Seq<char>) -> Option<int> {
    if t.len() == 2 && 'a' <= t[0] <= 'h' && '1' <= t[1] <= '8' {
        Some((t[1] as int - '1' as int) * 8 + (t[0] as int - 'a' as int))
    } else {
        None
    }
}

/// One of the 64 cells of the board, numbered `rank * 8 + file`; rank 0 is
/// rank `1` and file 0 is file `a`.
#[derive(Debug, Clone, Copy, PartialEq, Eq, Structural)]
pub struct Square(u8);

impl View for Square {
    type V = int;

    closed spec fn view(&self) -> int {
        self.0 as int
    }
}

impl Square {
    #[verifier::type_invariant]
    spec fn inv(self) -> bool {
        self.0 < 64
    }

    /// Two squares with the same index are the same square.
    pub proof fn lemma_view_injective(a: Square, b: Square)
        ensures
            a@ == b@ ==> a == b,
    {
    }

    /// The square at `rank` and `file`, both in `0..8`.
    pub fn new(rank: u8, file: u8) -> (r: Result<Square, Error>)
        ensures
            rank < 8 && file < 8 ==> r is Ok && r->Ok_0@ == rank * 8 + file,
            !(rank < 8 && file < 8) ==> r == Err::<Square, Error>(Error::InvalidCoordinate),
    {
        if rank < 8 && file < 8 {
            Ok(Square(rank * 8 + file))
        } else {
            Err(Error::InvalidCoordinate)
        }
    }

    /// The square with index `i`, in `0..64`.
    pub fn from_u8(i: u8) -> (r: Result<Square, Error>)
        ensures
            i < 64 ==> r is Ok && r->Ok_0@ == i,
            i >= 64 ==> r == Err::<Square, Error>(Error::InvalidIndex),
    {
        if i < 64 {
            Ok(Square(i))
        } else {
            Err(Error::InvalidIndex)
        }
    }

    /// The rank, 0 for rank `1` up to 7 for rank `8`.
    pub fn rank(&self) -> (r: u8)
        ensures
            r == self@ / 8,
            r < 8,
    {
        proof {
            use_type_invariant(self);
        }
        self.0 / 8
    }

    /// The file, 0 for file `a` up to 7 for file `h`.
    pub fn file(&self) -> (r: u8)
        ensures
            r == self@ % 8,
    {
        self.0 % 8
    }

    /// The index, `rank * 8 + file`.
    pub fn to_u8(&self) -> (r: u8)
        ensures
            r == self@,
            r < 64,
    {
        proof {
            use_type_invariant(self);
        }
        self.0
    }

    /// Appends the algebraic notation of this square to `out`.
    pub(crate) fn write_text(&self, out: &mut String)
        ensures
            final(out)@ == old(out)@ + square_text(self@),
    {
        proof {
            use_type_invariant(self);
        }
        push_char(out, ((self.0 % 8) + 97u8) as char);
        push_char(out, ((self.0 / 8) + 49u8) as char);
        assert(final(out)@ =~= old(out)@ + square_text(self@));
    }

    /// Algebraic notation, such as `a1` or `h8`.
    pub fn to_text(&self) -> (r: String)
        ensures
            r@ == square_text(self@),
    {
        let mut r = String::new();
        self.write_text(&mut r);
        assert(r@ =~= square_text(self@));
        r
    }

    /// The square named in algebraic notation by `t`.
    pub(crate) fn from_chars(t: &[char]) -> (r: Result<Square, Error>)
        ensures
            square_of_text(t@) matches Some(i) ==> r is Ok && r->Ok_0@ == i,
            square_of_text(t@) is None ==> r == Err::<Square, Error>(
                Error::ParseError(ParseErrorKind::InvalidSquareText),
            ),
    {
        if t.len() != 2 {
            return Err(Error::ParseError(ParseErrorKind::InvalidSquareText));
        }
        let f = t[0];
        let k = t[1];
        if 'a' <= f && f <= 'h' && '1' <= k && k <= '8' {
            let file = (f as u32 - 'a' as u32) as u8;
            let rank = (k as u32 - '1' as u32) as u8;
            Ok(Square(rank * 8 + file))
        } else {
            Err(Error::ParseError(ParseErrorKind::InvalidSquareText))
        }
    }

    /// The square named in algebraic notation by `s`: exactly two
    /// characters, a file letter `a`-`h` and a rank digit `1`-`8`.
    pub fn from_text(s: &str) -> (r: Result<Square, Error>)
        ensures
            square_of_text(s@) matches Some(i) ==> r is Ok && r->Ok_0@ == i,
            square_of_text(s@) is None ==> r == Err::<Square, Error>(
                Error::ParseError(ParseErrorKind::InvalidSquareText),
            ),
    {
        let t = chars_of(s);
        Square::from_chars(t.as_slice())
    }
}

/// Writing a square in algebraic notation and reading it back gives the same square.
pub proof fn lemma_square_text_round_trip(i: int)
    requires
        0 <= i < 64,
    ensures
        square_of_text(square_text(i)) == Some(i),
{
}

} // verus!
