use vstd::prelude::*;

use crate::error::{Error, ParseErrorKind};
use crate::text::{chars_of, is_space, push_char};

verus! {

/// The side to move.
#[derive(Debug, Clone, Copy, PartialEq, Eq, Structural)]
pub enum ActiveColor {
    White,
    Black,
}

/// The FEN field for `c`: `w` or `b`.
pub open spec fn color_text(c: ActiveColor) -> Seq<char> {
    match c {
        ActiveColor::White => seq!['w'],
        ActiveColor::Black => seq!['b'],
    }
}

/// The side to move that the FEN field `t` names, if it names one.
pub open spec fn color_of_text(t: Seq<char>) -> Option<ActiveColor> {
    if t == seq!['w'] {
        Some(ActiveColor::White)
    } else if t == seq!['b'] {
        Some(ActiveColor::Black)
    } else {
        None
    }
}

/// The side to move reads back from its FEN field, which is one character,
/// not white space.
pub proof fn lemma_color_round_trip(c: ActiveColor)
    ensures
        color_of_text(color_text(c)) == Some(c),
        color_text(c).len() == 1,
        !is_space(color_text(c)[0]),
{
    assert(seq!['w'][0] == 'w');
    assert(seq!['b'][0] == 'b');
}

impl ActiveColor {
    /// The side to move named by the FEN field `t`.
    pub(crate) fn from_chars(t: &[char]) -> (r: Result<ActiveColor, Error>)
        ensures
            color_of_text(t@) matches Some(c) ==> r == Ok::<ActiveColor, Error>(c),
            color_of_text(t@) is None ==> r == Err::<ActiveColor, Error>(
                Error::ParseError(ParseErrorKind::InvalidColorChar),
            ),
    {
        if t.len() == 1 && t[0] == 'w' {
            assert(t@ =~= seq!['w']);
            Ok(ActiveColor::White)
        } else if t.len() == 1 && t[0] == 'b' {
            assert(t@ =~= seq!['b']);
            Ok(ActiveColor::Black)
        } else {
            Err(Error::ParseError(ParseErrorKind::InvalidColorChar))
        }
    }

    /// The side to move named by the FEN field `s`: `w` for White, `b` for Black.
    pub fn from_text(s: &str) -> (r: Result<ActiveColor, Error>)
        ensures
            color_of_text(s@) matches Some(c) ==> r == Ok::<ActiveColor, Error>(c),
            color_of_text(s@) is None ==> r == Err::<ActiveColor, Error>(
                Error::ParseError(ParseErrorKind::InvalidColorChar),
            ),
    {
        let t = chars_of(s);
        ActiveColor::from_chars(t.as_slice())
    }

    /// Appends the FEN field for this side to `out`.
    pub(crate) fn write_text(&self, out: &mut String)
        ensures
            final(out)@ == old(out)@ + color_text(*self),
    {
        match self {
            ActiveColor::White => push_char(out, 'w'),
            ActiveColor::Black => push_char(out, 'b'),
        }
        assert(final(out)@ =~= old(out)@ + color_text(*self));
    }

    /// The FEN field for this side: `w` or `b`.
    pub fn to_text(&self) -> (r: String)
        ensures
            r@ == color_text(*self),
    {
        let mut r = String::new();
        self.write_text(&mut r);
        assert(r@ =~= color_text(*self));
        r
    }
}

} // verus!
