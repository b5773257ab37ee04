use vstd::prelude::*;

verus! {

/// The kinds of text that the codecs reject.
#[derive(Debug, Clone, Copy, PartialEq, Eq, Structural)]
pub enum ParseErrorKind {
    /// Fewer than six whitespace-separated fields in a FEN line.
    MissingField,
    /// A piece-placement field that is not eight ranks of eight squares.
    MalformedPlacement,
    /// A castling field other than `-` or an ordered subset of `KQkq`.
    InvalidCastlingChar,
    /// An active-color field other than `w` or `b`.
    InvalidColorChar,
    /// A square that is not a file letter `a`-`h` followed by a rank digit `1`-`8`.
    InvalidSquareText,
    /// A move counter that is not a decimal number in range.
    InvalidNumber,
}

/// Failures reported by this library.
#[derive(Debug, Clone, Copy, PartialEq, Eq, Structural)]
pub enum Error {
    /// A square index outside `0..64`.
    InvalidIndex,
    /// A rank or file outside `0..8`.
    InvalidCoordinate,
    /// Malformed text.
    ParseError(ParseErrorKind),
}

} // verus!
