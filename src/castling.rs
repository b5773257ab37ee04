use vstd::prelude::*;

use crate::error::{Error, ParseErrorKind};
use crate::text::{chars_of, no_space, push_char};

verus! {

/// Which castling moves each side may still make.
#[derive(Debug, Clone, Copy, PartialEq, Eq, Structural)]
pub struct CastlingAvailability {
    pub white_king_side: bool,
    pub white_queen_side: bool,
    pub black_king_side: bool,
    pub black_queen_side: bool,
}

/// `c` alone when `present`, else nothing.
pub open spec fn flag_text(present: bool, c: char) -> Seq<char> {
    if present {
        seq![c]
    } else {
        seq![]
    }
}

/// The letters `KQkq` of the rights in `a`, in that order.
pub open spec fn rights_letters(a: CastlingAvailability) -> Seq<char> {
    flag_text(a.white_king_side, 'K') + flag_text(a.white_queen_side, 'Q') + flag_text(
        a.black_king_side,
        'k',
    ) + flag_text(a.black_queen_side, 'q')
}

/// The FEN field for `a`: its letters, or `-` when it has none.
pub open spec fn castling_text(a: CastlingAvailability) -> Seq<char> {
    if rights_letters(a).len() == 0 {
        seq!['-']
    } else {
        rights_letters(a)
    }
}

/// Whether `t` begins with `c`, and what is left of `t` once that letter is
/// taken off.
pub open spec fn strip(t: Seq<char>, c: char) -> (bool, Seq<char>) {
    if t.len() > 0 && t[0] == c {
        (true, t.drop_first())
    } else {
        (false, t)
    }
}

/// The rights that the FEN field `t` gives: `-` for none, or one or more of
/// the letters `K`, `Q`, `k`, `q`, each at most once and in that order.
pub open spec fn castling_of_text(t: Seq<char>) -> Option<CastlingAvailability> {
    if t == seq!['-'] {
        Some(
            CastlingAvailability {
                white_king_side: false,
                white_queen_side: false,
                black_king_side: false,
                black_queen_side: false,
            },
        )
    } else {
        let (wk, t1) = strip(t, 'K');
        let (wq, t2) = strip(t1, 'Q');
        let (bk, t3) = strip(t2, 'k');
        let (bq, t4) = strip(t3, 'q');
        if t.len() > 0 && t4.len() == 0 {
            Some(
                CastlingAvailability {
                    white_king_side: wk,
                    white_queen_side: wq,
                    black_king_side: bk,
                    black_queen_side: bq,
                },
            )
        } else {
            None
        }
    }
}

/// Castling rights read back from their FEN field, which is not empty and
/// holds no white space.
pub proof fn lemma_castling_round_trip(a: CastlingAvailability)
    ensures
        castling_of_text(castling_text(a)) == Some(a),
        castling_text(a).len() > 0,
        no_space(castling_text(a)),
{
    let t = castling_text(a);
    let k = flag_text(a.white_king_side, 'K');
    let q = flag_text(a.white_queen_side, 'Q');
    let bk = flag_text(a.black_king_side, 'k');
    let bq = flag_text(a.black_queen_side, 'q');
    if rights_letters(a).len() > 0 {
        assert(t == k + q + bk + bq);
        assert(strip(t, 'K').1 =~= q + bk + bq);
        assert(strip(q + bk + bq, 'Q').1 =~= bk + bq);
        assert(strip(bk + bq, 'k').1 =~= bq);
        assert(strip(bq, 'q').1 =~= Seq::<char>::empty());
        assert(t != seq!['-']) by {
            if t == seq!['-'] {
                assert(t[0] == '-');
            }
        }
    }
}

impl CastlingAvailability {
    /// The rights that the FEN field `t` gives.
    pub(crate) fn from_chars(t: &[char]) -> (r: Result<CastlingAvailability, Error>)
        ensures
            castling_of_text(t@) matches Some(a) ==> r == Ok::<CastlingAvailability, Error>(a),
            castling_of_text(t@) is None ==> r == Err::<CastlingAvailability, Error>(
                Error::ParseError(ParseErrorKind::InvalidCastlingChar),
            ),
    {
        if t.len() == 1 && t[0] == '-' {
            assert(t@ =~= seq!['-']);
            return Ok(
                CastlingAvailability {
                    white_king_side: false,
                    white_queen_side: false,
                    black_king_side: false,
                    black_queen_side: false,
                },
            );
        }
        let n = t.len();
        let mut i: usize = 0;
        let white_king_side = i < n && t[i] == 'K';
        if white_king_side {
            i = i + 1;
        }
        assert(strip(t@, 'K').1 =~= t@.skip(i as int));
        let white_queen_side = i < n && t[i] == 'Q';
        if white_queen_side {
            i = i + 1;
        }
        assert(strip(strip(t@, 'K').1, 'Q').1 =~= t@.skip(i as int));
        let black_king_side = i < n && t[i] == 'k';
        if black_king_side {
            i = i + 1;
        }
        assert(strip(strip(strip(t@, 'K').1, 'Q').1, 'k').1 =~= t@.skip(i as int));
        let black_queen_side = i < n && t[i] == 'q';
        if black_queen_side {
            i = i + 1;
        }
        assert(strip(strip(strip(strip(t@, 'K').1, 'Q').1, 'k').1, 'q').1 =~= t@.skip(i as int));
        if n > 0 && i == n {
            Ok(
                CastlingAvailability {
                    white_king_side,
                    white_queen_side,
                    black_king_side,
                    black_queen_side,
                },
            )
        } else {
            proof {
                if t@ == seq!['-'] {
                    assert(t@[0] == '-');
                }
            }
            Err(Error::ParseError(ParseErrorKind::InvalidCastlingChar))
        }
    }

    /// The rights that the FEN field `s` gives: `-` for none, or an ordered
    /// selection of `KQkq` with each letter at most once.
    pub fn from_text(s: &str) -> (r: Result<CastlingAvailability, Error>)
        ensures
            castling_of_text(s@) matches Some(a) ==> r == Ok::<CastlingAvailability, Error>(a),
            castling_of_text(s@) is None ==> r == Err::<CastlingAvailability, Error>(
                Error::ParseError(ParseErrorKind::InvalidCastlingChar),
            ),
    {
        let t = chars_of(s);
        CastlingAvailability::from_chars(t.as_slice())
    }

    /// Appends the FEN field for these rights to `out`.
    pub(crate) fn write_text(&self, out: &mut String)
        ensures
            final(out)@ == old(out)@ + castling_text(*self),
    {
        let ghost start = out@;
        if self.white_king_side {
            push_char(out, 'K');
        }
        if self.white_queen_side {
            push_char(out, 'Q');
        }
        if self.black_king_side {
            push_char(out, 'k');
        }
        if self.black_queen_side {
            push_char(out, 'q');
        }
        assert(out@ =~= start + rights_letters(*self));
        if !(self.white_king_side || self.white_queen_side || self.black_king_side
            || self.black_queen_side) {
            push_char(out, '-');
        }
        assert(out@ =~= start + castling_text(*self));
    }

    /// The FEN field for these rights, such as `KQkq`, `Kq` or `-`.
    pub fn to_text(&self) -> (r: String)
        ensures
            r@ == castling_text(*self),
    {
        let mut r = String::new();
        self.write_text(&mut r);
        assert(r@ =~= castling_text(*self));
        r
    }
}

} // verus!
