use vstd::prelude::*;
use vstd::slice::slice_subrange;

use crate::bitboard::Bitboard;
use crate::castling::{
    castling_of_text, castling_text, lemma_castling_round_trip, CastlingAvailability,
};
use crate::color::{color_of_text, color_text, lemma_color_round_trip, ActiveColor};
use crate::error::{Error, ParseErrorKind};
use crate::placement::{
    disjoint_boards, lemma_placement_round_trip, placement_cells, placement_text,
    PiecePlacementData,
};
use crate::square::{lemma_square_text_round_trip, square_of_text, square_text, Square};
use crate::text::{
    chars_of, decimal_text, field_spans, fields, is_space, lemma_decimal_round_trip,
    lemma_fields_cons, lemma_fields_single, no_space, number_of_text, parse_number, push_char,
    push_decimal,
};

verus! {

/// The en-passant field for `ep`: `-` when there is no target square.
pub open spec fn en_passant_text(ep: Option<Square>) -> Seq<char> {
    match ep {
        None => seq!['-'],
        Some(s) => square_text(s@),
    }
}

/// What the en-passant field `t` gives: `Some(None)` for `-`, `Some(Some(i))`
/// for the square with index `i`, `None` when `t` is neither.
pub open spec fn en_passant_of_text(t: Seq<char>) -> Option<Option<int>> {
    if t == seq!['-'] {
        Some(None)
    } else {
        match square_of_text(t) {
            Some(i) => Some(Some(i)),
            None => None,
        }
    }
}

/// The failure that reading the FEN line `t` reports, or `None` when `t` is
/// well formed: the first of its six fields, in order, that does not read.
pub open spec fn fen_error(t: Seq<char>) -> Option<Error> {
    let fs = fields(t);
    if fs.len() < 6 {
        Some(Error::ParseError(ParseErrorKind::MissingField))
    } else if placement_cells(fs[0]) is None {
        Some(Error::ParseError(ParseErrorKind::MalformedPlacement))
    } else if color_of_text(fs[1]) is None {
        Some(Error::ParseError(ParseErrorKind::InvalidColorChar))
    } else if castling_of_text(fs[2]) is None {
        Some(Error::ParseError(ParseErrorKind::InvalidCastlingChar))
    } else if en_passant_of_text(fs[3]) is None {
        Some(Error::ParseError(ParseErrorKind::InvalidSquareText))
    } else if number_of_text(fs[4], 255) is None {
        Some(Error::ParseError(ParseErrorKind::InvalidNumber))
    } else if number_of_text(fs[5], 65535) is None {
        Some(Error::ParseError(ParseErrorKind::InvalidNumber))
    } else {
        None
    }
}

/// A chess position: where the pieces stand, the side to move, the castling
/// rights, the en-passant target square and the two move counters.
#[derive(Debug, Clone, Copy, PartialEq, Eq)]
pub struct Position {
    pub piece_placement_data: PiecePlacementData,
    pub active_color: ActiveColor,
    pub castling_availability: CastlingAvailability,
    pub en_passant_target_square: Option<Square>,
    pub halfmove_clock: u8,
    pub fullmove_number: u16,
}

impl Position {
    /// Whether no square holds two pieces and the en-passant target, if
    /// any, is a square of the board.
    pub open spec fn wf(self) -> bool {
        &&& disjoint_boards(self.piece_placement_data.0@)
        &&& self.en_passant_target_square matches Some(s) ==> 0 <= s@ < 64
    }

    /// Whether this is the position that the first six FEN fields `fs` describe.
    pub open spec fn described_by(self, fs: Seq<Seq<char>>) -> bool {
        &&& placement_cells(fs[0]) matches Some(cells) && self.piece_placement_data.shows(cells)
        &&& color_of_text(fs[1]) == Some(self.active_color)
        &&& castling_of_text(fs[2]) == Some(self.castling_availability)
        &&& match (en_passant_of_text(fs[3]), self.en_passant_target_square) {
            (Some(None), None) => true,
            (Some(Some(i)), Some(s)) => s@ == i,
            _ => false,
        }
        &&& number_of_text(fs[4], 255) == Some(self.halfmove_clock as int)
        &&& number_of_text(fs[5], 65535) == Some(self.fullmove_number as int)
    }

    /// The FEN line for this position: its six fields joined by single spaces.
    pub open spec fn fen_text(self) -> Seq<char> {
        placement_text(self.piece_placement_data.0@) + seq![' '] + color_text(self.active_color)
            + seq![' '] + castling_text(self.castling_availability) + seq![' '] + en_passant_text(
            self.en_passant_target_square,
        ) + seq![' '] + decimal_text(self.halfmove_clock as nat) + seq![' '] + decimal_text(
            self.fullmove_number as nat,
        )
    }

    /// The starting position of a game:
    /// `rnbqkbnr/pppppppp/8/8/8/8/PPPPPPPP/RNBQKBNR w KQkq - 0 1`.
    pub fn new() -> (r: Position)
        ensures
            r.piece_placement_data.0@ == seq![
                Bitboard(0x10),
                Bitboard(0x08),
                Bitboard(0x81),
                Bitboard(0x24),
                Bitboard(0x42),
                Bitboard(0xff00),
                Bitboard(0x1000_0000_0000_0000),
                Bitboard(0x0800_0000_0000_0000),
                Bitboard(0x8100_0000_0000_0000),
                Bitboard(0x2400_0000_0000_0000),
                Bitboard(0x4200_0000_0000_0000),
                Bitboard(0x00ff_0000_0000_0000),
            ],
            r.active_color == ActiveColor::White,
            r.castling_availability == (CastlingAvailability {
                white_king_side: true,
                white_queen_side: true,
                black_king_side: true,
                black_queen_side: true,
            }),
            r.en_passant_target_square is None,
            r.halfmove_clock == 0,
            r.fullmove_number == 1,
    {
        let boards = [
            Bitboard(0x10),
            Bitboard(0x08),
            Bitboard(0x81),
            Bitboard(0x24),
            Bitboard(0x42),
            Bitboard(0xff00),
            Bitboard(0x1000_0000_0000_0000),
            Bitboard(0x0800_0000_0000_0000),
            Bitboard(0x8100_0000_0000_0000),
            Bitboard(0x2400_0000_0000_0000),
            Bitboard(0x4200_0000_0000_0000),
            Bitboard(0x00ff_0000_0000_0000),
        ];
        let r = Position {
            piece_placement_data: PiecePlacementData(boards),
            active_color: ActiveColor::White,
            castling_availability: CastlingAvailability {
                white_king_side: true,
                white_queen_side: true,
                black_king_side: true,
                black_queen_side: true,
            },
            en_passant_target_square: None,
            halfmove_clock: 0,
            fullmove_number: 1,
        };
        assert(r.piece_placement_data.0@ =~= seq![
            Bitboard(0x10),
            Bitboard(0x08),
            Bitboard(0x81),
            Bitboard(0x24),
            Bitboard(0x42),
            Bitboard(0xff00),
            Bitboard(0x1000_0000_0000_0000),
            Bitboard(0x0800_0000_0000_0000),
            Bitboard(0x8100_0000_0000_0000),
            Bitboard(0x2400_0000_0000_0000),
            Bitboard(0x4200_0000_0000_0000),
            Bitboard(0x00ff_0000_0000_0000),
        ]);
        r
    }

    /// Reads a FEN line: six fields separated by white space, namely the
    /// piece placement, the side to move (`w` or `b`), the castling rights
    /// (`-` or an ordered selection of `KQkq`), the en-passant target square
    /// (`-` or a square such as `e3`), the halfmove clock (0 to 255) and the
    /// fullmove number (0 to 65535), both in decimal. Fields after the sixth
    /// are ignored. Fewer than six fields give `MissingField`; otherwise the
    /// first field that does not read gives its own error.
    pub fn from_fen(fen: &str) -> (r: Result<Position, Error>)
        ensures
            fen_error(fen@) matches Some(e) ==> r == Err::<Position, Error>(e),
            fen_error(fen@) is None ==> r is Ok && r->Ok_0.described_by(fields(fen@)),
    {
        let chars = chars_of(fen);
        let t = chars.as_slice();
        let spans = field_spans(t);
        let ghost fs = fields(fen@);
        if spans.len() < 6 {
            return Err(Error::ParseError(ParseErrorKind::MissingField));
        }
        let f0 = slice_subrange(t, spans[0].0, spans[0].1);
        let f1 = slice_subrange(t, spans[1].0, spans[1].1);
        let f2 = slice_subrange(t, spans[2].0, spans[2].1);
        let f3 = slice_subrange(t, spans[3].0, spans[3].1);
        let f4 = slice_subrange(t, spans[4].0, spans[4].1);
        let f5 = slice_subrange(t, spans[5].0, spans[5].1);
        proof {
            assert(f0@ == fs[0]);
            assert(f1@ == fs[1]);
            assert(f2@ == fs[2]);
            assert(f3@ == fs[3]);
            assert(f4@ == fs[4]);
            assert(f5@ == fs[5]);
        }
        let piece_placement_data = match PiecePlacementData::from_chars(f0) {
            Ok(p) => p,
            Err(e) => return Err(e),
        };
        let active_color = match ActiveColor::from_chars(f1) {
            Ok(c) => c,
            Err(e) => return Err(e),
        };
        let castling_availability = match CastlingAvailability::from_chars(f2) {
            Ok(a) => a,
            Err(e) => return Err(e),
        };
        let en_passant_target_square = if f3.len() == 1 && f3[0] == '-' {
            assert(f3@ =~= seq!['-']);
            None
        } else {
            proof {
                if f3@ == seq!['-'] {
                    assert(f3@[0] == '-');
                }
            }
            match Square::from_chars(f3) {
                Ok(s) => Some(s),
                Err(e) => return Err(e),
            }
        };
        let halfmove_clock = match parse_number(f4, 255) {
            Some(n) => n as u8,
            None => return Err(Error::ParseError(ParseErrorKind::InvalidNumber)),
        };
        let fullmove_number = match parse_number(f5, 65535) {
            Some(n) => n,
            None => return Err(Error::ParseError(ParseErrorKind::InvalidNumber)),
        };
        Ok(
            Position {
                piece_placement_data,
                active_color,
                castling_availability,
                en_passant_target_square,
                halfmove_clock,
                fullmove_number,
            },
        )
    }

    /// The FEN line for this position: its six fields joined by single spaces.
    pub fn to_fen(&self) -> (r: String)
        ensures
            r@ == self.fen_text(),
    {
        let mut out = String::new();
        self.piece_placement_data.write_text(&mut out);
        push_char(&mut out, ' ');
        self.active_color.write_text(&mut out);
        push_char(&mut out, ' ');
        self.castling_availability.write_text(&mut out);
        push_char(&mut out, ' ');
        match self.en_passant_target_square {
            None => push_char(&mut out, '-'),
            Some(s) => s.write_text(&mut out),
        }
        push_char(&mut out, ' ');
        push_decimal(&mut out, self.halfmove_clock as u16);
        push_char(&mut out, ' ');
        push_decimal(&mut out, self.fullmove_number);
        assert(out@ =~= self.fen_text());
        out
    }
}

proof fn lemma_en_passant_round_trip(ep: Option<Square>)
    requires
        ep matches Some(s) ==> 0 <= s@ < 64,
    ensures
        en_passant_of_text(en_passant_text(ep)) == match ep {
            None => Some(None::<int>),
            Some(s) => Some(Some(s@)),
        },
        en_passant_text(ep).len() > 0,
        no_space(en_passant_text(ep)),
{
    if let Some(s) = ep {
        lemma_square_text_round_trip(s@);
        let t = square_text(s@);
        assert(t != seq!['-']) by {
            if t == seq!['-'] {
                assert(t.len() == 1);
            }
        }
        assert forall|i: int| 0 <= i < t.len() implies !is_space(#[trigger] t[i]) by {}
    } else {
        assert forall|i: int| 0 <= i < 1 implies !is_space(#[trigger] seq!['-'][i]) by {}
    }
}

proof fn lemma_fields_six(
    a: Seq<char>,
    b: Seq<char>,
    c: Seq<char>,
    d: Seq<char>,
    e: Seq<char>,
    f: Seq<char>,
)
    requires
        a.len() > 0 && no_space(a),
        b.len() > 0 && no_space(b),
        c.len() > 0 && no_space(c),
        d.len() > 0 && no_space(d),
        e.len() > 0 && no_space(e),
        f.len() > 0 && no_space(f),
    ensures
        fields(
            a + seq![' '] + b + seq![' '] + c + seq![' '] + d + seq![' '] + e + seq![' '] + f,
        ) == seq![a, b, c, d, e, f],
{
    let sp = seq![' '];
    assert(a + sp + b + sp + c + sp + d + sp + e + sp + f =~= a + sp + (b + sp + (c + sp + (d + sp
        + (e + sp + f)))));
    lemma_fields_single(f);
    lemma_fields_cons(e, f);
    lemma_fields_cons(d, e + sp + f);
    lemma_fields_cons(c, d + sp + (e + sp + f));
    lemma_fields_cons(b, c + sp + (d + sp + (e + sp + f)));
    lemma_fields_cons(a, b + sp + (c + sp + (d + sp + (e + sp + f))));
    assert(fields(a + sp + b + sp + c + sp + d + sp + e + sp + f) =~= seq![a, b, c, d, e, f]);
}

proof fn lemma_fen_fields(p: Position)
    requires
        p.wf(),
    ensures
        fields(p.fen_text()) == seq![
            placement_text(p.piece_placement_data.0@),
            color_text(p.active_color),
            castling_text(p.castling_availability),
            en_passant_text(p.en_passant_target_square),
            decimal_text(p.halfmove_clock as nat),
            decimal_text(p.fullmove_number as nat),
        ],
{
    let pt = placement_text(p.piece_placement_data.0@);
    let ct = color_text(p.active_color);
    assert(pt.len() > 0 && no_space(pt)) by {
        lemma_placement_round_trip(p.piece_placement_data, p.piece_placement_data);
    }
    assert(ct.len() > 0 && no_space(ct)) by {
        lemma_color_round_trip(p.active_color);
        assert forall|i: int| 0 <= i < ct.len() implies !is_space(#[trigger] ct[i]) by {}
    }
    lemma_castling_round_trip(p.castling_availability);
    lemma_en_passant_round_trip(p.en_passant_target_square);
    lemma_decimal_round_trip(p.halfmove_clock as nat);
    lemma_decimal_round_trip(p.fullmove_number as nat);
    lemma_fields_six(
        pt,
        ct,
        castling_text(p.castling_availability),
        en_passant_text(p.en_passant_target_square),
        decimal_text(p.halfmove_clock as nat),
        decimal_text(p.fullmove_number as nat),
    );
}

/// Writing a well-formed position as a FEN line and reading it back gives
/// the same position: the line reads without error, it describes this
/// position, and any position that it describes is this one.
pub proof fn lemma_fen_round_trip(p: Position, q: Position)
    requires
        p.wf(),
    ensures
        fen_error(p.fen_text()) is None,
        p.described_by(fields(p.fen_text())),
        q.described_by(fields(p.fen_text())) ==> q == p,
{
    lemma_fen_fields(p);
    let fs = fields(p.fen_text());
    lemma_placement_round_trip(p.piece_placement_data, q.piece_placement_data);
    lemma_color_round_trip(p.active_color);
    lemma_castling_round_trip(p.castling_availability);
    lemma_en_passant_round_trip(p.en_passant_target_square);
    lemma_decimal_round_trip(p.halfmove_clock as nat);
    lemma_decimal_round_trip(p.fullmove_number as nat);
    if q.described_by(fs) {
        if let Some(s) = q.en_passant_target_square {
            let t = p.en_passant_target_square->Some_0;
            Square::lemma_view_injective(s, t);
        }
    }
}

} // verus!
