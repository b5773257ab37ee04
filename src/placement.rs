use vstd::prelude::*;

use crate::bitboard::{lemma_same_squares, Bitboard};
use crate::error::{Error, ParseErrorKind};
use crate::piece::Piece;
use crate::square::Square;
use crate::text::{chars_of, digit_char, digit_value, is_space, no_space, push_char};

verus! {

/// One step of a piece-placement field read from left to right.
pub enum Cell {
    /// An empty square.
    Empty,
    /// A square holding a piece.
    Occupied(Piece),
    /// The end of a rank.
    RankEnd,
}

/// The cells that the character `c` of a placement field stands for: a rank
/// end for `/`, that many empty squares for a digit `1`-`8`, one occupied
/// square for a piece letter.
pub open spec fn char_cells(c: char) -> Option<Seq<Cell>> {
    if c == '/' {
        Some(seq![Cell::RankEnd])
    } else if '1' <= c <= '8' {
        Some(Seq::new(digit_value(c) as nat, |_i: int| Cell::Empty))
    } else {
        match Piece::of_letter(c) {
            Some(p) => Some(seq![Cell::Occupied(p)]),
            None => None,
        }
    }
}

/// The cells of `t`, character by character; `None` if `t` holds a character
/// that stands for none.
pub open spec fn expand(t: Seq<char>) -> Option<Seq<Cell>>
    decreases t.len(),
{
    if t.len() == 0 {
        Some(seq![])
    } else {
        match (expand(t.drop_last()), char_cells(t.last())) {
            (Some(a), Some(b)) => Some(a + b),
            _ => None,
        }
    }
}

/// Whether `cells` can begin eight ranks of eight squares, each rank but the
/// last followed by its end.
pub open spec fn shaped_prefix(cells: Seq<Cell>) -> bool {
    &&& cells.len() <= 71
    &&& forall|j: int| 0 <= j < cells.len() ==> ((#[trigger] cells[j] is RankEnd) <==> j % 9 == 8)
}

/// Whether `cells` are eight ranks of eight squares, each rank but the last
/// followed by its end.
pub open spec fn well_shaped(cells: Seq<Cell>) -> bool {
    cells.len() == 71 && shaped_prefix(cells)
}

/// The cells of a well-formed placement field `t`, rank `8` first; `None`
/// when `t` is malformed.
pub open spec fn placement_cells(t: Seq<char>) -> Option<Seq<Cell>> {
    match expand(t) {
        Some(cells) => if well_shaped(cells) {
            Some(cells)
        } else {
            None
        },
        None => None,
    }
}

/// Where square `sq` stands among the cells of a placement field.
pub open spec fn cell_index(sq: int) -> int {
    (7 - sq / 8) * 9 + sq % 8
}

/// The first piece, in the order of `Piece` from board `b` on, whose board
/// holds square `sq`.
pub open spec fn piece_from(boards: Seq<Bitboard>, sq: int, b: int) -> Option<Piece>
    decreases 12 - b,
{
    if b < 0 || b >= 12 {
        None
    } else if boards[b].has(sq) {
        Some(Piece::of_index(b))
    } else {
        piece_from(boards, sq, b + 1)
    }
}

/// What stands on square `sq`: the first piece, in the order of `Piece`,
/// whose board holds it.
pub open spec fn piece_on(boards: Seq<Bitboard>, sq: int) -> Option<Piece> {
    piece_from(boards, sq, 0)
}

/// What stands on each square of rank `r`, from file `a` to file `h`.
pub open spec fn rank_row(boards: Seq<Bitboard>, r: int) -> Seq<Option<Piece>> {
    Seq::new(8, |f: int| piece_on(boards, r * 8 + f))
}

/// The digit for a run of `n` empty squares, or nothing when there is none.
pub open spec fn count_text(n: nat) -> Seq<char> {
    if n == 0 {
        seq![]
    } else {
        seq![digit_char(n as int)]
    }
}

/// A rank's record in a placement field: the letter of each piece, and the
/// length of each run of empty squares, `empties` of which come before `row`.
pub open spec fn row_text(row: Seq<Option<Piece>>, empties: nat) -> Seq<char>
    decreases row.len(),
{
    if row.len() == 0 {
        count_text(empties)
    } else {
        match row[0] {
            None => row_text(row.drop_first(), empties + 1),
            Some(p) => count_text(empties) + seq![p.spec_letter()] + row_text(row.drop_first(), 0),
        }
    }
}

/// The records of ranks `r` down to `1`, separated by `/`.
pub open spec fn ranks_text(boards: Seq<Bitboard>, r: int) -> Seq<char>
    decreases r,
{
    if r <= 0 {
        row_text(rank_row(boards, 0), 0)
    } else {
        row_text(rank_row(boards, r), 0) + seq!['/'] + ranks_text(boards, r - 1)
    }
}

/// The placement field for `boards`.
pub open spec fn placement_text(boards: Seq<Bitboard>) -> Seq<char> {
    ranks_text(boards, 7)
}

/// Whether no square is on two of the boards.
pub open spec fn disjoint_boards(boards: Seq<Bitboard>) -> bool {
    forall|b1: int, b2: int, sq: int|
        0 <= b1 < 12 && 0 <= b2 < 12 && b1 != b2 ==> !(#[trigger] boards[b1].has(sq)
            && #[trigger] boards[b2].has(sq))
}

/// The cell for what stands on a square.
pub open spec fn cell_of(o: Option<Piece>) -> Cell {
    match o {
        Some(p) => Cell::Occupied(p),
        None => Cell::Empty,
    }
}

/// `n` empty squares.
pub open spec fn empties(n: nat) -> Seq<Cell> {
    Seq::new(n, |_j: int| Cell::Empty)
}

/// The cells of a rank.
pub open spec fn row_cells(row: Seq<Option<Piece>>) -> Seq<Cell> {
    Seq::new(row.len(), |j: int| cell_of(row[j]))
}

/// The cells of the placement field for `boards`: eight ranks of eight
/// squares, rank `8` first, each rank but the last followed by its end.
pub open spec fn board_cells(boards: Seq<Bitboard>) -> Seq<Cell> {
    Seq::new(
        71,
        |j: int|
            if j % 9 == 8 {
                Cell::RankEnd
            } else {
                cell_of(piece_on(boards, (7 - j / 9) * 8 + j % 9))
            },
    )
}

proof fn lemma_expand_concat(a: Seq<char>, b: Seq<char>)
    ensures
        expand(a + b) == match (expand(a), expand(b)) {
            (Some(x), Some(y)) => Some(x + y),
            _ => None,
        },
    decreases b.len(),
{
    if b.len() == 0 {
        assert(a + b =~= a);
        if expand(a) is Some {
            assert(expand(a)->Some_0 + seq![] =~= expand(a)->Some_0);
        }
    } else {
        lemma_expand_concat(a, b.drop_last());
        assert((a + b).drop_last() =~= a + b.drop_last());
        assert((a + b).last() == b.last());
        if expand(a) is Some && expand(b.drop_last()) is Some && char_cells(b.last()) is Some {
            let x = expand(a)->Some_0;
            let y = expand(b.drop_last())->Some_0;
            let z = char_cells(b.last())->Some_0;
            assert((x + y) + z =~= x + (y + z));
        }
    }
}

proof fn lemma_expand_single(c: char)
    ensures
        expand(seq![c]) == char_cells(c),
{
    assert(seq![c].drop_last() =~= Seq::<char>::empty());
    assert(seq![c].last() == c);
    assert(expand(Seq::<char>::empty()) == Some(Seq::<Cell>::empty()));
    if char_cells(c) is Some {
        assert(seq![] + char_cells(c)->Some_0 =~= char_cells(c)->Some_0);
    }
}

proof fn lemma_expand_count(n: nat)
    requires
        n <= 8,
    ensures
        expand(count_text(n)) == Some(empties(n)),
{
    if n == 0 {
        assert(empties(0) =~= Seq::<Cell>::empty());
    } else {
        lemma_expand_single(digit_char(n as int));
        assert(char_cells(digit_char(n as int))->Some_0 =~= empties(n));
    }
}

proof fn lemma_expand_row(row: Seq<Option<Piece>>, e: nat)
    requires
        e + row.len() <= 8,
    ensures
        expand(row_text(row, e)) == Some(empties(e) + row_cells(row)),
    decreases row.len(),
{
    if row.len() == 0 {
        lemma_expand_count(e);
        assert(empties(e) + row_cells(row) =~= empties(e));
    } else {
        let rest = row.drop_first();
        match row[0] {
            None => {
                lemma_expand_row(rest, e + 1);
                assert(empties(e + 1) + row_cells(rest) =~= empties(e) + row_cells(row));
            },
            Some(p) => {
                let l = seq![p.spec_letter()];
                lemma_expand_row(rest, 0);
                lemma_expand_count(e);
                p.lemma_tables();
                lemma_expand_single(p.spec_letter());
                lemma_expand_concat(count_text(e), l);
                lemma_expand_concat(count_text(e) + l, row_text(rest, 0));
                assert(empties(e) + seq![Cell::Occupied(p)] + (empties(0) + row_cells(rest))
                    =~= empties(e) + row_cells(row));
            },
        }
    }
}

proof fn lemma_expand_ranks(boards: Seq<Bitboard>, r: int)
    requires
        0 <= r <= 7,
    ensures
        expand(ranks_text(boards, r)) == Some(board_cells(boards).skip(63 - 9 * r)),
    decreases r,
{
    let bc = board_cells(boards);
    let row = rank_row(boards, r);
    let rc = row_cells(row);
    lemma_expand_row(row, 0);
    assert forall|j: int| 0 <= j < 8 implies rc[j] == bc[63 - 9 * r + j] by {
        assert((63 - 9 * r + j) % 9 == j);
        assert((63 - 9 * r + j) / 9 == 7 - r);
    }
    if r == 0 {
        assert(empties(0) + rc =~= bc.skip(63));
    } else {
        assert((71 - 9 * r) % 9 == 8);
        assert(bc[71 - 9 * r] is RankEnd);
        lemma_expand_ranks(boards, r - 1);
        lemma_expand_single('/');
        lemma_expand_concat(row_text(row, 0), seq!['/']);
        lemma_expand_concat(row_text(row, 0) + seq!['/'], ranks_text(boards, r - 1));
        assert(empties(0) + rc + seq![Cell::RankEnd] + bc.skip(63 - 9 * (r - 1)) =~= bc.skip(
            63 - 9 * r,
        ));
    }
}

proof fn lemma_piece_from(boards: Seq<Bitboard>, sq: int, b0: int, b: int)
    requires
        0 <= b0 <= 12,
        0 <= b < 12,
        disjoint_boards(boards),
    ensures
        piece_from(boards, sq, b0) == Some(Piece::of_index(b)) <==> (b0 <= b && boards[b].has(sq)),
    decreases 12 - b0,
{
    Piece::WhiteKing.lemma_tables();
    if b0 < 12 {
        if boards[b0].has(sq) {
            if b != b0 {
                assert(Piece::of_index(b0).spec_index() != Piece::of_index(b).spec_index());
            }
        } else {
            lemma_piece_from(boards, sq, b0 + 1, b);
        }
    }
}

/// Text that stands for cells holds no white space.
proof fn lemma_expand_no_space(t: Seq<char>)
    requires
        expand(t) is Some,
    ensures
        no_space(t),
    decreases t.len(),
{
    if t.len() > 0 {
        lemma_expand_no_space(t.drop_last());
        assert forall|i: int| 0 <= i < t.len() implies !is_space(#[trigger] t[i]) by {
            if i < t.len() - 1 {
                assert(t[i] == t.drop_last()[i]);
            }
        }
    }
}

/// Boards with no square in common, written as a placement field, read back
/// as the same boards: the field is well formed and free of white space, and
/// any boards that it shows are these.
pub proof fn lemma_placement_round_trip(p: PiecePlacementData, q: PiecePlacementData)
    requires
        disjoint_boards(p.0@),
    ensures
        placement_cells(placement_text(p.0@)) matches Some(cells) && p.shows(cells) && (q.shows(
            cells,
        ) ==> q == p),
        placement_text(p.0@).len() > 0,
        no_space(placement_text(p.0@)),
{
    let boards = p.0@;
    let bc = board_cells(boards);
    lemma_expand_ranks(boards, 7);
    assert(bc.skip(63 - 9 * 7) =~= bc);
    lemma_expand_no_space(placement_text(boards));
    assert forall|j: int| 0 <= j < bc.len() implies ((#[trigger] bc[j] is RankEnd) <==> j % 9
        == 8) by {}
    assert(well_shaped(bc));
    assert(placement_text(boards).len() > 0) by {
        if placement_text(boards).len() == 0 {
            assert(placement_text(boards) =~= Seq::<char>::empty());
        }
    }
    assert forall|b: int, sq: int| 0 <= b < 12 && 0 <= sq < 64 implies (#[trigger] p.board(b).has(
        sq) <==> bc[cell_index(sq)] == Cell::Occupied(Piece::of_index(b))) by {
        lemma_cell_index(sq);
        let ci = cell_index(sq);
        assert((7 - ci / 9) * 8 + ci % 9 == sq);
        lemma_piece_from(boards, sq, 0, b);
    }
    if q.shows(bc) {
        assert forall|b: int| 0 <= b < 12 implies q.0@[b] == p.0@[b] by {
            assert forall|sq: int| 0 <= sq < 64 implies (q.0@[b].has(sq) <==> p.0@[b].has(sq)) by {
                assert(q.board(b).has(sq) <==> p.board(b).has(sq));
            }
            lemma_same_squares(q.0@[b], p.0@[b]);
        }
        assert(q.0 =~= p.0);
    }
}

/// The twelve boards of a position, one for each kind of piece, in the order
/// of `Piece`: White king, queen, rook, bishop, knight, pawn, then the same
/// for Black.
#[derive(Debug, Clone, Copy, PartialEq, Eq)]
pub struct PiecePlacementData(pub [Bitboard; 12]);

proof fn lemma_expand_prefix(t: Seq<char>, i: int)
    requires
        0 <= i <= t.len(),
        expand(t) is Some,
    ensures
        expand(t.take(i)) matches Some(p) && p.len() <= expand(t)->Some_0.len()
            && expand(t)->Some_0.take(p.len() as int) == p,
    decreases t.len(),
{
    if i == t.len() {
        assert(t.take(i) =~= t);
        assert(expand(t)->Some_0.take(expand(t)->Some_0.len() as int) =~= expand(t)->Some_0);
    } else {
        lemma_expand_prefix(t.drop_last(), i);
        assert(t.drop_last().take(i) =~= t.take(i));
        let full = expand(t)->Some_0;
        let part = expand(t.drop_last())->Some_0;
        let p = expand(t.take(i))->Some_0;
        assert(full.take(p.len() as int) =~= part.take(p.len() as int));
    }
}

/// Once a prefix of `t` expands to cells that cannot begin a well-shaped
/// field, or to nothing at all, `t` is malformed.
proof fn lemma_blocked_prefix(t: Seq<char>, i: int)
    requires
        0 <= i <= t.len(),
        !(expand(t.take(i)) matches Some(p) && shaped_prefix(p)),
    ensures
        placement_cells(t) is None,
{
    if expand(t) is Some {
        lemma_expand_prefix(t, i);
        let full = expand(t)->Some_0;
        let p = expand(t.take(i))->Some_0;
        if well_shaped(full) {
            assert forall|j: int| 0 <= j < p.len() implies ((#[trigger] p[j] is RankEnd) <==> j % 9
                == 8) by {
                assert(p[j] == full[j]);
            }
        }
    }
}

/// The boards hold exactly the pieces that `cells`, a prefix of a placement
/// field, show.
#[verifier::opaque]
spec fn shows_prefix(boards: Seq<Bitboard>, cells: Seq<Cell>) -> bool {
    forall|b: int, sq: int|
        0 <= b < 12 && 0 <= sq < 64 ==> (#[trigger] boards[b].has(sq) <==> (cell_index(sq)
            < cells.len() && cells[cell_index(sq)] == Cell::Occupied(Piece::of_index(b))))
}

proof fn lemma_cell_index(sq: int)
    requires
        0 <= sq < 64,
    ensures
        0 <= cell_index(sq) < 71,
        cell_index(sq) % 9 == sq % 8,
        cell_index(sq) / 9 == 7 - sq / 8,
{
}

proof fn lemma_rank_end_blocked(cells: Seq<Cell>, k: int, f: int)
    requires
        cells.len() == k * 9 + f,
        0 <= k <= 7,
        0 <= f <= 8,
        f != 8 || k == 7,
    ensures
        !shaped_prefix(cells.push(Cell::RankEnd)),
{
    let p = cells.push(Cell::RankEnd);
    assert(p[k * 9 + f] is RankEnd);
}

proof fn lemma_rank_end_step(boards: Seq<Bitboard>, cells: Seq<Cell>, k: int)
    requires
        cells.len() == k * 9 + 8,
        0 <= k < 7,
        shaped_prefix(cells),
        shows_prefix(boards, cells),
    ensures
        shaped_prefix(cells.push(Cell::RankEnd)),
        shows_prefix(boards, cells.push(Cell::RankEnd)),
{
    reveal(shows_prefix);
    let p = cells.push(Cell::RankEnd);
    assert forall|j: int| 0 <= j < p.len() implies ((#[trigger] p[j] is RankEnd) <==> j % 9
        == 8) by {
        if j < cells.len() {
            assert(p[j] == cells[j]);
        }
    }
    assert forall|b: int, sq: int| 0 <= b < 12 && 0 <= sq < 64 implies (#[trigger] boards[b].has(
        sq) <==> (cell_index(sq) < p.len() && p[cell_index(sq)] == Cell::Occupied(
        Piece::of_index(b)))) by {
        if cell_index(sq) < cells.len() {
            assert(p[cell_index(sq)] == cells[cell_index(sq)]);
        }
    }
}

proof fn lemma_empties_blocked(cells: Seq<Cell>, k: int, f: int, d: int)
    requires
        cells.len() == k * 9 + f,
        0 <= k <= 7,
        0 <= f <= 8,
        f + d > 8,
        d <= 8,
    ensures
        !shaped_prefix(cells + Seq::new(d as nat, |_j: int| Cell::Empty)),
{
    let p = cells + Seq::new(d as nat, |_j: int| Cell::Empty);
    if p.len() <= 71 {
        assert(p[k * 9 + 8] is Empty);
    }
}

proof fn lemma_empties_step(boards: Seq<Bitboard>, cells: Seq<Cell>, k: int, f: int, d: int)
    requires
        cells.len() == k * 9 + f,
        0 <= k <= 7,
        0 <= f,
        1 <= d,
        f + d <= 8,
        shaped_prefix(cells),
        shows_prefix(boards, cells),
    ensures
        shaped_prefix(cells + Seq::new(d as nat, |_j: int| Cell::Empty)),
        shows_prefix(boards, cells + Seq::new(d as nat, |_j: int| Cell::Empty)),
{
    reveal(shows_prefix);
    let p = cells + Seq::new(d as nat, |_j: int| Cell::Empty);
    assert forall|j: int| 0 <= j < p.len() implies ((#[trigger] p[j] is RankEnd) <==> j % 9
        == 8) by {
        if j < cells.len() {
            assert(p[j] == cells[j]);
        } else {
            assert(p[j] is Empty);
            assert((k * 9 + (j - k * 9)) % 9 == j - k * 9);
        }
    }
    assert forall|b: int, sq: int| 0 <= b < 12 && 0 <= sq < 64 implies (#[trigger] boards[b].has(
        sq) <==> (cell_index(sq) < p.len() && p[cell_index(sq)] == Cell::Occupied(
        Piece::of_index(b)))) by {
        if cell_index(sq) < cells.len() {
            assert(p[cell_index(sq)] == cells[cell_index(sq)]);
        }
    }
}

proof fn lemma_piece_blocked(cells: Seq<Cell>, k: int, p: Piece)
    requires
        cells.len() == k * 9 + 8,
        0 <= k <= 7,
    ensures
        !shaped_prefix(cells.push(Cell::Occupied(p))),
{
    let q = cells.push(Cell::Occupied(p));
    assert(q[k * 9 + 8] is Occupied);
}

proof fn lemma_piece_step(
    before: Seq<Bitboard>,
    after: Seq<Bitboard>,
    cells: Seq<Cell>,
    k: int,
    f: int,
    p: Piece,
    sq: int,
)
    requires
        cells.len() == k * 9 + f,
        0 <= k <= 7,
        0 <= f < 8,
        sq == (7 - k) * 8 + f,
        before.len() == 12,
        shaped_prefix(cells),
        shows_prefix(before, cells),
        after == before.update(
            p.spec_index(),
            after[p.spec_index()],
        ),
        forall|i: int|
            #[trigger] after[p.spec_index()].has(i) <==> (before[p.spec_index()].has(i) || i == sq),
    ensures
        shaped_prefix(cells.push(Cell::Occupied(p))),
        shows_prefix(after, cells.push(Cell::Occupied(p))),
{
    reveal(shows_prefix);
    p.lemma_tables();
    let q = cells.push(Cell::Occupied(p));
    assert(cell_index(sq) == cells.len());
    assert forall|j: int| 0 <= j < q.len() implies ((#[trigger] q[j] is RankEnd) <==> j % 9
        == 8) by {
        if j < cells.len() {
            assert(q[j] == cells[j]);
        }
    }
    assert forall|b: int, s: int| 0 <= b < 12 && 0 <= s < 64 implies (#[trigger] after[b].has(s)
        <==> (cell_index(s) < q.len() && q[cell_index(s)] == Cell::Occupied(
        Piece::of_index(b),
    ))) by {
        lemma_cell_index(s);
        lemma_cell_index(sq);
        if cell_index(s) < cells.len() {
            assert(q[cell_index(s)] == cells[cell_index(s)]);
        }
        if b != p.spec_index() {
            assert(after[b] == before[b]);
        }
        if cell_index(s) == cells.len() {
            assert(s == sq);
        }
    }
}

impl PiecePlacementData {
    /// The board of the piece at position `b` of `Piece`'s order.
    pub open spec fn board(self, b: int) -> Bitboard {
        self.0@[b]
    }

    /// Whether the boards hold exactly the pieces that the cells of a
    /// placement field show.
    pub open spec fn shows(self, cells: Seq<Cell>) -> bool {
        forall|b: int, sq: int|
            0 <= b < 12 && 0 <= sq < 64 ==> (#[trigger] self.board(b).has(sq) <==> cells[cell_index(
                sq,
            )] == Cell::Occupied(Piece::of_index(b)))
    }

    /// Reads a piece-placement field.
    pub(crate) fn from_chars(t: &[char]) -> (r: Result<PiecePlacementData, Error>)
        ensures
            placement_cells(t@) matches Some(cells) ==> r is Ok && r->Ok_0.shows(cells),
            placement_cells(t@) is None ==> r == Err::<PiecePlacementData, Error>(
                Error::ParseError(ParseErrorKind::MalformedPlacement),
            ),
    {
        let none = Bitboard::empty();
        let mut boards = [none;12];
        let mut k: usize = 0;
        let mut f: usize = 0;
        let mut i: usize = 0;
        let ghost mut cells: Seq<Cell> = seq![];
        proof {
            assert(t@.take(0) =~= Seq::<char>::empty());
            reveal(shows_prefix);
            assert forall|b: int, sq: int| 0 <= b < 12 && 0 <= sq < 64 implies !(
            #[trigger] boards@[b].has(sq)) by {
                assert(boards@[b] == none);
            }
        }
        while i < t.len()
            invariant
                i <= t@.len(),
                k <= 7,
                f <= 8,
                expand(t@.take(i as int)) == Some(cells),
                cells.len() == k * 9 + f,
                shaped_prefix(cells),
                shows_prefix(boards@, cells),
            decreases t@.len() - i,
        {
            let c = t[i];
            proof {
                assert(t@.take(i + 1).drop_last() =~= t@.take(i as int));
                assert(t@.take(i + 1).last() == c);
            }
            if c == '/' {
                proof {
                    assert(cells + seq![Cell::RankEnd] =~= cells.push(Cell::RankEnd));
                }
                if f != 8 || k == 7 {
                    proof {
                        lemma_rank_end_blocked(cells, k as int, f as int);
                        lemma_blocked_prefix(t@, i + 1);
                    }
                    return Err(Error::ParseError(ParseErrorKind::MalformedPlacement));
                }
                proof {
                    lemma_rank_end_step(boards@, cells, k as int);
                    cells = cells.push(Cell::RankEnd);
                }
                k = k + 1;
                f = 0;
            } else if '1' <= c && c <= '8' {
                let d = (c as u32 - 48) as usize;
                let ghost run = Seq::new(d as nat, |_j: int| Cell::Empty);
                proof {
                    assert(char_cells(c) == Some(run));
                }
                if f + d > 8 {
                    proof {
                        lemma_empties_blocked(cells, k as int, f as int, d as int);
                        lemma_blocked_prefix(t@, i + 1);
                    }
                    return Err(Error::ParseError(ParseErrorKind::MalformedPlacement));
                }
                proof {
                    lemma_empties_step(boards@, cells, k as int, f as int, d as int);
                    cells = cells + run;
                }
                f = f + d;
            } else {
                match Piece::from_letter(c) {
                    None => {
                        proof {
                            lemma_blocked_prefix(t@, i + 1);
                        }
                        return Err(Error::ParseError(ParseErrorKind::MalformedPlacement));
                    },
                    Some(p) => {
                        proof {
                            let occupied = Cell::Occupied(p);
                            assert(cells + seq![occupied] =~= cells.push(occupied));
                        }
                        if f == 8 {
                            proof {
                                lemma_piece_blocked(cells, k as int, p);
                                lemma_blocked_prefix(t@, i + 1);
                            }
                            return Err(Error::ParseError(ParseErrorKind::MalformedPlacement));
                        }
                        let sq = Square::new((7 - k) as u8, f as u8).unwrap();
                        let b = p.index();
                        let ghost before = boards@;
                        let mut board = boards[b];
                        board.set_square(sq);
                        boards[b] = board;
                        proof {
                            lemma_piece_step(before, boards@, cells, k as int, f as int, p, sq@);
                            cells = cells.push(Cell::Occupied(p));
                        }
                        f = f + 1;
                    },
                }
            }
            i = i + 1;
        }
        proof {
            assert(t@.take(i as int) =~= t@);
        }
        if k == 7 && f == 8 {
            proof {
                reveal(shows_prefix);
            }
            Ok(PiecePlacementData(boards))
        } else {
            Err(Error::ParseError(ParseErrorKind::MalformedPlacement))
        }
    }

    /// Reads a piece-placement field: eight ranks separated by `/`, rank `8`
    /// first, each rank giving its squares from file `a` to file `h` as piece
    /// letters `KQRBNPkqrbnp` or digits `1`-`8` counting empty squares, which
    /// must add up to eight.
    pub fn from_text(s: &str) -> (r: Result<PiecePlacementData, Error>)
        ensures
            placement_cells(s@) matches Some(cells) ==> r is Ok && r->Ok_0.shows(cells),
            placement_cells(s@) is None ==> r == Err::<PiecePlacementData, Error>(
                Error::ParseError(ParseErrorKind::MalformedPlacement),
            ),
    {
        let t = chars_of(s);
        PiecePlacementData::from_chars(t.as_slice())
    }

    /// The piece on `square`: the first, in the order of `Piece`, whose board
    /// holds it.
    pub fn piece_at(&self, square: Square) -> (r: Option<Piece>)
        ensures
            r == piece_on(self.0@, square@),
    {
        let s = square.to_u8() as u64;
        let mut b: usize = 0;
        while b < 12
            invariant
                b <= 12,
                s == square@,
                s < 64,
                piece_on(self.0@, square@) == piece_from(self.0@, square@, b as int),
            decreases 12 - b,
        {
            if (self.0[b].0 >> s) & 1 == 1 {
                return Piece::from_index(b);
            }
            b = b + 1;
        }
        None
    }

    /// Appends the record of rank `r` to `out`.
    fn write_rank(&self, out: &mut String, r: u8)
        requires
            r < 8,
        ensures
            final(out)@ == old(out)@ + row_text(rank_row(self.0@, r as int), 0),
    {
        let ghost row = rank_row(self.0@, r as int);
        let ghost start = out@;
        let mut empties: u8 = 0;
        let mut f: u8 = 0;
        proof {
            assert(row.skip(0) =~= row);
        }
        while f < 8
            invariant
                f <= 8,
                empties <= f,
                r < 8,
                row == rank_row(self.0@, r as int),
                out@ + row_text(row.skip(f as int), empties as nat) == start + row_text(row, 0),
            decreases 8 - f,
        {
            let square = Square::new(r, f).unwrap();
            let here = self.piece_at(square);
            proof {
                assert(row.skip(f as int).drop_first() =~= row.skip(f + 1));
                assert(row.skip(f as int)[0] == row[f as int]);
            }
            match here {
                None => {
                    empties = empties + 1;
                },
                Some(p) => {
                    let ghost o = out@;
                    if empties > 0 {
                        push_char(out, (empties + 48) as char);
                    }
                    push_char(out, p.letter());
                    proof {
                        assert(out@ =~= o + count_text(empties as nat) + seq![p.spec_letter()]);
                        assert(out@ + row_text(row.skip(f + 1), 0) =~= o + (count_text(
                            empties as nat,
                        ) + seq![p.spec_letter()] + row_text(row.skip(f + 1), 0)));
                    }
                    empties = 0;
                },
            }
            f = f + 1;
        }
        let ghost o = out@;
        if empties > 0 {
            push_char(out, (empties + 48) as char);
        }
        proof {
            assert(row.skip(8) =~= Seq::<Option<Piece>>::empty());
            assert(out@ =~= o + count_text(empties as nat));
        }
    }

    /// Appends the placement field for these boards to `out`.
    pub(crate) fn write_text(&self, out: &mut String)
        ensures
            final(out)@ == old(out)@ + placement_text(self.0@),
    {
        let ghost start = out@;
        let mut k: u8 = 0;
        while k < 8
            invariant
                k <= 8,
                k < 8 ==> out@ + ranks_text(self.0@, 7 - k) == start + placement_text(self.0@),
                k == 8 ==> out@ == start + placement_text(self.0@),
            decreases 8 - k,
        {
            let r = 7 - k;
            let ghost o = out@;
            self.write_rank(out, r);
            if r > 0 {
                push_char(out, '/');
                proof {
                    assert(out@ + ranks_text(self.0@, r - 1) =~= o + ranks_text(self.0@, r as int));
                }
            } else {
                proof {
                    assert(out@ =~= o + ranks_text(self.0@, 0));
                }
            }
            k = k + 1;
        }
    }

    /// The placement field for these boards: ranks `8` down to `1` separated
    /// by `/`, each square given by the letter of the first piece, in the
    /// order of `Piece`, whose board holds it, and each run of empty squares
    /// by its length.
    pub fn to_text(&self) -> (r: String)
        ensures
            r@ == placement_text(self.0@),
    {
        let mut r = String::new();
        self.write_text(&mut r);
        assert(r@ =~= placement_text(self.0@));
        r
    }
}

} // verus!
