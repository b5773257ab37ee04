use vstd::prelude::*;
use vstd::std_specs::ops::{BitAndSpec, BitOrSpec, BitXorSpec, NotSpec};
use vstd::std_specs::bits::{
    axiom_u64_leading_zeros, axiom_u64_trailing_zeros, u64_leading_zeros, u64_trailing_zeros,
};

use crate::square::Square;
use crate::text::push_char;

verus! {

/// The squares of file `a`.
pub const FILE_A: u64 = 0x0101010101010101;

/// The squares of file `h`.
pub const FILE_H: u64 = 0x8080808080808080;

/// Whether bit `i` of `x` is set, for `i` in `0..64`.
pub open spec fn bit(x: u64, i: int) -> bool {
    0 <= i < 64 && (x >> (i as u64)) & 1 == 1
}

/// The number of set bits of `x` below bit `k`.
pub open spec fn ones_below(x: u64, k: int) -> nat
    decreases k,
{
    if k <= 0 {
        0
    } else {
        ones_below(x, k - 1) + if bit(x, k - 1) {
            1nat
        } else {
            0nat
        }
    }
}

/// The number of set bits of `x`.
pub open spec fn ones(x: u64) -> nat {
    ones_below(x, 64)
}

/// The lower-case hexadecimal digit of `v`, for `v` in `0..16`.
pub open spec fn hex_digit(v: int) -> char {
    if v < 10 {
        (v + '0' as int) as char
    } else {
        (v - 10 + 'a' as int) as char
    }
}

/// `0x` followed by the sixteen hexadecimal digits of `x`, most significant first.
pub open spec fn hex_text(x: u64) -> Seq<char> {
    seq!['0', 'x'] + Seq::new(16, |k: int| hex_digit(((x >> ((60 - 4 * k) as u64)) & 15) as int))
}

/// The eight compass directions, north being towards rank `8` and east
/// towards file `h`.
#[derive(Debug, Clone, Copy, PartialEq, Eq, Structural)]
pub enum Direction {
    North,
    South,
    East,
    West,
    NorthEast,
    NorthWest,
    SouthEast,
    SouthWest,
}

impl Direction {
    /// The change of rank of one step in this direction.
    pub open spec fn rank_step(self) -> int {
        match self {
            Direction::North | Direction::NorthEast | Direction::NorthWest => 1,
            Direction::South | Direction::SouthEast | Direction::SouthWest => -1,
            Direction::East | Direction::West => 0,
        }
    }

    /// The change of file of one step in this direction.
    pub open spec fn file_step(self) -> int {
        match self {
            Direction::East | Direction::NorthEast | Direction::SouthEast => 1,
            Direction::West | Direction::NorthWest | Direction::SouthWest => -1,
            Direction::North | Direction::South => 0,
        }
    }
}

/// The square from which one step in direction `d` reaches square `i`, if
/// that square is on the board.
pub open spec fn step_source(i: int, d: Direction) -> Option<int> {
    let r = i / 8 - d.rank_step();
    let f = i % 8 - d.file_step();
    if 0 <= r < 8 && 0 <= f < 8 {
        Some(r * 8 + f)
    } else {
        None
    }
}

/// `r` holds the squares of `b` moved one step in direction `d`, less those
/// that the step takes off the board.
pub open spec fn is_shift_of(r: Bitboard, b: Bitboard, d: Direction) -> bool {
    forall|i: int| 0 <= i < 64 ==> (r.has(i) <==> (step_source(i, d) matches Some(j) && b.has(j)))
}

/// A set of squares: bit `i` is set when square `i` belongs to the set.
#[derive(Debug, Clone, Copy, PartialEq, Eq, Structural)]
pub struct Bitboard(pub u64);

impl View for Bitboard {
    type V = u64;

    open spec fn view(&self) -> u64 {
        self.0
    }
}

proof fn lemma_single_bit(s: u64)
    by (bit_vector)
    requires
        s < 64,
    ensures
        forall|i: u64| i < 64 ==> ((#[trigger] ((1u64 << s) >> i) & 1 == 1) == (i == s)),
{
}

proof fn lemma_set_bit(x: u64, s: u64)
    by (bit_vector)
    requires
        s < 64,
    ensures
        forall|i: u64|
            i < 64 ==> ((#[trigger] (((x | (1u64 << s)) >> i) & 1) == 1) == (((x >> i) & 1 == 1)
                || i == s)),
{
}

proof fn lemma_toggle_bit(x: u64, s: u64)
    by (bit_vector)
    requires
        s < 64,
    ensures
        forall|i: u64|
            i < 64 ==> ((#[trigger] (((x ^ (1u64 << s)) >> i) & 1) == 1) == (((x >> i) & 1 == 1)
                != (i == s))),
{
}

proof fn lemma_constant_bits()
    by (bit_vector)
    ensures
        forall|i: u64| i < 64 ==> #[trigger] ((0u64 >> i) & 1) == 0,
        forall|i: u64| i < 64 ==> #[trigger] ((0xffff_ffff_ffff_ffffu64 >> i) & 1) == 1,
{
}

proof fn lemma_shift_north(x: u64)
    by (bit_vector)
    ensures
        forall|i: u64|
            i < 64 ==> ((#[trigger] ((x << 8u64) >> i) & 1 == 1) == (i >= 8 && (x >> ((i
                - 8) as u64)) & 1 == 1)),
{
}

proof fn lemma_shift_south(x: u64)
    by (bit_vector)
    ensures
        forall|i: u64|
            i < 64 ==> ((#[trigger] ((x >> 8u64) >> i) & 1 == 1) == (i < 56 && (x >> ((i
                + 8) as u64)) & 1 == 1)),
{
}

proof fn lemma_shift_east(x: u64)
    by (bit_vector)
    ensures
        forall|i: u64|
            i < 64 ==> ((#[trigger] (((x & !FILE_H) << 1u64) >> i) & 1 == 1) == (i % 8 != 0 && (x
                >> ((i - 1) as u64)) & 1 == 1)),
{
}

proof fn lemma_shift_west(x: u64)
    by (bit_vector)
    ensures
        forall|i: u64|
            i < 64 ==> ((#[trigger] (((x & !FILE_A) >> 1u64) >> i) & 1 == 1) == (i % 8 != 7 && (x
                >> ((i + 1) as u64)) & 1 == 1)),
{
}

proof fn lemma_shift_north_east(x: u64)
    by (bit_vector)
    ensures
        forall|i: u64|
            i < 64 ==> ((#[trigger] (((x & !FILE_H) << 9u64) >> i) & 1 == 1) == (i >= 8 && i % 8
                != 0 && (x >> ((i - 9) as u64)) & 1 == 1)),
{
}

proof fn lemma_shift_north_west(x: u64)
    by (bit_vector)
    ensures
        forall|i: u64|
            i < 64 ==> ((#[trigger] (((x & !FILE_A) << 7u64) >> i) & 1 == 1) == (i >= 8 && i % 8
                != 7 && (x >> ((i - 7) as u64)) & 1 == 1)),
{
}

proof fn lemma_shift_south_east(x: u64)
    by (bit_vector)
    ensures
        forall|i: u64|
            i < 64 ==> ((#[trigger] (((x & !FILE_H) >> 7u64) >> i) & 1 == 1) == (i < 56 && i % 8
                != 0 && (x >> ((i + 7) as u64)) & 1 == 1)),
{
}

proof fn lemma_shift_south_west(x: u64)
    by (bit_vector)
    ensures
        forall|i: u64|
            i < 64 ==> ((#[trigger] (((x & !FILE_A) >> 9u64) >> i) & 1 == 1) == (i < 56 && i % 8
                != 7 && (x >> ((i + 9) as u64)) & 1 == 1)),
{
}

proof fn lemma_low_bit_nonzero(x: u64)
    by (bit_vector)
    ensures
        (x & 1 != 0) == (x & 1 == 1),
{
}

proof fn lemma_bit_and_or_xor_not(a: u64, b: u64)
    by (bit_vector)
    ensures
        forall|i: u64|
            i < 64 ==> ((#[trigger] ((a & b) >> i) & 1 == 1) == ((a >> i) & 1 == 1 && (b >> i) & 1
                == 1)),
{
}

/// A 64-bit value with no bit set is zero.
pub proof fn lemma_no_bits_zero(x: u64)
    requires
        forall|i: int| 0 <= i < 64 ==> !bit(x, i),
    ensures
        x == 0,
{
    axiom_u64_trailing_zeros(x);
    if x != 0 {
        let t = u64_trailing_zeros(x) as int;
        assert(bit(x, t));
    }
}

proof fn lemma_xor_bits(a: u64, b: u64)
    by (bit_vector)
    ensures
        forall|i: u64|
            i < 64 ==> ((#[trigger] ((a ^ b) >> i) & 1 == 1) == (((a >> i) & 1 == 1) != ((b >> i)
                & 1 == 1))),
        a ^ b == 0 ==> a == b,
{
}

/// Two bitboards that hold the same squares are equal.
pub proof fn lemma_same_squares(a: Bitboard, b: Bitboard)
    requires
        forall|i: int| 0 <= i < 64 ==> (a.has(i) <==> b.has(i)),
    ensures
        a == b,
{
    lemma_xor_bits(a.0, b.0);
    assert forall|i: int| 0 <= i < 64 implies !bit(a.0 ^ b.0, i) by {
        assert(a.has(i) <==> b.has(i));
    }
    lemma_no_bits_zero(a.0 ^ b.0);
}

proof fn lemma_ones_below_and(a: u64, b: u64, k: int)
    requires
        0 <= k <= 64,
    ensures
        ones_below(a & b, k) <= ones_below(a, k),
        ones_below(a & b, k) <= ones_below(b, k),
    decreases k,
{
    if k > 0 {
        lemma_ones_below_and(a, b, k - 1);
        lemma_bit_and_or_xor_not(a, b);
        assert(bit(a & b, k - 1) ==> bit(a, k - 1) && bit(b, k - 1));
    }
}

proof fn lemma_boolean_algebra(a: u64, b: u64, c: u64)
    by (bit_vector)
    ensures
        a & b == b & a,
        a | b == b | a,
        a ^ b == b ^ a,
        (a & b) & c == a & (b & c),
        (a | b) | c == a | (b | c),
        (a ^ b) ^ c == a ^ (b ^ c),
        !(a & b) == !a | !b,
        !(a | b) == !a & !b,
        a | !a == 0xffff_ffff_ffff_ffffu64,
        a ^ a == 0,
{
}

impl Bitboard {
    /// Whether square `i` belongs to this set.
    pub open spec fn has(self, i: int) -> bool {
        bit(self.0, i)
    }

    /// The empty set.
    pub fn empty() -> (r: Bitboard)
        ensures
            r@ == 0,
            forall|i: int| !r.has(i),
    {
        proof {
            lemma_constant_bits();
        }
        Bitboard(0)
    }

    /// The set of all 64 squares.
    pub fn universe() -> (r: Bitboard)
        ensures
            r@ == u64::MAX,
            forall|i: int| 0 <= i < 64 ==> r.has(i),
    {
        proof {
            lemma_constant_bits();
        }
        Bitboard(u64::MAX)
    }

    /// The set holding `square` alone.
    pub fn from_square(square: Square) -> (r: Bitboard)
        ensures
            forall|i: int| r.has(i) <==> i == square@,
    {
        let s = square.to_u8() as u64;
        proof {
            lemma_single_bit(s);
        }
        Bitboard(1u64 << s)
    }

    /// Adds `square` to the set.
    pub fn set_square(&mut self, square: Square)
        ensures
            forall|i: int| final(self).has(i) <==> (old(self).has(i) || i == square@),
    {
        let s = square.to_u8() as u64;
        proof {
            lemma_set_bit(self.0, s);
        }
        self.0 = self.0 | (1u64 << s);
    }

    /// Adds `square` to the set if it is absent, removes it if it is present.
    pub fn xor_square(&mut self, square: Square)
        ensures
            forall|i: int| final(self).has(i) <==> (old(self).has(i) != (i == square@)),
    {
        let s = square.to_u8() as u64;
        proof {
            lemma_toggle_bit(self.0, s);
        }
        self.0 = self.0 ^ (1u64 << s);
    }

    /// The 64-bit value, bit `i` standing for square `i`.
    pub fn to_u64(&self) -> (r: u64)
        ensures
            r == self@,
    {
        self.0
    }

    /// The value as `0x` and sixteen lower-case hexadecimal digits.
    pub fn to_hex(&self) -> (r: String)
        ensures
            r@ == hex_text(self@),
    {
        let mut r = String::new();
        push_char(&mut r, '0');
        push_char(&mut r, 'x');
        let mut k: u64 = 0;
        while k < 16
            invariant
                k <= 16,
                r@ =~= seq!['0', 'x'] + Seq::new(
                    k as nat,
                    |j: int| hex_digit(((self.0 >> ((60 - 4 * j) as u64)) & 15) as int),
                ),
            decreases 16 - k,
        {
            let y = self.0 >> (60 - 4 * k);
            let v = y & 15;
            proof {
                assert(v < 16) by (bit_vector)
                    requires
                        v == y & 15,
                ;
            }
            let c = if v < 10 {
                ((v as u8) + 48u8) as char
            } else {
                ((v as u8) + 87u8) as char
            };
            push_char(&mut r, c);
            k = k + 1;
        }
        r
    }

    /// The square of lowest index in the set, or `None` when the set is empty.
    pub fn ls1b(&self) -> (r: Option<Square>)
        ensures
            r is None <==> self@ == 0,
            r matches Some(s) ==> self.has(s@) && forall|j: int| 0 <= j < s@ ==> !self.has(j),
    {
        if self.0 == 0 {
            None
        } else {
            proof {
                axiom_u64_trailing_zeros(self.0);
            }
            let tz = self.0.trailing_zeros();
            Some(Square::from_u8(tz as u8).unwrap())
        }
    }

    /// The square of highest index in the set, or `None` when the set is empty.
    pub fn ms1b(&self) -> (r: Option<Square>)
        ensures
            r is None <==> self@ == 0,
            r matches Some(s) ==> self.has(s@) && forall|j: int| s@ < j < 64 ==> !self.has(j),
    {
        if self.0 == 0 {
            None
        } else {
            proof {
                axiom_u64_leading_zeros(self.0);
                let top = (63 - u64_leading_zeros(self.0)) as u64;
                lemma_low_bit_nonzero(self.0 >> top);
            }
            let lz = self.0.leading_zeros();
            Some(Square::from_u8((63 - lz) as u8).unwrap())
        }
    }

    /// The number of squares in the set.
    pub fn pop_count(&self) -> (r: u32)
        ensures
            r == ones(self@),
            r <= 64,
    {
        let mut n: u32 = 0;
        let mut k: u64 = 0;
        while k < 64
            invariant
                k <= 64,
                n == ones_below(self.0, k as int),
                n <= k,
            decreases 64 - k,
        {
            if (self.0 >> k) & 1 == 1 {
                n = n + 1;
            }
            k = k + 1;
        }
        n
    }

    /// Moves every square of the set one step in `direction`. Squares that
    /// would leave the board are dropped: nothing wraps from file `h` to
    /// file `a` or back.
    pub fn shift(&self, direction: Direction) -> (r: Bitboard)
        ensures
            is_shift_of(r, *self, direction),
    {
        let x = self.0;
        match direction {
            Direction::North => {
                proof {
                    lemma_shift_north(x);
                }
                Bitboard(x << 8u64)
            },
            Direction::South => {
                proof {
                    lemma_shift_south(x);
                }
                Bitboard(x >> 8u64)
            },
            Direction::East => {
                proof {
                    lemma_shift_east(x);
                }
                Bitboard((x & !FILE_H) << 1u64)
            },
            Direction::West => {
                proof {
                    lemma_shift_west(x);
                }
                Bitboard((x & !FILE_A) >> 1u64)
            },
            Direction::NorthEast => {
                proof {
                    lemma_shift_north_east(x);
                }
                Bitboard((x & !FILE_H) << 9u64)
            },
            Direction::NorthWest => {
                proof {
                    lemma_shift_north_west(x);
                }
                Bitboard((x & !FILE_A) << 7u64)
            },
            Direction::SouthEast => {
                proof {
                    lemma_shift_south_east(x);
                }
                Bitboard((x & !FILE_H) >> 7u64)
            },
            Direction::SouthWest => {
                proof {
                    lemma_shift_south_west(x);
                }
                Bitboard((x & !FILE_A) >> 9u64)
            },
        }
    }
}

impl core::ops::BitAnd for Bitboard {
    type Output = Bitboard;

    /// The squares in both sets.
    fn bitand(self, rhs: Bitboard) -> Bitboard {
        Bitboard(self.0 & rhs.0)
    }
}

impl vstd::std_specs::ops::BitAndSpecImpl for Bitboard {
    open spec fn obeys_bitand_spec() -> bool {
        true
    }

    open spec fn bitand_req(self, rhs: Bitboard) -> bool {
        true
    }

    open spec fn bitand_spec(self, rhs: Bitboard) -> Bitboard {
        Bitboard(self.0 & rhs.0)
    }
}

impl core::ops::BitOr for Bitboard {
    type Output = Bitboard;

    /// The squares in either set.
    fn bitor(self, rhs: Bitboard) -> Bitboard {
        Bitboard(self.0 | rhs.0)
    }
}

impl vstd::std_specs::ops::BitOrSpecImpl for Bitboard {
    open spec fn obeys_bitor_spec() -> bool {
        true
    }

    open spec fn bitor_req(self, rhs: Bitboard) -> bool {
        true
    }

    open spec fn bitor_spec(self, rhs: Bitboard) -> Bitboard {
        Bitboard(self.0 | rhs.0)
    }
}

impl core::ops::BitOrAssign for Bitboard {
    /// Adds the squares of `rhs` to the set.
    fn bitor_assign(&mut self, rhs: Bitboard)
        ensures
            final(self)@ == old(self)@ | rhs@,
    {
        self.0 = self.0 | rhs.0;
    }
}

impl core::ops::BitXor for Bitboard {
    type Output = Bitboard;

    /// The squares in exactly one of the two sets.
    fn bitxor(self, rhs: Bitboard) -> Bitboard {
        Bitboard(self.0 ^ rhs.0)
    }
}

impl vstd::std_specs::ops::BitXorSpecImpl for Bitboard {
    open spec fn obeys_bitxor_spec() -> bool {
        true
    }

    open spec fn bitxor_req(self, rhs: Bitboard) -> bool {
        true
    }

    open spec fn bitxor_spec(self, rhs: Bitboard) -> Bitboard {
        Bitboard(self.0 ^ rhs.0)
    }
}

impl core::ops::Not for Bitboard {
    type Output = Bitboard;

    /// The squares not in the set.
    fn not(self) -> Bitboard {
        Bitboard(!self.0)
    }
}

impl vstd::std_specs::ops::NotSpecImpl for Bitboard {
    open spec fn obeys_not_spec() -> bool {
        true
    }

    open spec fn not_req(self) -> bool {
        true
    }

    open spec fn not_spec(self) -> Bitboard {
        Bitboard(!self.0)
    }
}

/// The laws of set algebra on bitboards: intersection, union and symmetric
/// difference commute and associate, complement obeys De Morgan's laws, a set
/// and its complement make up the whole board, a set differs from itself
/// nowhere, and an intersection holds no more squares than either operand.
pub proof fn lemma_bitboard_algebra(a: Bitboard, b: Bitboard, c: Bitboard)
    ensures
        a.bitand_spec(b) == b.bitand_spec(a),
        a.bitor_spec(b) == b.bitor_spec(a),
        a.bitxor_spec(b) == b.bitxor_spec(a),
        a.bitand_spec(b).bitand_spec(c) == a.bitand_spec(b.bitand_spec(c)),
        a.bitor_spec(b).bitor_spec(c) == a.bitor_spec(b.bitor_spec(c)),
        a.bitxor_spec(b).bitxor_spec(c) == a.bitxor_spec(b.bitxor_spec(c)),
        a.bitand_spec(b).not_spec() == a.not_spec().bitor_spec(b.not_spec()),
        a.bitor_spec(b).not_spec() == a.not_spec().bitand_spec(b.not_spec()),
        a.bitor_spec(a.not_spec())@ == u64::MAX,
        a.bitxor_spec(a)@ == 0,
        ones(a.bitand_spec(b)@) <= ones(a@),
        ones(a.bitand_spec(b)@) <= ones(b@),
{
    lemma_boolean_algebra(a.0, b.0, c.0);
    lemma_ones_below_and(a.0, b.0, 64);
}

/// A square on file `h` moved one step east, north-east or south-east leaves
/// the board, as does a square on file `a` moved west, north-west or
/// south-west: the shifted set is empty.
pub proof fn lemma_shift_off_edge(b: Bitboard, r: Bitboard, d: Direction, sq: int)
    requires
        0 <= sq < 64,
        forall|i: int| b.has(i) <==> i == sq,
        is_shift_of(r, b, d),
        (sq % 8 == 7 && d.file_step() == 1) || (sq % 8 == 0 && d.file_step() == -1),
    ensures
        r@ == 0,
{
    assert forall|i: int| 0 <= i < 64 implies !bit(r@, i) by {
        if r.has(i) {
            let j = step_source(i, d)->Some_0;
            assert(b.has(j));
        }
    }
    lemma_no_bits_zero(r@);
}

} // verus!
