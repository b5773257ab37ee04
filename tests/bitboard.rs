use chessboard::{Bitboard, Direction, Square};

fn sq(i: u8) -> Square {
    Square::from_u8(i).unwrap()
}

#[test]
fn test_from_square() {
    for i in 0..64 {
        let square = Square::from_u8(i).unwrap();
        let bitboard = Bitboard::from_square(square);
        assert_eq!(bitboard.to_u64(), 1 << i);
    }
}

#[test]
fn test_ls1b() {
    let bitboard = Bitboard::from_square(Square::from_u8(0).unwrap());
    assert_eq!(bitboard.ls1b(), Some(Square::from_u8(0).unwrap()));
    let empty_board = Bitboard::empty();
    assert_eq!(empty_board.ls1b(), None);
}

#[test]
fn test_ms1b() {
    let bitboard = Bitboard::from_square(Square::from_u8(63).unwrap());
    assert_eq!(bitboard.ms1b(), Some(Square::from_u8(63).unwrap()));
    let empty_board = Bitboard::empty();
    assert_eq!(empty_board.ms1b(), None);
}

#[test]
fn test_pop_count() {
    let mut bitboard = Bitboard::empty();
    assert_eq!(bitboard.pop_count(), 0);
    bitboard.xor_square(Square::from_u8(0).unwrap());
    assert_eq!(bitboard.pop_count(), 1);
    bitboard.xor_square(Square::from_u8(1).unwrap());
    assert_eq!(bitboard.pop_count(), 2);
    bitboard.xor_square(Square::from_u8(0).unwrap());
    assert_eq!(bitboard.pop_count(), 1);
}

#[test]
fn test_to_u64() {
    let bitboard = Bitboard::from_square(Square::from_u8(0).unwrap());
    assert_eq!(bitboard.to_u64(), 1);
    let full_board = Bitboard::universe();
    assert_eq!(full_board.to_u64(), u64::MAX);
}

#[test]
fn test_debug() {
    let bitboard = Bitboard::from_square(Square::from_u8(0).unwrap());
    assert_eq!(bitboard.to_hex(), "0x0000000000000001");
    let full_board = Bitboard::universe();
    assert_eq!(full_board.to_hex(), "0xffffffffffffffff");
}

#[test]
fn hex_digits_in_order() {
    assert_eq!(Bitboard(0x0123_4567_89ab_cdef).to_hex(), "0x0123456789abcdef");
    assert_eq!(Bitboard::empty().to_hex(), "0x0000000000000000");
}

#[test]
fn empty_and_universe() {
    assert_eq!(Bitboard::empty().to_u64(), 0);
    assert_eq!(Bitboard::universe().pop_count(), 64);
    assert_eq!(Bitboard::empty().pop_count(), 0);
}

#[test]
fn set_square_is_idempotent() {
    let mut b = Bitboard::empty();
    b.set_square(sq(10));
    b.set_square(sq(10));
    assert_eq!(b.to_u64(), 1 << 10);
    b.set_square(sq(63));
    assert_eq!(b.to_u64(), (1 << 10) | (1 << 63));
}

#[test]
fn toggle_twice_restores() {
    let mut b = Bitboard(0x00f0_0000_0000_0f00);
    let before = b;
    b.xor_square(sq(37));
    assert_ne!(b, before);
    b.xor_square(sq(37));
    assert_eq!(b, before);
}

#[test]
fn lowest_and_highest_of_several() {
    let b = Bitboard((1 << 5) | (1 << 17) | (1 << 40));
    assert_eq!(b.ls1b(), Some(sq(5)));
    assert_eq!(b.ms1b(), Some(sq(40)));
    assert_eq!(b.pop_count(), 3);
    assert_eq!(Bitboard::universe().ls1b(), Some(sq(0)));
    assert_eq!(Bitboard::universe().ms1b(), Some(sq(63)));
}

#[test]
fn lowest_and_highest_of_empty() {
    assert_eq!(Bitboard::empty().ls1b(), None);
    assert_eq!(Bitboard::empty().ms1b(), None);
}

#[test]
fn set_algebra_laws() {
    let values = [
        0u64,
        u64::MAX,
        0x0123_4567_89ab_cdef,
        0xff00_ff00_00ff_00ff,
        0x8000_0000_0000_0001,
        0x0000_ffff_0000_0000,
    ];
    for &x in values.iter() {
        for &y in values.iter() {
            let a = Bitboard(x);
            let b = Bitboard(y);
            assert_eq!(a & b, b & a);
            assert_eq!(a | b, b | a);
            assert_eq!(a ^ b, b ^ a);
            assert_eq!(a | !a, Bitboard::universe());
            assert_eq!(a ^ a, Bitboard::empty());
            assert_eq!(!(a & b), !a | !b);
            assert_eq!(!(a | b), !a & !b);
            let both = (a & b).pop_count();
            assert!(both <= a.pop_count().min(b.pop_count()));
        }
    }
}

#[test]
fn operators_exact_values() {
    let a = Bitboard(0b1100);
    let b = Bitboard(0b1010);
    assert_eq!((a & b).to_u64(), 0b1000);
    assert_eq!((a | b).to_u64(), 0b1110);
    assert_eq!((a ^ b).to_u64(), 0b0110);
    assert_eq!((!a).to_u64(), !0b1100u64);
}

#[test]
fn shift_does_not_wrap_off_file_h() {
    for r in 0..8 {
        let h = Bitboard::from_square(Square::new(r, 7).unwrap());
        assert_eq!(h.shift(Direction::East), Bitboard::empty());
        assert_eq!(h.shift(Direction::NorthEast), Bitboard::empty());
        assert_eq!(h.shift(Direction::SouthEast), Bitboard::empty());
    }
}

#[test]
fn shift_does_not_wrap_off_file_a() {
    for r in 0..8 {
        let a = Bitboard::from_square(Square::new(r, 0).unwrap());
        assert_eq!(a.shift(Direction::West), Bitboard::empty());
        assert_eq!(a.shift(Direction::NorthWest), Bitboard::empty());
        assert_eq!(a.shift(Direction::SouthWest), Bitboard::empty());
    }
}

#[test]
fn shift_moves_one_step() {
    let e4 = Bitboard::from_square(Square::new(3, 4).unwrap());
    let at = |r: u8, f: u8| Bitboard::from_square(Square::new(r, f).unwrap());
    assert_eq!(e4.shift(Direction::North), at(4, 4));
    assert_eq!(e4.shift(Direction::South), at(2, 4));
    assert_eq!(e4.shift(Direction::East), at(3, 5));
    assert_eq!(e4.shift(Direction::West), at(3, 3));
    assert_eq!(e4.shift(Direction::NorthEast), at(4, 5));
    assert_eq!(e4.shift(Direction::NorthWest), at(4, 3));
    assert_eq!(e4.shift(Direction::SouthEast), at(2, 5));
    assert_eq!(e4.shift(Direction::SouthWest), at(2, 3));
}

#[test]
fn shift_off_top_and_bottom_ranks() {
    let rank8 = Bitboard(0xff00_0000_0000_0000);
    let rank1 = Bitboard(0xff);
    assert_eq!(rank8.shift(Direction::North), Bitboard::empty());
    assert_eq!(rank1.shift(Direction::South), Bitboard::empty());
    assert_eq!(rank1.shift(Direction::North).to_u64(), 0xff00);
    assert_eq!(Bitboard::universe().shift(Direction::East).to_u64(), 0xfefe_fefe_fefe_fefe);
    assert_eq!(Bitboard::universe().shift(Direction::West).to_u64(), 0x7f7f_7f7f_7f7f_7f7f);
}

#[test]
fn or_assign_adds_squares() {
    let mut b = Bitboard(0b0011);
    b |= Bitboard(0b0110);
    assert_eq!(b.to_u64(), 0b0111);
}
