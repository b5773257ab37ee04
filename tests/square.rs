use chessboard::{Error, ParseErrorKind, Square};

#[test]
fn test_new() {
    for rank in 0..8 {
        for file in 0..8 {
            let square = Square::new(rank, file);
            assert!(square.is_ok());
            assert_eq!(square.unwrap().rank(), rank);
            assert_eq!(square.unwrap().file(), file);
        }
    }
    assert_eq!(Square::new(8, 0), Err(Error::InvalidCoordinate));
    assert_eq!(Square::new(0, 8), Err(Error::InvalidCoordinate));
    assert_eq!(Square::new(8, 8), Err(Error::InvalidCoordinate));
}

#[test]
fn test_from_u8() {
    for i in 0..64 {
        let square = Square::from_u8(i);
        assert!(square.is_ok());
        assert_eq!(square.unwrap().to_u8(), i);
    }
    assert_eq!(Square::from_u8(64), Err(Error::InvalidIndex));
    assert_eq!(Square::from_u8(255), Err(Error::InvalidIndex));
}

#[test]
fn test_file() {
    for i in 0..64 {
        let square = Square::from_u8(i).unwrap();
        assert_eq!(square.file(), i % 8);
    }
}

#[test]
fn test_rank() {
    for i in 0..64 {
        let square = Square::from_u8(i).unwrap();
        assert_eq!(square.rank(), i / 8);
    }
}

#[test]
fn test_to_u8() {
    for i in 0..64 {
        let square = Square::from_u8(i).unwrap();
        assert_eq!(square.to_u8(), i);
    }
}

#[test]
fn test_display() {
    for rank in 0..8 {
        for file in 0..8 {
            let square = Square::from_u8(file + rank * 8).unwrap();
            let expected = format!("{}{}", ('a' as u8 + file) as char, rank + 1);
            assert_eq!(square.to_text(), expected);
        }
    }
}

#[test]
fn test_parse() {
    for rank in 0..8 {
        for file in 0..8 {
            let square = Square::from_u8(file + rank * 8).unwrap();
            let expected = format!("{}{}", ('a' as u8 + file) as char, rank + 1);
            assert_eq!(Square::from_text(&expected).unwrap(), square);
        }
    }
    assert!(Square::from_text("").is_err());
    assert!(Square::from_text("a").is_err());
    assert!(Square::from_text("a1b").is_err());
    assert!(Square::from_text("i1").is_err());
    assert!(Square::from_text("01").is_err());
    assert!(Square::from_text("a0").is_err());
    assert!(Square::from_text("a9").is_err());
}

#[test]
fn square_text_round_trip_all() {
    for i in 0..64 {
        let s = Square::from_u8(i).unwrap();
        assert_eq!(Square::from_text(&s.to_text()), Ok(s));
    }
}

#[test]
fn square_text_corners() {
    assert_eq!(Square::from_u8(0).unwrap().to_text(), "a1");
    assert_eq!(Square::from_u8(63).unwrap().to_text(), "h8");
    assert_eq!(Square::from_text("e4").unwrap().to_u8(), 28);
}

#[test]
fn square_text_errors_are_typed() {
    let bad = Err(Error::ParseError(ParseErrorKind::InvalidSquareText));
    assert_eq!(Square::from_text("é1"), bad);
    assert_eq!(Square::from_text("A1"), bad);
    assert_eq!(Square::from_text(" a1"), bad);
}
