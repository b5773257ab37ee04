use chessboard::{
    ActiveColor, Bitboard, CastlingAvailability, Error, ParseErrorKind, Piece, PiecePlacementData,
    Position, Square,
};

const START: &str = "rnbqkbnr/pppppppp/8/8/8/8/PPPPPPPP/RNBQKBNR w KQkq - 0 1";

fn parse_error(kind: ParseErrorKind) -> Error {
    Error::ParseError(kind)
}

#[test]
fn start_position_round_trips_exactly() {
    let p = Position::from_fen(START).unwrap();
    assert_eq!(p.to_fen(), START);
}

#[test]
fn new_is_the_start_position() {
    let p = Position::new();
    assert_eq!(p, Position::from_fen(START).unwrap());
    let white_king = p.piece_placement_data.0[Piece::WhiteKing.index()];
    assert_eq!(white_king.pop_count(), 1);
    assert_eq!(white_king.ls1b(), Some(Square::from_u8(4).unwrap()));
    assert_eq!(p.active_color, ActiveColor::White);
    assert_eq!(p.en_passant_target_square, None);
    assert_eq!(p.halfmove_clock, 0);
    assert_eq!(p.fullmove_number, 1);
    assert_eq!(p.to_fen(), START);
}

#[test]
fn decode_of_encode_is_identity() {
    let lines = [
        "r3k2r/8/8/3pP3/8/8/8/R3K2R w Kq d6 12 40",
        "8/8/8/8/8/8/8/8 b - - 0 1",
        "4k3/8/8/8/8/8/8/4K3 w - e3 255 65535",
        "rnbqkbnr/pp1ppppp/8/2p5/4P3/8/PPPP1PPP/RNBQKBNR w KQkq c6 0 2",
    ];
    for line in lines.iter() {
        let p = Position::from_fen(line).unwrap();
        let q = Position::from_fen(&p.to_fen()).unwrap();
        assert_eq!(p, q);
        assert_eq!(p.to_fen(), *line);
    }
}

#[test]
fn malformed_rank_is_rejected() {
    assert_eq!(
        PiecePlacementData::from_text("9/8/8/8/8/8/8/8"),
        Err(parse_error(ParseErrorKind::MalformedPlacement))
    );
    assert_eq!(
        Position::from_fen("9/8/8/8/8/8/8/8 w - - 0 1"),
        Err(parse_error(ParseErrorKind::MalformedPlacement))
    );
}

#[test]
fn placement_shapes_rejected() {
    let bad = Err(parse_error(ParseErrorKind::MalformedPlacement));
    assert_eq!(PiecePlacementData::from_text("7/8/8/8/8/8/8/8"), bad);
    assert_eq!(PiecePlacementData::from_text("p8/8/8/8/8/8/8/8"), bad);
    assert_eq!(PiecePlacementData::from_text("44p/8/8/8/8/8/8/8"), bad);
    assert_eq!(PiecePlacementData::from_text("8/8/8/8/8/8/8"), bad);
    assert_eq!(PiecePlacementData::from_text("8/8/8/8/8/8/8/8/8"), bad);
    assert_eq!(PiecePlacementData::from_text("8/8/8/8/8/8/8/7x"), bad);
    assert_eq!(PiecePlacementData::from_text("0/8/8/8/8/8/8/8"), bad);
    assert_eq!(PiecePlacementData::from_text(""), bad);
    assert_eq!(PiecePlacementData::from_text("8/8/8/8/8/8/8/8/"), bad);
}

#[test]
fn placement_sets_the_right_squares() {
    let p = PiecePlacementData::from_text("k7/8/8/8/8/8/8/7K").unwrap();
    assert_eq!(p.0[Piece::WhiteKing.index()].to_u64(), 1 << 7);
    assert_eq!(p.0[Piece::BlackKing.index()].to_u64(), 1 << 56);
    for b in 0..12 {
        if b != Piece::WhiteKing.index() && b != Piece::BlackKing.index() {
            assert_eq!(p.0[b], Bitboard::empty());
        }
    }
    assert_eq!(p.to_text(), "k7/8/8/8/8/8/8/7K");
}

#[test]
fn first_board_wins_when_encoding() {
    let mut boards = [Bitboard::empty(); 12];
    boards[Piece::WhiteQueen.index()] = Bitboard(1);
    boards[Piece::BlackPawn.index()] = Bitboard(1);
    let p = PiecePlacementData(boards);
    assert_eq!(p.piece_at(Square::from_u8(0).unwrap()), Some(Piece::WhiteQueen));
    assert_eq!(p.piece_at(Square::from_u8(1).unwrap()), None);
    assert_eq!(p.to_text(), "8/8/8/8/8/8/8/Q7");
}

#[test]
fn missing_field() {
    assert_eq!(
        Position::from_fen("8/8/8/8/8/8/8/8 w"),
        Err(parse_error(ParseErrorKind::MissingField))
    );
    assert_eq!(Position::from_fen(""), Err(parse_error(ParseErrorKind::MissingField)));
    assert_eq!(
        Position::from_fen("8/8/8/8/8/8/8/8 w - - 0"),
        Err(parse_error(ParseErrorKind::MissingField))
    );
}

#[test]
fn each_field_reports_its_error() {
    assert_eq!(
        Position::from_fen("8/8/8/8/8/8/8/8 x - - 0 1"),
        Err(parse_error(ParseErrorKind::InvalidColorChar))
    );
    assert_eq!(
        Position::from_fen("8/8/8/8/8/8/8/8 w KK - 0 1"),
        Err(parse_error(ParseErrorKind::InvalidCastlingChar))
    );
    assert_eq!(
        Position::from_fen("8/8/8/8/8/8/8/8 w - e9 0 1"),
        Err(parse_error(ParseErrorKind::InvalidSquareText))
    );
    assert_eq!(
        Position::from_fen("8/8/8/8/8/8/8/8 w - - x 1"),
        Err(parse_error(ParseErrorKind::InvalidNumber))
    );
    assert_eq!(
        Position::from_fen("8/8/8/8/8/8/8/8 w - - 256 1"),
        Err(parse_error(ParseErrorKind::InvalidNumber))
    );
    assert_eq!(
        Position::from_fen("8/8/8/8/8/8/8/8 w - - 0 65536"),
        Err(parse_error(ParseErrorKind::InvalidNumber))
    );
    assert_eq!(
        Position::from_fen("8/8/8/8/8/8/8/8 w - - -1 1"),
        Err(parse_error(ParseErrorKind::InvalidNumber))
    );
}

#[test]
fn first_bad_field_decides_the_error() {
    assert_eq!(
        Position::from_fen("9/8/8/8/8/8/8/8 x KK e9 x x"),
        Err(parse_error(ParseErrorKind::MalformedPlacement))
    );
    assert_eq!(
        Position::from_fen("8/8/8/8/8/8/8/8 w KK e9 x x"),
        Err(parse_error(ParseErrorKind::InvalidCastlingChar))
    );
}

#[test]
fn extra_fields_are_ignored() {
    let p = Position::from_fen("8/8/8/8/8/8/8/8 b - - 3 7 extra tokens").unwrap();
    assert_eq!(p.active_color, ActiveColor::Black);
    assert_eq!(p.halfmove_clock, 3);
    assert_eq!(p.fullmove_number, 7);
    assert_eq!(p.to_fen(), "8/8/8/8/8/8/8/8 b - - 3 7");
}

#[test]
fn any_white_space_separates_fields() {
    let p = Position::from_fen("  8/8/8/8/8/8/8/8\tw\n-  -   0 1  ").unwrap();
    assert_eq!(p.to_fen(), "8/8/8/8/8/8/8/8 w - - 0 1");
}

#[test]
fn counters_read_in_decimal() {
    let p = Position::from_fen("8/8/8/8/8/8/8/8 w - - 007 120").unwrap();
    assert_eq!(p.halfmove_clock, 7);
    assert_eq!(p.fullmove_number, 120);
    assert_eq!(p.to_fen(), "8/8/8/8/8/8/8/8 w - - 7 120");
}

#[test]
fn en_passant_square_is_read() {
    let p = Position::from_fen("8/8/8/8/8/8/8/8 b - e3 0 1").unwrap();
    assert_eq!(p.en_passant_target_square, Some(Square::from_text("e3").unwrap()));
}

#[test]
fn active_color_codec() {
    assert_eq!(ActiveColor::from_text("w"), Ok(ActiveColor::White));
    assert_eq!(ActiveColor::from_text("b"), Ok(ActiveColor::Black));
    assert_eq!(
        ActiveColor::from_text("W"),
        Err(parse_error(ParseErrorKind::InvalidColorChar))
    );
    assert_eq!(
        ActiveColor::from_text("wb"),
        Err(parse_error(ParseErrorKind::InvalidColorChar))
    );
    assert_eq!(ActiveColor::White.to_text(), "w");
    assert_eq!(ActiveColor::Black.to_text(), "b");
}

#[test]
fn castling_codec() {
    let all = CastlingAvailability {
        white_king_side: true,
        white_queen_side: true,
        black_king_side: true,
        black_queen_side: true,
    };
    let none = CastlingAvailability {
        white_king_side: false,
        white_queen_side: false,
        black_king_side: false,
        black_queen_side: false,
    };
    let kq = CastlingAvailability {
        white_king_side: true,
        white_queen_side: false,
        black_king_side: false,
        black_queen_side: true,
    };
    assert_eq!(CastlingAvailability::from_text("KQkq"), Ok(all));
    assert_eq!(CastlingAvailability::from_text("-"), Ok(none));
    assert_eq!(CastlingAvailability::from_text("Kq"), Ok(kq));
    assert_eq!(all.to_text(), "KQkq");
    assert_eq!(none.to_text(), "-");
    assert_eq!(kq.to_text(), "Kq");
    let bad = Err(parse_error(ParseErrorKind::InvalidCastlingChar));
    assert_eq!(CastlingAvailability::from_text("qK"), bad);
    assert_eq!(CastlingAvailability::from_text("KK"), bad);
    assert_eq!(CastlingAvailability::from_text("K-"), bad);
    assert_eq!(CastlingAvailability::from_text("X"), bad);
    assert_eq!(CastlingAvailability::from_text(""), bad);
}

#[test]
fn piece_tables_agree() {
    for i in 0..12 {
        let p = Piece::from_index(i).unwrap();
        assert_eq!(p.index(), i);
        assert_eq!(Piece::from_letter(p.letter()), Some(p));
    }
    assert_eq!(Piece::from_index(12), None);
    assert_eq!(Piece::from_letter('x'), None);
    assert_eq!(Piece::WhiteKing.letter(), 'K');
    assert_eq!(Piece::BlackPawn.letter(), 'p');
}

#[test]
fn decoded_boards_never_share_a_square() {
    let lines = [
        START,
        "r3k2r/8/8/3pP3/8/8/8/R3K2R w Kq d6 12 40",
        "rnbqkbnr/pp1ppppp/8/2p5/4P3/8/PPPP1PPP/RNBQKBNR w KQkq c6 0 2",
    ];
    for line in lines.iter() {
        let boards = Position::from_fen(line).unwrap().piece_placement_data.0;
        for i in 0..12 {
            for j in 0..12 {
                if i != j {
                    assert_eq!(boards[i] & boards[j], Bitboard::empty());
                }
            }
        }
    }
}
