//! Chess positions held as bitboards, with a verified codec for the
//! Forsyth–Edwards notation (FEN).

pub mod bitboard;
pub mod castling;
pub mod color;
pub mod error;
pub mod piece;
pub mod placement;
pub mod position;
pub mod square;
pub mod text;

pub use bitboard::{Bitboard, Direction};
pub use castling::CastlingAvailability;
pub use color::ActiveColor;
pub use error::{Error, ParseErrorKind};
pub use piece::Piece;
pub use placement::PiecePlacementData;
pub use position::Position;
pub use square::Square;
