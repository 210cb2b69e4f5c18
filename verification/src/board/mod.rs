//! The board model: colors, pieces, squares, coordinates and the board itself.

pub mod color;
pub mod kind;
pub mod piece;
pub mod square;
pub mod coordinates;
pub mod position;
pub mod board;
pub mod diagram;
pub mod parser;
pub mod round_trip;

pub use color::Color;
pub use kind::Kind;
pub use piece::Piece;
pub use square::Square;
pub use coordinates::{Coordinates, File, Rank};
pub use position::Position;
pub use board::{Board, BoardView, CastlingSide};
pub use parser::{parse_board, ParseBoardError};
