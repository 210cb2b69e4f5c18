//! The rules of play: threats, legal moves, material and search.

pub mod offsets;
pub mod analysis;
pub mod moves;
pub mod score;
pub mod score_deep;
pub mod mate;
pub mod replies;

pub use offsets::{BISHOP_OFFSETS, KING_OFFSETS, KNIGHT_OFFSETS, ROOK_OFFSETS};
pub use analysis::{is_checked, is_threatened_by};
pub use moves::next_boards;
pub use score::score_board;
pub use score_deep::{scored_next_boards, DeepScore, Search, Worker};
