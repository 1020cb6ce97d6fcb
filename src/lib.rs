//! Core of a Go rules engine: a padded vertex array with chain and liberty
//! bookkeeping, incremental Zobrist hashing and Tromp-Taylor area scoring.
pub mod color;
pub mod point;
pub mod vertex;
pub mod zobrist;
pub mod board_fast;
pub mod board;
pub mod score;
pub mod laws;

pub use color::Color;
pub use point::Point;
pub use board_fast::{Block, BoardFast};
pub use board::Board;
pub use score::{Score, StoneStatus};
