//! A small chess rules engine: board representation, pseudo-legal move
//! generation, make/unmake of moves and perft/divide tree enumeration.
pub mod board;
pub mod color;
pub mod fen;
pub mod generator;
pub mod geometry;
pub mod moves;
pub mod notation;
pub mod perft;
pub mod piece;

pub use board::Board;
pub use color::{inverse_color, Color};
pub use fen::FenError;
pub use moves::Move;
pub use perft::PerftResult;
pub use piece::Piece;
