//! Chess rules as a verified library: legal moves, check, checkmate and stalemate, move
//! application with castling and en passant, and the six-field position text.

pub mod pieces;
pub mod board;
pub mod rules;
pub mod fen;
pub mod interface;
