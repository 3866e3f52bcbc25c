//! A verified chess rules engine.
//!
//! The engine keeps the board state, enumerates legal moves, detects
//! check, checkmate and stalemate, and applies the special moves
//! (castling, the double pawn push, promotion to queen).  Rendering and
//! input handling are left to the caller, which only needs a read-only
//! view of the grid, the current game status, and one entry point that
//! takes a clicked (column, row) coordinate.

pub mod apply;
pub mod attack;
pub mod board;
pub mod game;
pub mod laws;
pub mod legality;
pub mod moves;
pub mod piece;
