//! A bitboard chess position with pseudo-legal move generation and move application.
pub mod bits;
pub mod moves;
pub mod rays;
pub mod position;
pub mod laws;
