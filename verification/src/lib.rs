//! A chess rules engine: board representation, per-piece move generation with
//! full legality filtering (blocking, capture, pawn double-step and diagonal
//! capture, self-check prevention), check detection, and a game state machine
//! that classifies positions as in progress, check, checkmate or stalemate.
//!
//! Castling, en passant and promotion are out of scope; the engine exposes a
//! coordinate notation ("A1".."H8") at its boundary.

pub mod board;
pub mod check;
pub mod codec;
pub mod game;
pub mod moves;
pub mod piece;

pub use board::generate_board;
pub use codec::{as_coordinate, as_standard_notation, parse_coordinate};
pub use game::{Game, GameState, MoveError};
pub use moves::{calculate_possible_moves, move_in_bounds};
pub use piece::{Color, Piece, PieceType};
