//! Rules engine for a two-player chess game.
//!
//! The engine decides which moves are legal, detects check, checkmate and
//! stalemate, and makes moves, castling, en passant and promotion included.
//! A host draws the board and reports which square the player chose; every
//! rule is decided here.
//!
//! - [`components`]: squares, colours, kinds of piece, pieces, game status.
//! - [`board`]: the board, at most one piece to a square.
//! - [`model`]: the rules as predicates over a map from squares to pieces.
//! - [`rules`]: the move generator, the attack detector, the check
//!   simulator and the legality filter, each proved against the model.
//! - [`notation`]: the text of the move log.
//! - [`game`]: the controller that owns board and state and is driven by
//!   one event, the activation of a square.
//! - [`laws`]: what the rules imply on every board, as proved lemmas.

pub mod board;
pub mod components;
pub mod game;
pub mod laws;
pub mod model;
pub mod notation;
pub mod rules;
