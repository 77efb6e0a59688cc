//! A chess engine kernel: board state with make/undo/redo, legal move
//! generation, Zobrist hashing, a transposition table and an
//! iterative-deepening alpha-beta search.

pub mod piece;
pub mod square;
pub mod board;
pub mod attack;
pub mod movegen;
pub mod laws;
pub mod transposition;
pub mod zobrist;
pub mod hash_laws;
pub mod eval;
pub mod position;
pub mod quiet;
pub mod search;
pub mod text;
pub mod fen;
pub mod fen_laws;
pub mod input;
pub mod bytes;
pub mod auth;
pub mod settings;
pub mod layout;
