//! A mailbox chess move generator with make/unmake, a Zobrist-keyed
//! transposition cache and a perft driver.

pub mod color;
pub mod square;
pub mod rand;
pub mod piece;
pub mod buffer;
pub mod chess_move;
pub mod castling;
pub mod zobrist;
pub mod board;
pub mod text;
pub mod rules;
pub mod move_generator;
pub mod laws;
pub mod generation;
pub mod transposition_table;
pub mod perft;
pub mod movegen_laws;
