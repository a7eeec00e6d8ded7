pub mod bitboard;
pub mod board;
pub mod move_gen;
pub mod zobrist;
pub mod make_move;
pub mod search;
mod sync;
pub mod nnue;
pub mod position;
pub mod game;
pub mod augment;
pub mod features;
pub mod hash_update;
pub mod accumulator_update;
pub mod engine;
