//! A chess engine built on bitboards: board representation, move encoding,
//! move generation, hashing, evaluation and alpha-beta search.

pub mod bits;
pub mod bitboard;
pub mod color;
pub mod piece;
pub mod square;
pub mod castling;
pub mod text;
pub mod moves;
pub mod attacks;
pub mod lines;
pub mod keys;
pub mod repetition;
pub mod position;
pub mod zobrist;
pub mod make_move;
pub mod move_list;
pub mod movegen;
pub mod legality;
pub mod fen;
pub mod fen_law;
pub mod evaluation;
pub mod score;
pub mod tt;
pub mod pv_table;
pub mod search_args;
pub mod clock;
pub mod search;
pub mod uci;
pub mod perft;
pub mod interface;
