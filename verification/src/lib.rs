//! A chess engine core: pieces, board, move rules, move generation,
//! static exchange evaluation and the search support structures.
pub mod seq_facts;
pub mod pieces;
pub mod board;
pub mod validators;
pub mod game_state;
pub mod movegen;
pub mod see;
pub mod tt;
pub mod zobrist;
pub mod rep_stack;
pub mod heuristics;
pub mod move_picker;
pub mod movers;
pub mod notation;
pub mod root_heuristics;
pub mod critical_defense;
pub mod tactics;
pub mod root_moves;
pub mod context;
pub mod search_support;
pub mod perft;
pub mod ordering;
pub mod simple_search;
pub mod search;
pub mod root_search;
