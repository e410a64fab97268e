//! A Reversi (Othello) engine: board representations that are proved to
//! follow one set of rules, and a depth-bounded game-tree search over them.
//!
//! - `rules` defines the game as mathematics over 64 cells; `laws` holds what
//!   follows for every board and every search.
//! - `array_board`, `index_board` with its `indexer`, `bit_board` and
//!   `grid_board` are the boards; `board` is what they have in common.
//! - `evaluator` judges positions; `game_tree` searches without keeping the
//!   tree, `nega_max` and `nega_alpha` keep it; `node`, `game_tree_node` and
//!   `reversi_node` are the nodes.
//! - `game` is what a driver and its players see; `api` and `boundary` speak
//!   to hosts in plain numbers.

pub mod common;
pub mod rules;
pub mod board;
pub mod array_board;
pub mod indexer;
pub mod index_board;
pub mod grid_board;
pub mod bits;
pub mod bit_board;
pub mod evaluator;
pub mod game_tree;
pub mod laws;
pub mod game;
pub mod game_tree_node;
pub mod reversi_node;
pub mod node;
pub mod nega_max;
pub mod nega_alpha;
pub mod api;
pub mod boundary;
