//! Rule engine and game-tree search for a penguin fishing game played on an
//! 8x8 grid of hexagonal ice floes.

pub mod control;
pub mod deepening;
pub mod game;
pub mod minimax;
pub mod minimax_laws;
pub mod ordering;
pub mod randmax;
pub mod scoring_funcs;
pub mod spots;
pub mod territory;
