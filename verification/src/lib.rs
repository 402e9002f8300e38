//! A tic-tac-toe library: a 3x3 board model and an exhaustive game-tree
//! evaluator. The evaluator computes, for a chosen player and objective, the
//! probability that the objective is reached when that player always picks the
//! best move and the other side is averaged uniformly over its legal replies.
//! Probabilities are exact: every value arising in the search is a multiple of
//! 1/725760 (that is, 1/(2 * 9!)), so they are carried as integer numerators
//! over that fixed denominator.

pub mod board;
pub mod eval;
