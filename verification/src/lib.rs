//! Checkers on an 8×8 board: the rules of the game as a mathematical model,
//! an executable board proved to follow that model, and move selectors
//! (a depth-bounded negamax search and a uniform random pick).

pub mod board;
pub mod rules;
pub mod sequences;
pub mod legality;
pub mod invariants;
pub mod laws;
pub mod player_minmax;
pub mod player_random;
pub mod gui;
