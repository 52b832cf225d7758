//! A Minesweeper engine: board generation, neighbour counts, flood-fill
//! reveal, flags, hover preview and the playing / won / lost state machine.
//!
//! [`field::Game`] is the game. Every move on it is stated over a
//! mathematical model of the game, [`model::GameView`], and proved against
//! it; what holds of the model from one move to the next is proved in
//! [`model`]. The board alone is the business of [`grid`], laying mines of
//! [`minefield`], and the spreading reveal of [`region`]. [`dice`] and
//! [`clock`] are the two places where the engine reaches outside: for random
//! numbers and for the time.

pub mod clock;
pub mod dice;
pub mod field;
pub mod grid;
pub mod minefield;
pub mod model;
pub mod region;
