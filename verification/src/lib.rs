//! A single-player sudoku engine: a solved board, the cells hidden from the
//! player, the player's answers, and the rules that judge them.
//!
//! - [`board`]: solved boards and where they come from.
//! - [`mask`]: the difficulty tiers and the cells each one hides.
//! - [`model`]: the mathematical model of a game and of every move.
//! - [`game`]: the game itself.
//! - [`input`]: from a pointer position to the cell under it.
//! - [`laws`]: what holds of every game.

pub mod board;
pub mod cell;
pub mod game;
pub mod input;
pub mod laws;
pub mod mask;
pub mod model;

pub use cell::Cell;
pub use game::Game;
pub use input::map_pointer;
pub use mask::Difficult;
pub use model::Input;
