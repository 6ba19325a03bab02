//! Conway's Game of Life on a bounded board, with the rules of the game, the
//! placement of the board in a window and the controls of a simulation
//! stated as contracts and proved.
//!
//! - [`grid`]: the mathematical model of a board and the laws of the game.
//! - [`matrix`]: the board itself.
//! - [`life`]: the rule for one cell and the step to the next generation.
//! - [`patterns`]: a still life and an oscillator, and what becomes of them.
//! - [`seed`]: boards seeded at random.
//! - [`layout`]: between pixels of a window and cells of the board.
//! - [`game`]: the simulation, with play, pause, speed and the user's edits.

pub mod game;
pub mod grid;
pub mod layout;
pub mod life;
pub mod matrix;
pub mod patterns;
pub mod seed;
