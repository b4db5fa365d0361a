//! The rules engine of a Minesweeper-style puzzle.

pub mod board;
pub mod button_cell;
pub mod cell;
pub mod clock;
pub mod error;
pub mod game;
pub mod grid;
pub mod lists;
pub mod region;
pub mod rng;
pub mod rules;
pub mod state;
