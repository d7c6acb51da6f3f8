//! A verified engine for Conway's Game of Life on a finite rectangular grid.
//!
//! The engine owns the two-dimensional boolean cell matrix and offers
//! construction from a text describing generation zero, a single synchronous
//! evolution step, and rendering of a generation back to text.  Everything
//! around it (reading the input file, clearing the screen, the animation
//! loop) is a thin driver that calls into the engine once per frame.

pub mod config;
pub mod grid;
pub mod parse;
pub mod render;

pub use config::Config;
pub use grid::Game;
pub use grid::GridError;
pub use render::game_as_string;
