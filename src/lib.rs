//! Conway's Game of Life on a board that grows whenever living cells reach
//! its border.

pub mod grid;
pub mod pattern;
pub mod render;

pub use grid::{Board, Cell, Direction, Grid};
pub use pattern::{parse_pattern_file, PatternError};
