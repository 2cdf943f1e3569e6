//! A perfect maze over a rectangular grid: generation by randomized
//! depth-first search, and single-step navigation from the start cell to
//! the end cell.

pub mod generator;
pub mod graph;
pub mod grid;
pub mod keys;
pub mod maze;
pub mod random;
pub mod render;
pub mod session;
pub mod tree;

pub use grid::Direction;
pub use grid::Position;
pub use maze::Maze;
pub use session::play;
pub use session::Command;
pub use session::Outcome;
