//! A small maze game library: a rectangular grid of cells, a randomized
//! maze generator with a connectivity repair pass, a breadth-first
//! reachability checker, and the movement logic of a single player.

pub mod count;
pub mod game;
pub mod gen;
pub mod grid;
pub mod reach;
mod rng;

pub use game::Direction;
pub use game::Game;
pub use gen::generate;
pub use grid::Cell;
pub use grid::Grid;
pub use grid::MazeError;
pub use reach::carve_path;
pub use reach::is_reachable;
