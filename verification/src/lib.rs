//! Rules engine of a Minesweeper game: a rectangular grid of cells, mine
//! placement with adjacency counts, and the transitions of a game between
//! in progress, won and lost.

pub mod adjacency;
pub mod board;
pub mod generate;
pub mod observe;
pub mod play;
pub mod sampling;
