//! Rules engine for Othello/Reversi: a rectangular board of cells, move
//! legality checking, flip (capture) resolution, terminal detection, and
//! scoring, together with a turn controller that orchestrates a game.

pub mod board;
pub mod grid_position;
pub mod grid_store;
pub mod othello;
pub mod player;
pub mod text;

pub use board::Board;
pub use board::Piece;
pub use grid_position::GridPosition;
pub use othello::Othello;
pub use player::Player;
