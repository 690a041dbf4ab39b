//! Decision engine for a two-player grid pursuit game on a 16x16 board.
//!
//! Players move one step per turn into an empty orthogonal neighbor cell;
//! every cell a player vacates becomes a permanent wall; a player with no
//! empty neighbor must pass. The engine rebuilds the board from a textual
//! snapshot each turn and chooses a move by adversarial search over a
//! territory heuristic.

pub mod board;
pub mod board_distance;
pub mod bot;
pub mod richard_bot;
pub mod search;
pub mod starter_bot;
pub mod territory;
pub mod transposition;
pub mod types;
