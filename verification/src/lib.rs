//! Core state machine of a minesweeper game: board construction with random
//! mine placement, neighbour enumeration, adjacency counts, cell opening and
//! flag toggling, plus a textual rendering of the board state.

pub mod board;
pub mod random;
