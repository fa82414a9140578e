//! Core of a Sudoku-family grid puzzle: size-tagged digits that are always in
//! range for their board, board and note state, row/column/box peer relations,
//! difficulty-driven masking of a solved grid, and digit-key dispatch.
//!
//! Rendering, windowing and the puzzle generator are external collaborators;
//! this crate holds the rules they drive.

pub mod board;
pub mod digit;
pub mod errors;
pub mod game;
pub mod location;
pub mod mask;
pub mod notes;
pub mod relations;
pub mod router;
