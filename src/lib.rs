//! Game-state engine of a falling-block puzzle on a 20 x 10 grid.
//!
//! The engine covers the piece catalog, the board, placement and collision,
//! moves, rotation with wall kicks, settling, row collapse and the decisions
//! of the control loop. Drawing and reading keys are left to the caller.
pub mod board;
pub mod control;
pub mod game;
pub mod piece;

pub use board::{Board, COLS, ROWS};
pub use control::{apply_input, fall_step, falling_cells, Controller, Input};
pub use game::{collapse_rows, is_drawable, rotate_block, settle_block, spawn_block, try_move, Game};
pub use piece::{block_from_index, block_index, init_blocks, random_block, Block, BlockType};
