//! Game-logic engine of a falling-block puzzle: board, pieces, collision,
//! rotation with kicks, locking, line clearing, gravity timing, scoring and
//! the playing / paused / game-over state machine.
pub mod board;
pub mod game;
pub mod piece;
pub mod shapes;

pub use board::{Board, BOARD_HEIGHT, BOARD_WIDTH};
pub use game::{
    drop_position, GameEngine, GameState, GravityResult, Intent, Snapshot, GRAVITY_MS, MAX_SCORE,
    POINTS_PER_LINE, SOFT_DROP_GRAVITY_MS,
};
pub use piece::Piece;
pub use shapes::{rotate_offset_exec, shape_cell, SHAPE_COUNT};
