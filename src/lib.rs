//! A turn-based breakout game on an integer grid: a ball, a paddle on the
//! bottom row and a field of two-cell blocks in the upper half.
pub mod model;
pub mod game;
pub mod engine;
pub mod props;

pub use model::{Position, Ball, Block, Direction, Color, Event, GameError, Cell, BLOCK_SIZE, PADDLE_EXTRA, PADDLE_LEN};
pub use game::{BreakoutGame, Snapshot};
pub use props::App;
