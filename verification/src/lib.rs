//! Core simulation of a single-player block-breaking arcade game.
//!
//! The library holds the verified game logic: axis-aligned collision
//! detection with positional correction, the entity updates (paddle, ball,
//! block), the board initializer, the per-frame round controller and the
//! top-level game-state machine.  Rendering, input polling and timing live
//! outside the library; they hand in plain values (key states, a frame
//! duration) and read plain values back (drawable rectangles with a color
//! tag).
//!
//! All coordinates are stored in thousandths of a pixel (milli-pixels) and
//! every duration in whole milliseconds, so the whole simulation is exact
//! integer arithmetic.  A ball's velocity direction is a pair of components
//! scaled by `DIR_SCALE`: the vector `(0, DIR_SCALE)` is the unit vector
//! pointing straight down.

use vstd::prelude::*;

pub mod geom;
pub mod entities;
pub mod rng;
pub mod board;
pub mod round;
pub mod game;

verus! {

/// Screen width in milli-pixels (800 pixels).
pub const SCREEN_W: i64 = 800_000;
/// Screen height in milli-pixels (600 pixels).
pub const SCREEN_H: i64 = 600_000;

/// Paddle width in milli-pixels (150 pixels).
pub const PADDLE_W: i64 = 150_000;
/// Paddle height in milli-pixels (40 pixels).
pub const PADDLE_H: i64 = 40_000;
/// Paddle speed in milli-pixels per second (700 pixels/s).
pub const PADDLE_SPEED: i64 = 700_000;

/// Block width in milli-pixels (100 pixels).
pub const BLOCK_W: i64 = 100_000;
/// Block height in milli-pixels (40 pixels).
pub const BLOCK_H: i64 = 40_000;

/// Ball side length in milli-pixels (50 pixels); the ball is a square.
pub const BALL_SIZE: i64 = 50_000;
/// Ball speed in milli-pixels per second (450 pixels/s).
pub const BALL_SPEED: i64 = 450_000;

/// Fixed-point scale of a velocity direction: a unit vector has squared
/// length `DIR_SCALE * DIR_SCALE` (up to rounding of the normalizer).
pub const DIR_SCALE: i64 = 1_000;

/// Largest frame duration the simulation accepts, in milliseconds.  The
/// bound keeps every fixed-point product inside `i64`.
pub const DT_MAX_MS: i64 = 1_000;

/// Farthest a ball can travel in one frame, in milli-pixels:
/// `BALL_SPEED * DT_MAX_MS / 1000`.
pub const MAX_STEP: i64 = 450_000;

/// Number of hits a fresh block absorbs before it is destroyed.
pub const BLOCK_START_LIVES: i32 = 2;
/// Number of lives a player starts a round with.
pub const START_LIVES: i32 = 3;
/// Score awarded for each destroyed block.
pub const SCORE_PER_BLOCK: i32 = 10;

/// Columns of the block grid.
pub const GRID_W: usize = 6;
/// Rows of the block grid.
pub const GRID_H: usize = 5;
/// Gap between neighbouring blocks, in milli-pixels (5 pixels).
pub const BLOCK_PADDING: i64 = 5_000;
/// Number of blocks retagged as special after the grid is laid out.
pub const SPECIAL_BLOCKS: usize = 3;

} // verus!
