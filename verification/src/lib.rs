//! Core of a turn-based sonar exploration game on a 2-D tile grid.
//!
//! The library owns the three verified subsystems: the cavern map
//! generator, the visibility ("ping") engine with its time-decaying
//! reveal, and the game state machine that sequences menu, play,
//! level progression, defeat and victory.

pub mod game;
pub mod grid;
pub mod mapgen;
pub mod rng;
pub mod vis;

pub use game::{
    tick, Direction, GameState, Intent, PlayingState, LEVEL_BONUS_PINGS, LEVEL_HEIGHT, LEVEL_WIDTH,
    MAX_DEPTH, PING_RADIUS, START_PINGS,
};
pub use grid::{passes_gate, Grid, LastSeen, Tile, TileKind, MAX_DIM, MIN_DIM, REVEAL_DURATION};
pub use mapgen::{generate, generate_checked, generate_with, GeneratedLevel, Rect};
pub use vis::{is_visible_cell, reveal_all, reveal_from};
