//! Game rules of a tile-based digging game: where the level's pieces are
//! placed, how the player, enemies and falling elements move, and how bombs
//! are planted, collected and set off.
//!
//! World positions are held in fixed-point units (see `config`), so that the
//! rules are exact integer arithmetic.

pub mod bomb;
pub mod config;
pub mod enemy;
pub mod explosion;
pub mod falling;
pub mod geometry;
pub mod level;
pub mod movable;
pub mod pieces;
pub mod player;
pub mod random;
pub mod selection;
pub mod tiles;
pub mod timer;
