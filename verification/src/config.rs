//! The game's constants, in world units, tiles and nanoseconds.
use vstd::prelude::*;

verus! {

/// World units in one screen pixel.
pub const UNITS_PER_PIXEL: i64 = 1000000;

/// Drawing layer of the background (one pixel below the ground).
pub const LAYER_BACKGROUND: i64 = -1000000;

/// Drawing layer of walls and the exit.
pub const LAYER_SCENERY: i64 = 1000000;

/// Drawing layer of enemies and explosion pictures.
pub const LAYER_CREATURES: i64 = 2000000;

/// Drawing layer of the player.
pub const LAYER_PLAYER: i64 = 3000000;

/// Drawing layer of the solid walls around the field.
pub const LAYER_BORDER: i64 = 4000000;

/// Side of one map tile (40 pixels).
pub const TILE_SIZE: i64 = 40000000;

/// Half the height of the playing field (40 tiles).
pub const WINDOW_HEIGHT: i64 = 1600000000;

/// Half the width of the playing field (40 tiles).
pub const WINDOW_WIDTH: i64 = 1600000000;

/// `WINDOW_WIDTH` counted in tiles.
pub const WINDOW_WIDTH_TILES: i64 = 40;

/// `WINDOW_HEIGHT` counted in tiles.
pub const WINDOW_HEIGHT_TILES: i64 = 40;

/// How far a falling element drops in one frame (0.6 pixel).
pub const FALLING_SPEED: i64 = 600000;

/// Slack used when deciding whether two elements rest on each other or
/// whether the player touches something (5 pixels).
pub const THRESHOLD: i64 = 5000000;

/// Enemy speed in world units per second (50 pixels per second).
pub const ENEMY_SPEED: i64 = 50000000;

/// Explosion radius, in tiles.
pub const EXPLOSION_RANGE: i64 = 1;

/// Tile on which the player starts.
pub const PLAYER_STARTING_TILE_X: i64 = 0;

/// Tile on which the player starts.
pub const PLAYER_STARTING_TILE_Y: i64 = 0;

/// Radius, in tiles, around the start tile that is kept free of walls and enemies.
pub const INITIAL_SAFE_ZONE_TILE_DISTANCE: i64 = 3;

/// Nanoseconds in one second.
pub const NANOS_PER_SECOND: u64 = 1000000000;

/// Minimal time between two planted bombs (0.5 s).
pub const BOMB_DEBOUNCE_NANOS: u64 = 500000000;

/// Fuse of a planted bomb (3 s).
pub const BOMB_TIMER_NANOS: u64 = 3000000000;

/// Fuse of a bomb set off by another explosion: 0.3 s, taken as an `f32`
/// number of seconds and converted to the nearest nanosecond.
pub const BOMB_TIMER_CHAIN_REACTION_NANOS: u64 = 300000012;

/// Minimal time between two hits on the player (10 s).
pub const COLLISION_DEBOUNCE_NANOS: u64 = 10000000000;

/// Period of the push cooldown: 0.23 s, taken as an `f32` number of seconds
/// and converted to the nearest nanosecond.
pub const PUSH_COOLDOWN_NANOS: u64 = 230000004;

/// Minimal time between two steps of the player: 0.2 s, taken as an `f32`
/// number of seconds and converted to the nearest nanosecond.
pub const PLAYER_MOVE_COOLDOWN_NANOS: u64 = 200000003;

/// How long an explosion stays visible (1 s).
pub const EXPLOSION_VISUAL_NANOS: u64 = 1000000000;

/// Fuse given to an element caught in an explosion: 0.2 s, taken as an
/// `f32` number of seconds and converted to the nearest nanosecond.
pub const EXPLODABLE_FUSE_NANOS: u64 = 200000003;

} // verus!
