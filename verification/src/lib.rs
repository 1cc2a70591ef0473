//! Procedural dungeon generation, flow-field pathfinding and a turn engine
//! with deferred mutation, for a tile-based roguelike.

use vstd::prelude::*;

pub mod camera;
pub mod components;
pub mod distance_field;
pub mod event_log;
pub mod game;
pub mod geometry;
pub mod map;
pub mod map_builder;
pub mod random;
pub mod spawner;
pub mod systems;
pub mod turn_state;
pub mod visibility;
pub mod world;

verus! {

/// Width of the tile grid.
pub const SCREEN_WIDTH: i32 = 80;

/// Height of the tile grid.
pub const SCREEN_HEIGHT: i32 = 50;

/// Width of the viewport that follows the player.
pub const DISPLAY_WIDTH: i32 = 40;

/// Height of the viewport that follows the player.
pub const DISPLAY_HEIGHT: i32 = 25;

/// Number of tiles of the grid.
pub const NUM_TILES: usize = 4000;

} // verus!
