//! The simulation core of a turn-based grid-dungeon game: procedural
//! room-and-corridor generation, per-tile exploration tracking, spatial
//! occupancy, and turn-based combat with a basic monster AI. Every
//! public operation carries a contract over a mathematical view of the
//! world, and the generator is proved to produce non-overlapping,
//! mutually connected rooms for every outcome of its random draws.
//! Rendering, input devices, and the line-of-sight oracle are external
//! collaborators and stay outside this crate.

pub mod colors;
pub mod fighter;
pub mod game;
pub mod game_object;
pub mod messages;
pub mod reach;
pub mod rect;
pub mod rng;
pub mod tile;

use vstd::prelude::*;

verus! {

/// Width of the dungeon grid, in tiles.
pub const MAP_WIDTH: i32 = 80;

/// Height of the dungeon grid, in tiles.
pub const MAP_HEIGHT: i32 = 43;

/// Index of the player-controlled entity in the registry; slot 0 is
/// reserved for it.
pub const PLAYER: usize = 0;

/// Largest room side length drawn during generation (inclusive).
pub const ROOM_MAX_SIZE: i32 = 10;

/// Smallest room side length drawn during generation (inclusive).
pub const ROOM_MIN_SIZE: i32 = 6;

/// Number of room placements attempted per dungeon.
pub const MAX_ROOMS: i32 = 30;

/// Largest number of monsters seeded into one room.
pub const MAX_ROOM_MONSTERS: i32 = 3;

} // verus!
