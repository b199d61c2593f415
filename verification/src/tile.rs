use vstd::prelude::*;

verus! {

/// One grid cell: terrain flags plus the append-only exploration flag.
#[derive(Clone, Copy, Debug, PartialEq, Eq, Structural)]
pub struct Tile {
    pub is_blocked: bool,
    pub is_sight_blocked: bool,
    pub is_explored: bool,
}

impl Tile {
    /// A passable, transparent, unexplored tile.
    pub fn empty() -> (t: Tile)
        ensures
            t == (Tile { is_blocked: false, is_sight_blocked: false, is_explored: false }),
    {
        Tile { is_blocked: false, is_sight_blocked: false, is_explored: false }
    }

    /// An impassable, opaque, unexplored tile.
    pub fn wall() -> (t: Tile)
        ensures
            t == (Tile { is_blocked: true, is_sight_blocked: true, is_explored: false }),
    {
        Tile { is_blocked: true, is_sight_blocked: true, is_explored: false }
    }
}

} // verus!
