//! The fixed numbers of the game.

use vstd::prelude::*;

verus! {

/// The far corner of the standard map: it has five columns.
pub const MAP_CORNER_X: i32 = 4;

/// The far corner of the standard map: it has five rows.
pub const MAP_CORNER_Y: i32 = 4;

/// The number of cells of the standard map.
pub const MAP_CELLS: i32 = 25;

/// How many treasures a map holds.
pub const COUNT_TREASURES: usize = 2;

/// How many wumpuses a map holds.
pub const COUNT_WUMPUSES: usize = 1;

/// How many pits a map holds.
pub const COUNT_PITS: usize = 3;

/// How many arrows the player starts with.
pub const SPAWN_ARROWS: i32 = 1;

/// What any action costs.
pub const SCORE_ACTION: i32 = -1;

/// What shooting an arrow costs.
pub const SCORE_SHOT: i32 = -10;

/// What digging costs.
pub const SCORE_DUG: i32 = -50;

/// What finding a treasure earns.
pub const SCORE_TREASURE: i32 = 250;

/// What walking into a wumpus costs.
pub const SCORE_WUMPUS: i32 = -200;

/// What falling into a pit costs.
pub const SCORE_PIT: i32 = -100;

} // verus!
