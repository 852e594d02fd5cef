//! The flags that report what the last action brought about.

use vstd::prelude::*;

verus! {

/// What happened during the last step, and what the player senses now.
#[derive(Clone, Copy, Debug, PartialEq, Eq, Hash, Structural)]
pub struct Events {
    /// The player dug up a treasure.
    pub treasure: bool,
    /// The player stands on a wumpus.
    pub wumpus: bool,
    /// The player stands on a pit.
    pub pit: bool,
    /// A treasure lies next to the player.
    pub glitter: bool,
    /// A wumpus lies next to the player.
    pub stench: bool,
    /// A pit lies next to the player.
    pub breeze: bool,
    /// The player walked into a wall.
    pub bonked: bool,
    /// The player killed a wumpus.
    pub scream: bool,
    /// The episode is over.
    pub gameover: bool,
}

impl Events {
    /// The record with every flag cleared.
    pub open spec fn spec_none() -> Events {
        Events {
            treasure: false,
            wumpus: false,
            pit: false,
            glitter: false,
            stench: false,
            breeze: false,
            bonked: false,
            scream: false,
            gameover: false,
        }
    }

    /// The record with every flag cleared.
    #[verifier::when_used_as_spec(spec_none)]
    pub fn none() -> (r: Events)
        ensures
            r == Events::spec_none(),
    {
        Events {
            treasure: false,
            wumpus: false,
            pit: false,
            glitter: false,
            stench: false,
            breeze: false,
            bonked: false,
            scream: false,
            gameover: false,
        }
    }
}

impl Default for Events {
    fn default() -> (r: Self)
        ensures
            r == Events::spec_none(),
    {
        Events::none()
    }
}

} // verus!
