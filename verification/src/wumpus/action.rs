//! The primitive actions a player can take.

use vstd::prelude::*;
use crate::chance::random_index;

verus! {

/// One primitive action.
#[derive(Clone, Copy, Debug, PartialEq, Eq, Hash, Structural)]
pub enum Action {
    Walk,
    Left,
    Right,
    Dig,
    Shoot,
}

impl Action {
    /// The action with the given number, counting from zero in the order
    /// walk, left, right, dig, shoot; every larger number stands for shoot.
    pub open spec fn spec_from_index(index: usize) -> Action {
        if index == 0 {
            Action::Walk
        } else if index == 1 {
            Action::Left
        } else if index == 2 {
            Action::Right
        } else if index == 3 {
            Action::Dig
        } else {
            Action::Shoot
        }
    }

    /// The action with the given number.
    #[verifier::when_used_as_spec(spec_from_index)]
    pub fn from_index(index: usize) -> (r: Action)
        ensures
            r == Action::spec_from_index(index),
    {
        if index == 0 {
            Action::Walk
        } else if index == 1 {
            Action::Left
        } else if index == 2 {
            Action::Right
        } else if index == 3 {
            Action::Dig
        } else {
            Action::Shoot
        }
    }

    /// An action drawn at random, each of the five with the same chance.
    pub fn random() -> (r: Action)
        ensures
            exists|index: usize| index < 5 && r == Action::spec_from_index(index),
    {
        let index = random_index(5);
        Action::from_index(index)
    }
}

} // verus!
