//! What a cell can hold, and four-slot records keyed by it.

use vstd::prelude::*;

verus! {

/// What a cell holds. A cell holds at most one of treasure, wumpus and pit;
/// otherwise it is empty.
#[derive(Clone, Copy, Debug, PartialEq, Eq, Hash, Structural)]
pub enum Class {
    Empty,
    Treasure,
    Wumpus,
    Pit,
}

impl Class {
    /// The four classes in their canonical order.
    pub open spec fn spec_values() -> Seq<Class> {
        seq![Class::Empty, Class::Treasure, Class::Wumpus, Class::Pit]
    }

    /// The four classes in their canonical order.
    pub fn values() -> (r: [Class; 4])
        ensures
            r@ == Self::spec_values(),
    {
        [Class::Empty, Class::Treasure, Class::Wumpus, Class::Pit]
    }
}

/// One value of type `T` for each class.
///
/// It serves as a tally of outcomes (with integers) and as a vector of
/// per-class estimates.
#[derive(Copy, Debug, PartialEq, Eq, Hash)]
pub struct ClassField<T> {
    pub empty: T,
    pub treasure: T,
    pub wumpus: T,
    pub pit: T,
}

impl<T> ClassField<T> {
    /// The slot that belongs to `class`.
    pub open spec fn slot(self, class: Class) -> T {
        match class {
            Class::Empty => self.empty,
            Class::Treasure => self.treasure,
            Class::Wumpus => self.wumpus,
            Class::Pit => self.pit,
        }
    }

    /// The slot that belongs to `class`.
    pub fn get(&self, class: Class) -> (r: &T)
        ensures
            *r == self.slot(class),
    {
        match class {
            Class::Empty => &self.empty,
            Class::Treasure => &self.treasure,
            Class::Wumpus => &self.wumpus,
            Class::Pit => &self.pit,
        }
    }
}

impl<T: Copy> Clone for ClassField<T> {
    fn clone(&self) -> (r: Self)
        ensures
            r == *self,
    {
        *self
    }
}

impl ClassField<i32> {
    /// The tally with every slot at zero.
    pub fn zero() -> (r: Self)
        ensures
            r == (ClassField::<i32> { empty: 0, treasure: 0, wumpus: 0, pit: 0 }),
    {
        ClassField { empty: 0, treasure: 0, wumpus: 0, pit: 0 }
    }
}

} // verus!
