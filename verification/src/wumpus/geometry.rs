//! Grid geometry: facings, coordinates and orthogonal adjacency.

use vstd::prelude::*;
use crate::chance::random_index;
use crate::collections::coord_set::CoordSet;
use crate::wumpus::rules::MAP_CORNER_X;
use crate::wumpus::rules::MAP_CORNER_Y;

verus! {

/// One of the four facings, listed clockwise starting at east.
#[derive(Clone, Copy, Debug, PartialEq, Eq, Hash, Structural)]
pub enum Direction {
    East,
    South,
    West,
    North,
}

impl Direction {
    /// The facing after a quarter turn counter-clockwise.
    pub open spec fn left(self) -> Direction {
        match self {
            Direction::East => Direction::North,
            Direction::South => Direction::East,
            Direction::West => Direction::South,
            Direction::North => Direction::West,
        }
    }

    /// The facing after a quarter turn clockwise.
    pub open spec fn right(self) -> Direction {
        match self {
            Direction::East => Direction::South,
            Direction::South => Direction::West,
            Direction::West => Direction::North,
            Direction::North => Direction::East,
        }
    }

    /// The opposite facing.
    pub open spec fn back(self) -> Direction {
        match self {
            Direction::East => Direction::West,
            Direction::South => Direction::North,
            Direction::West => Direction::East,
            Direction::North => Direction::South,
        }
    }

    /// Horizontal displacement of one step in this direction.
    pub open spec fn dx(self) -> int {
        match self {
            Direction::East => 1,
            Direction::West => -1,
            _ => 0,
        }
    }

    /// Vertical displacement of one step in this direction.
    pub open spec fn dy(self) -> int {
        match self {
            Direction::North => 1,
            Direction::South => -1,
            _ => 0,
        }
    }

    /// The facing after a quarter turn counter-clockwise.
    pub fn rotate_left(&self) -> (r: Self)
        ensures
            r == self.left(),
    {
        match self {
            Direction::East => Direction::North,
            Direction::South => Direction::East,
            Direction::West => Direction::South,
            Direction::North => Direction::West,
        }
    }

    /// The facing after a quarter turn clockwise.
    pub fn rotate_right(&self) -> (r: Self)
        ensures
            r == self.right(),
    {
        match self {
            Direction::East => Direction::South,
            Direction::South => Direction::West,
            Direction::West => Direction::North,
            Direction::North => Direction::East,
        }
    }

    /// The opposite facing.
    pub fn rotate_back(&self) -> (r: Self)
        ensures
            r == self.back(),
    {
        match self {
            Direction::East => Direction::West,
            Direction::South => Direction::North,
            Direction::West => Direction::East,
            Direction::North => Direction::South,
        }
    }

    /// The facing with the given number, counting clockwise from east at
    /// zero; every number above two stands for north.
    pub open spec fn spec_from_index(index: usize) -> Direction {
        if index == 0 {
            Direction::East
        } else if index == 1 {
            Direction::South
        } else if index == 2 {
            Direction::West
        } else {
            Direction::North
        }
    }

    /// The facing with the given number.
    #[verifier::when_used_as_spec(spec_from_index)]
    pub fn from_index(index: usize) -> (r: Direction)
        ensures
            r == Direction::spec_from_index(index),
    {
        if index == 0 {
            Direction::East
        } else if index == 1 {
            Direction::South
        } else if index == 2 {
            Direction::West
        } else {
            Direction::North
        }
    }

    /// A facing drawn at random, each of the four with the same chance.
    pub fn random() -> (r: Direction)
        ensures
            exists|index: usize| index < 4 && r == Direction::spec_from_index(index),
    {
        let index = random_index(4);
        Direction::from_index(index)
    }

    /// The four facings in the order in which neighbours are visited.
    pub fn all() -> (r: [Direction; 4])
        ensures
            r@ == seq![Direction::East, Direction::South, Direction::West, Direction::North],
    {
        [Direction::East, Direction::South, Direction::West, Direction::North]
    }
}

impl Default for Direction {
    fn default() -> (r: Self)
        ensures
            r == Direction::East,
    {
        Direction::East
    }
}

/// Rotations compose as quarter turns do: left undoes right, two quarter
/// turns the same way make a half turn, and two half turns change nothing.
pub proof fn lemma_rotations(d: Direction)
    ensures
        d.left().right() == d,
        d.right().left() == d,
        d.left().left() == d.back(),
        d.right().right() == d.back(),
        d.back().back() == d,
        d.left() != d,
        d.right() != d,
        d.back() != d,
        d.left() != d.right(),
        d.left() != d.back(),
        d.right() != d.back(),
{
}

/// A cell of the grid. Cells outside a map, among them the two reserved
/// values `nowhere` and `unknown`, are ordinary values of this type.
#[derive(Clone, Copy, Debug, PartialEq, Eq, Hash, Structural)]
pub struct Coordinate {
    pub x: i32,
    pub y: i32,
}

impl Coordinate {
    /// The reserved value that stands for no cell at all.
    pub open spec fn spec_nowhere() -> Coordinate {
        Coordinate { x: -1i32, y: -1i32 }
    }

    /// The reserved value that stands for a cell not yet known.
    pub open spec fn spec_unknown() -> Coordinate {
        Coordinate { x: -2i32, y: -2i32 }
    }

    /// The reserved value that stands for no cell at all.
    #[verifier::when_used_as_spec(spec_nowhere)]
    pub fn nowhere() -> (r: Coordinate)
        ensures
            r == Self::spec_nowhere(),
    {
        Coordinate { x: -1, y: -1 }
    }

    /// The reserved value that stands for a cell not yet known.
    #[verifier::when_used_as_spec(spec_unknown)]
    pub fn unknown() -> (r: Coordinate)
        ensures
            r == Self::spec_unknown(),
    {
        Coordinate { x: -2, y: -2 }
    }

    /// Two cells are adjacent when they differ by exactly one step along
    /// exactly one axis.
    pub open spec fn adjacent(self, other: Coordinate) -> bool {
        ||| self.y == other.y && (other.x - self.x == 1 || self.x - other.x == 1)
        ||| self.x == other.x && (other.y - self.y == 1 || self.y - other.y == 1)
    }

    /// Whether the cell one step in `direction` can be written down with
    /// machine integers.
    pub open spec fn can_step(self, direction: Direction) -> bool {
        &&& i32::MIN <= self.x + direction.dx() <= i32::MAX
        &&& i32::MIN <= self.y + direction.dy() <= i32::MAX
    }

    /// The cell one step in `direction`.
    pub open spec fn front(self, direction: Direction) -> Coordinate
        recommends
            self.can_step(direction),
    {
        Coordinate {
            x: (self.x + direction.dx()) as i32,
            y: (self.y + direction.dy()) as i32,
        }
    }

    /// The direction in which `other` lies one step away, if it does.
    pub open spec fn direction_to(self, other: Coordinate) -> Option<Direction> {
        if self.y == other.y && other.x - self.x == 1 {
            Some(Direction::East)
        } else if self.x == other.x && other.y - self.y == 1 {
            Some(Direction::North)
        } else if self.y == other.y && self.x - other.x == 1 {
            Some(Direction::West)
        } else if self.x == other.x && self.y - other.y == 1 {
            Some(Direction::South)
        } else {
            None
        }
    }

    /// The cells adjacent to this one.
    pub open spec fn neighbours(self) -> Set<Coordinate> {
        Set::new(|c: Coordinate| self.adjacent(c))
    }

    /// A cell of the standard map drawn at random, each with the same
    /// chance.
    pub fn random() -> (r: Coordinate)
        ensures
            0 <= r.x <= MAP_CORNER_X,
            0 <= r.y <= MAP_CORNER_Y,
    {
        let x = random_index(MAP_CORNER_X as usize + 1);
        let y = random_index(MAP_CORNER_Y as usize + 1);
        Coordinate { x: x as i32, y: y as i32 }
    }

    /// The cell one step in `direction`.
    pub fn get_front(&self, direction: &Direction) -> (r: Self)
        requires
            self.can_step(*direction),
        ensures
            r == self.front(*direction),
    {
        match direction {
            Direction::East => Coordinate { x: self.x + 1, y: self.y },
            Direction::South => Coordinate { x: self.x, y: self.y - 1 },
            Direction::West => Coordinate { x: self.x - 1, y: self.y },
            Direction::North => Coordinate { x: self.x, y: self.y + 1 },
        }
    }

    /// The cell one step in `direction`, or `None` where machine integers
    /// cannot hold it.
    pub fn checked_front(&self, direction: &Direction) -> (r: Option<Self>)
        ensures
            self.can_step(*direction) ==> r == Some(self.front(*direction)),
            !self.can_step(*direction) ==> r.is_none(),
    {
        match direction {
            Direction::East => {
                if self.x < i32::MAX {
                    Some(Coordinate { x: self.x + 1, y: self.y })
                } else {
                    None
                }
            },
            Direction::South => {
                if self.y > i32::MIN {
                    Some(Coordinate { x: self.x, y: self.y - 1 })
                } else {
                    None
                }
            },
            Direction::West => {
                if self.x > i32::MIN {
                    Some(Coordinate { x: self.x - 1, y: self.y })
                } else {
                    None
                }
            },
            Direction::North => {
                if self.y < i32::MAX {
                    Some(Coordinate { x: self.x, y: self.y + 1 })
                } else {
                    None
                }
            },
        }
    }

    /// Whether `other` is one of the (at most four) neighbours of this cell.
    pub fn is_adjacent(&self, other: &Coordinate) -> (r: bool)
        ensures
            r == self.adjacent(*other),
    {
        let dx: i64 = other.x as i64 - self.x as i64;
        let dy: i64 = other.y as i64 - self.y as i64;
        (dy == 0 && (dx == 1 || dx == -1)) || (dx == 0 && (dy == 1 || dy == -1))
    }

    /// The neighbours of this cell, as a set.
    pub fn get_neighbours(&self) -> (r: CoordSet)
        ensures
            r.wf(),
            r@ == self.neighbours(),
    {
        let mut set = CoordSet::new();
        let directions = Direction::all();
        let mut i: usize = 0;
        while i < 4
            invariant
                i <= 4,
                set.wf(),
                directions@ == seq![
                    Direction::East,
                    Direction::South,
                    Direction::West,
                    Direction::North,
                ],
                forall|c: Coordinate|
                    set@.contains(c) <==> exists|k: int|
                        0 <= k < i && self.can_step(#[trigger] directions@[k]) && self.front(
                            directions@[k],
                        ) == c,
            decreases 4 - i,
        {
            if let Some(front) = self.checked_front(&directions[i]) {
                set.insert(front);
            }
            i += 1;
        }
        set
    }

    /// This cell together with its neighbours.
    pub fn get_cluster(&self) -> (r: CoordSet)
        ensures
            r.wf(),
            r@ == self.neighbours().insert(*self),
    {
        let mut set = self.get_neighbours();
        set.insert(*self);
        set
    }

    /// The direction in which `location` lies one step away, if it does.
    pub fn get_relative_direction(&self, location: &Coordinate) -> (r: Option<Direction>)
        ensures
            r == self.direction_to(*location),
    {
        let dx: i64 = location.x as i64 - self.x as i64;
        let dy: i64 = location.y as i64 - self.y as i64;
        if dy == 0 && dx == 1 {
            Some(Direction::East)
        } else if dx == 0 && dy == 1 {
            Some(Direction::North)
        } else if dy == 0 && dx == -1 {
            Some(Direction::West)
        } else if dx == 0 && dy == -1 {
            Some(Direction::South)
        } else {
            None
        }
    }
}

impl Default for Coordinate {
    fn default() -> (r: Self)
        ensures
            r == (Coordinate { x: 0, y: 0 }),
    {
        Coordinate { x: 0, y: 0 }
    }
}

/// Adjacency is exactly "one step in some direction": a cell is adjacent to
/// another iff the other is its front cell in the direction `direction_to`
/// names, and that direction is the only one.
pub proof fn lemma_adjacent_is_a_step(a: Coordinate, b: Coordinate)
    ensures
        a.adjacent(b) <==> a.direction_to(b).is_some(),
        a.adjacent(b) <==> b.adjacent(a),
        !a.adjacent(a),
        forall|d: Direction|
            a.direction_to(b) == Some(d) <==> (#[trigger] a.can_step(d) && a.front(d) == b),
        a.direction_to(b) matches Some(d) ==> b.direction_to(a) == Some(d.back()),
{
}

} // verus!
