//! A finite set of grid cells, stored as a list in which no cell occurs twice.

use vstd::prelude::*;
use crate::wumpus::geometry::Coordinate;

verus! {

/// A finite set of cells.
///
/// The cells are kept in insertion order in a vector without repetitions, so
/// that the number of stored cells is the cardinality of the set.
#[derive(Debug)]
pub struct CoordSet {
    cells: Vec<Coordinate>,
}

impl View for CoordSet {
    type V = Set<Coordinate>;

    closed spec fn view(&self) -> Set<Coordinate> {
        self.cells@.to_set()
    }
}

impl CoordSet {
    /// Well-formedness: no cell is stored twice. Every constructor
    /// establishes it and every method preserves it.
    pub closed spec fn wf(&self) -> bool {
        self.cells@.no_duplicates()
    }

    /// A well-formed set is finite.
    pub proof fn lemma_finite(&self)
        requires
            self.wf(),
        ensures
            self@.finite(),
    {
    }

    /// The empty set.
    pub fn new() -> (r: Self)
        ensures
            r.wf(),
            r@ == Set::<Coordinate>::empty(),
    {
        let r = CoordSet { cells: Vec::new() };
        r
    }

    /// The set of the cells that occur in `cells`.
    pub fn from_vec(cells: &Vec<Coordinate>) -> (r: Self)
        ensures
            r.wf(),
            r@ == cells@.to_set(),
    {
        let mut r = CoordSet::new();
        let mut i: usize = 0;
        while i < cells.len()
            invariant
                i <= cells.len(),
                r.wf(),
                r@ == cells@.take(i as int).to_set(),
            decreases cells.len() - i,
        {
            r.insert(cells[i]);
            proof {
                let before = cells@.take(i as int);
                let after = cells@.take(i + 1);
                assert(after =~= before.push(cells@[i as int]));
                lemma_push_to_set(before, cells@[i as int]);
            }
            i += 1;
        }
        assert(cells@.take(cells.len() as int) =~= cells@);
        r
    }

    /// The number of cells in the set.
    pub fn len(&self) -> (r: usize)
        requires
            self.wf(),
        ensures
            r == self@.len(),
            self@.finite(),
    {
        proof {
            self.cells@.unique_seq_to_set();
        }
        self.cells.len()
    }

    /// Whether the set holds no cell.
    pub fn is_empty(&self) -> (r: bool)
        requires
            self.wf(),
        ensures
            r == self@.is_empty(),
            r == (self@ == Set::<Coordinate>::empty()),
            self@.finite(),
    {
        proof {
            self.cells@.unique_seq_to_set();
            if self.cells@.len() == 0 {
                assert(self@ =~= Set::<Coordinate>::empty());
            }
        }
        self.cells.len() == 0
    }

    /// Whether `cell` belongs to the set.
    pub fn contains(&self, cell: &Coordinate) -> (r: bool)
        ensures
            r == self@.contains(*cell),
    {
        let mut i: usize = 0;
        while i < self.cells.len()
            invariant
                i <= self.cells.len(),
                forall|k: int| 0 <= k < i ==> self.cells@[k] != *cell,
            decreases self.cells.len() - i,
        {
            if self.cells[i] == *cell {
                return true;
            }
            i += 1;
        }
        false
    }

    /// Adds `cell`; says whether it was new.
    pub fn insert(&mut self, cell: Coordinate) -> (r: bool)
        requires
            old(self).wf(),
        ensures
            final(self).wf(),
            final(self)@ == old(self)@.insert(cell),
            r == !old(self)@.contains(cell),
    {
        if self.contains(&cell) {
            false
        } else {
            proof {
                lemma_push_to_set(self.cells@, cell);
            }
            self.cells.push(cell);
            true
        }
    }

    /// Removes `cell`; says whether it was there.
    pub fn remove(&mut self, cell: &Coordinate) -> (r: bool)
        requires
            old(self).wf(),
        ensures
            final(self).wf(),
            final(self)@ == old(self)@.remove(*cell),
            r == old(self)@.contains(*cell),
    {
        let mut i: usize = 0;
        while i < self.cells.len()
            invariant
                i <= self.cells.len(),
                *self == *old(self),
                self.wf(),
                forall|k: int| 0 <= k < i ==> self.cells@[k] != *cell,
            decreases self.cells.len() - i,
        {
            if self.cells[i] == *cell {
                proof {
                    lemma_remove_to_set(self.cells@, i as int);
                }
                self.cells.remove(i);
                return true;
            }
            i += 1;
        }
        false
    }

    /// Removes every cell.
    pub fn clear(&mut self)
        ensures
            final(self).wf(),
            final(self)@ == Set::<Coordinate>::empty(),
    {
        self.cells.clear();
    }

    /// Adds every cell of `other`.
    pub fn extend(&mut self, other: &CoordSet)
        requires
            old(self).wf(),
        ensures
            final(self).wf(),
            final(self)@ == old(self)@.union(other@),
    {
        let mut i: usize = 0;
        while i < other.cells.len()
            invariant
                i <= other.cells.len(),
                self.wf(),
                self@ == old(self)@.union(other.cells@.take(i as int).to_set()),
            decreases other.cells.len() - i,
        {
            self.insert(other.cells[i]);
            proof {
                let before = other.cells@.take(i as int);
                assert(other.cells@.take(i + 1) =~= before.push(other.cells@[i as int]));
                lemma_push_to_set(before, other.cells@[i as int]);
            }
            i += 1;
        }
        assert(other.cells@.take(other.cells.len() as int) =~= other.cells@);
    }

    /// The cells of the set, each exactly once.
    pub fn to_vec(&self) -> (r: Vec<Coordinate>)
        requires
            self.wf(),
        ensures
            r@.no_duplicates(),
            r@.to_set() == self@,
            r@.len() == self@.len(),
    {
        proof {
            self.cells@.unique_seq_to_set();
        }
        let mut r: Vec<Coordinate> = Vec::new();
        let mut i: usize = 0;
        while i < self.cells.len()
            invariant
                i <= self.cells.len(),
                r@ == self.cells@.take(i as int),
            decreases self.cells.len() - i,
        {
            r.push(self.cells[i]);
            i += 1;
        }
        assert(self.cells@.take(self.cells.len() as int) =~= self.cells@);
        r
    }

    /// The cells of the set, each exactly once, without copying them.
    pub fn as_vec(&self) -> (r: &Vec<Coordinate>)
        requires
            self.wf(),
        ensures
            r@.no_duplicates(),
            r@.to_set() == self@,
            r@.len() == self@.len(),
            self@.finite(),
    {
        proof {
            self.cells@.unique_seq_to_set();
        }
        &self.cells
    }

    /// The cells that belong both to this set and to `other`.
    pub fn intersection(&self, other: &CoordSet) -> (r: CoordSet)
        ensures
            r.wf(),
            r@ == self@.intersect(other@),
    {
        let mut r = CoordSet::new();
        let mut i: usize = 0;
        while i < self.cells.len()
            invariant
                i <= self.cells.len(),
                r.wf(),
                r@ == self.cells@.take(i as int).to_set().intersect(other@),
            decreases self.cells.len() - i,
        {
            let cell = self.cells[i];
            proof {
                let before = self.cells@.take(i as int);
                assert(self.cells@.take(i + 1) =~= before.push(cell));
                lemma_push_to_set(before, cell);
            }
            if other.contains(&cell) {
                r.insert(cell);
            }
            i += 1;
        }
        assert(self.cells@.take(self.cells.len() as int) =~= self.cells@);
        r
    }

    /// The cells that belong to this set and not to `other`.
    pub fn difference(&self, other: &CoordSet) -> (r: CoordSet)
        ensures
            r.wf(),
            r@ == self@.difference(other@),
    {
        let mut r = CoordSet::new();
        let mut i: usize = 0;
        while i < self.cells.len()
            invariant
                i <= self.cells.len(),
                r.wf(),
                r@ == self.cells@.take(i as int).to_set().difference(other@),
            decreases self.cells.len() - i,
        {
            let cell = self.cells[i];
            proof {
                let before = self.cells@.take(i as int);
                assert(self.cells@.take(i + 1) =~= before.push(cell));
                lemma_push_to_set(before, cell);
            }
            if !other.contains(&cell) {
                r.insert(cell);
            }
            i += 1;
        }
        assert(self.cells@.take(self.cells.len() as int) =~= self.cells@);
        r
    }
}

impl Clone for CoordSet {
    fn clone(&self) -> (r: Self)
        ensures
            r@ == self@,
            self.wf() ==> r.wf(),
    {
        let mut cells: Vec<Coordinate> = Vec::new();
        let mut i: usize = 0;
        while i < self.cells.len()
            invariant
                i <= self.cells.len(),
                cells@ == self.cells@.take(i as int),
            decreases self.cells.len() - i,
        {
            cells.push(self.cells[i]);
            i += 1;
        }
        assert(self.cells@.take(self.cells.len() as int) =~= self.cells@);
        CoordSet { cells }
    }
}

impl Default for CoordSet {
    fn default() -> (r: Self)
        ensures
            r.wf(),
            r@ == Set::<Coordinate>::empty(),
    {
        CoordSet::new()
    }
}

/// The cells of a list with one more cell at its end are the cells of the
/// list and that cell; the list stays free of repetitions if the cell is new.
pub proof fn lemma_push_to_set(s: Seq<Coordinate>, cell: Coordinate)
    ensures
        s.push(cell).to_set() == s.to_set().insert(cell),
        s.no_duplicates() && !s.to_set().contains(cell) ==> s.push(cell).no_duplicates(),
{
    assert forall|c: Coordinate| s.push(cell).to_set().contains(c) <==> s.to_set().insert(
        cell,
    ).contains(c) by {
        if s.to_set().contains(c) {
            let k = choose|k: int| 0 <= k < s.len() && s[k] == c;
            assert(s.push(cell)[k] == c);
        }
        if c == cell {
            assert(s.push(cell)[s.len() as int] == c);
        }
    }
}

/// Taking one entry out of a list without repetitions takes exactly that cell
/// out of the set of its cells.
pub proof fn lemma_remove_to_set(s: Seq<Coordinate>, i: int)
    requires
        s.no_duplicates(),
        0 <= i < s.len(),
    ensures
        s.remove(i).no_duplicates(),
        s.remove(i).to_set() == s.to_set().remove(s[i]),
{
    let t = s.remove(i);
    assert forall|a: int, b: int| 0 <= a < t.len() && 0 <= b < t.len() && a != b implies t[a]
        != t[b] by {
        let a2 = if a < i { a } else { a + 1 };
        let b2 = if b < i { b } else { b + 1 };
        assert(t[a] == s[a2]);
        assert(t[b] == s[b2]);
    }
    assert forall|c: Coordinate| t.to_set().contains(c) <==> s.to_set().remove(s[i]).contains(
        c,
    ) by {
        if t.to_set().contains(c) {
            let k = choose|k: int| 0 <= k < t.len() && t[k] == c;
            let k2 = if k < i { k } else { k + 1 };
            assert(s[k2] == c);
        }
        if s.to_set().remove(s[i]).contains(c) {
            let k = choose|k: int| 0 <= k < s.len() && s[k] == c;
            let k2 = if k < i { k } else { k - 1 };
            assert(t[k2] == c);
        }
    }
    assert(t.to_set() =~= s.to_set().remove(s[i]));
}

} // verus!
