//! A finite map keyed by grid cells, stored as two parallel lists.

use vstd::prelude::*;
use crate::wumpus::geometry::Coordinate;

verus! {

/// A finite map from cells to values of type `V`.
///
/// Keys are kept in the order in which they were first inserted; no key
/// occurs twice.
#[derive(Debug)]
pub struct CoordMap<V> {
    keys: Vec<Coordinate>,
    values: Vec<V>,
}

impl<V> View for CoordMap<V> {
    type V = Map<Coordinate, V>;

    closed spec fn view(&self) -> Map<Coordinate, V> {
        Map::new(
            |k: Coordinate| self.keys@.contains(k),
            |k: Coordinate| self.values@[self.keys@.index_of(k)],
        )
    }
}

impl<V> CoordMap<V> {
    /// Well-formedness: every key is stored once, with one value.
    pub closed spec fn wf(&self) -> bool {
        &&& self.keys@.no_duplicates()
        &&& self.keys@.len() == self.values@.len()
    }

    /// The keys in the order in which they were first inserted.
    pub closed spec fn key_seq(&self) -> Seq<Coordinate> {
        self.keys@
    }

    /// The keys are exactly the domain of the map, each listed once.
    pub proof fn lemma_keys(&self)
        requires
            self.wf(),
        ensures
            self.key_seq().no_duplicates(),
            self.key_seq().to_set() == self@.dom(),
            self@.dom().finite(),
            self@.dom().len() == self.key_seq().len(),
    {
        self.keys@.unique_seq_to_set();
    }

    /// The empty map.
    pub fn new() -> (r: Self)
        ensures
            r.wf(),
            r@ == Map::<Coordinate, V>::empty(),
            r.key_seq() == Seq::<Coordinate>::empty(),
    {
        let r = CoordMap { keys: Vec::new(), values: Vec::new() };
        r
    }

    /// The number of keys.
    pub fn len(&self) -> (r: usize)
        requires
            self.wf(),
        ensures
            r == self@.dom().len(),
            r == self.key_seq().len(),
            self@.dom().finite(),
    {
        proof {
            self.lemma_keys();
        }
        self.keys.len()
    }

    fn position(&self, key: &Coordinate) -> (r: Option<usize>)
        requires
            self.wf(),
        ensures
            match r {
                Some(i) => i < self.keys@.len() && self.keys@[i as int] == *key,
                None => !self.keys@.contains(*key),
            },
    {
        let mut i: usize = 0;
        while i < self.keys.len()
            invariant
                i <= self.keys.len(),
                forall|k: int| 0 <= k < i ==> self.keys@[k] != *key,
            decreases self.keys.len() - i,
        {
            if self.keys[i] == *key {
                return Some(i);
            }
            i += 1;
        }
        None
    }

    /// Whether `key` has a value.
    pub fn contains_key(&self, key: &Coordinate) -> (r: bool)
        requires
            self.wf(),
        ensures
            r == self@.dom().contains(*key),
    {
        self.position(key).is_some()
    }

    /// The value stored for `key`, if there is one.
    pub fn get(&self, key: &Coordinate) -> (r: Option<&V>)
        requires
            self.wf(),
        ensures
            match r {
                Some(v) => self@.dom().contains(*key) && *v == self@[*key],
                None => !self@.dom().contains(*key),
            },
    {
        match self.position(key) {
            Some(i) => {
                Some(&self.values[i])
            },
            None => None,
        }
    }

    /// Stores `value` for `key`, replacing what was stored before.
    pub fn insert(&mut self, key: Coordinate, value: V)
        requires
            old(self).wf(),
        ensures
            final(self).wf(),
            final(self)@ == old(self)@.insert(key, value),
            old(self)@.dom().contains(key) ==> final(self).key_seq() == old(self).key_seq(),
            !old(self)@.dom().contains(key) ==> final(self).key_seq() == old(self).key_seq().push(
                key,
            ),
    {
        match self.position(&key) {
            Some(i) => {
                self.values.set(i, value);
                proof {
                    assert forall|k: Coordinate| self@.dom().contains(k) implies #[trigger] self@[k]
                        == old(self)@.insert(key, value)[k] by {
                        let j = self.keys@.index_of(k);
                        assert(self.keys@[j] == k);
                    }
                    assert(self@ =~= old(self)@.insert(key, value));
                }
            },
            None => {
                self.keys.push(key);
                self.values.push(value);
                proof {
                    let ok = old(self).keys@;
                    assert forall|k: Coordinate| self.keys@.contains(k) <==> (ok.contains(k) || k
                        == key) by {
                        if ok.contains(k) {
                            let j = ok.index_of(k);
                            assert(self.keys@[j] == k);
                        }
                        if k == key {
                            assert(self.keys@[ok.len() as int] == k);
                        }
                    }
                    assert forall|k: Coordinate| self@.dom().contains(k) implies #[trigger] self@[k]
                        == old(self)@.insert(key, value)[k] by {
                        let j = self.keys@.index_of(k);
                        assert(self.keys@[j] == k);
                        if k != key {
                            let j0 = ok.index_of(k);
                            assert(ok[j0] == k);
                            assert(self.keys@[j0] == k);
                        }
                    }
                    assert(self@ =~= old(self)@.insert(key, value));
                }
            },
        }
    }

    /// The keys, each exactly once, in the order in which they were first
    /// inserted.
    pub fn keys(&self) -> (r: &Vec<Coordinate>)
        requires
            self.wf(),
        ensures
            r@ == self.key_seq(),
            r@.no_duplicates(),
            r@.to_set() == self@.dom(),
    {
        &self.keys
    }

    /// The value of the `i`-th key.
    pub fn value_at(&self, i: usize) -> (r: &V)
        requires
            self.wf(),
            i < self.key_seq().len(),
        ensures
            self@.dom().contains(self.key_seq()[i as int]),
            *r == self@[self.key_seq()[i as int]],
    {
        &self.values[i]
    }
}

impl<V> Default for CoordMap<V> {
    fn default() -> (r: Self)
        ensures
            r.wf(),
            r@ == Map::<Coordinate, V>::empty(),
    {
        CoordMap::new()
    }
}

} // verus!
