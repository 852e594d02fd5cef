//! The map: where the hazards and treasures are, which percept markers they
//! leave on the cells around them, and which cells the player has visited.

use vstd::prelude::*;
use crate::collections::coord_set::CoordSet;
use crate::wumpus::class::Class;
use crate::wumpus::geometry::Coordinate;
use crate::wumpus::rules::MAP_CORNER_X;
use crate::wumpus::rules::MAP_CORNER_Y;
use crate::collections::coord_set::lemma_push_to_set;

verus! {

/// A rectangle of cells with its hazards, treasures, markers and visited
/// cells. The rectangle reaches from `(0, 0)` to `size`, both included.
#[derive(Debug)]
pub struct WorldMap {
    pub size: Coordinate,
    pub treasures: CoordSet,
    pub wumpuses: CoordSet,
    pub pits: CoordSet,
    pub glitters: CoordSet,
    pub stenches: CoordSet,
    pub breezes: CoordSet,
    pub discovered: CoordSet,
}

/// The mathematical content of a [`WorldMap`].
#[verifier::ext_equal]
pub struct WorldMapView {
    pub size: Coordinate,
    pub treasures: Set<Coordinate>,
    pub wumpuses: Set<Coordinate>,
    pub pits: Set<Coordinate>,
    pub glitters: Set<Coordinate>,
    pub stenches: Set<Coordinate>,
    pub breezes: Set<Coordinate>,
    pub discovered: Set<Coordinate>,
}

/// The cells that carry a marker because of `hazards`: the cells with at
/// least one neighbour among them.
pub open spec fn marks(hazards: Set<Coordinate>) -> Set<Coordinate> {
    Set::new(|c: Coordinate| exists|h: Coordinate| hazards.contains(h) && h.adjacent(c))
}

/// The markers that stay when the occupant of `location` has left and
/// `remaining` are the occupants of its class that are still there: a marker
/// next to `location` goes unless one of the remaining occupants is next to
/// it too.
pub open spec fn markers_after_removal(
    markers: Set<Coordinate>,
    remaining: Set<Coordinate>,
    location: Coordinate,
) -> Set<Coordinate> {
    markers.difference(
        Set::new(|c: Coordinate| location.adjacent(c) && !marks(remaining).contains(c)),
    )
}

/// The cells of the rectangle that reaches from `(0, 0)` to `size`.
pub open spec fn grid(size: Coordinate) -> Set<Coordinate> {
    Set::new(|c: Coordinate| 0 <= c.x <= size.x && 0 <= c.y <= size.y)
}

impl WorldMapView {
    /// Whether `location` lies within the rectangle.
    pub open spec fn encompass(self, location: Coordinate) -> bool {
        0 <= location.x <= self.size.x && 0 <= location.y <= self.size.y
    }

    /// The cells of the map.
    pub open spec fn cells(self) -> Set<Coordinate> {
        grid(self.size)
    }

    /// Every element of every set lies within the map.
    pub open spec fn contained(self) -> bool {
        &&& self.treasures.subset_of(self.cells())
        &&& self.wumpuses.subset_of(self.cells())
        &&& self.pits.subset_of(self.cells())
        &&& self.glitters.subset_of(self.cells())
        &&& self.stenches.subset_of(self.cells())
        &&& self.breezes.subset_of(self.cells())
        &&& self.discovered.subset_of(self.cells())
    }

    /// The class that `location` holds; a treasure counts before a wumpus and
    /// a wumpus before a pit where a malformed map names several.
    pub open spec fn class_at(self, location: Coordinate) -> Class {
        if self.treasures.contains(location) {
            Class::Treasure
        } else if self.wumpuses.contains(location) {
            Class::Wumpus
        } else if self.pits.contains(location) {
            Class::Pit
        } else {
            Class::Empty
        }
    }

    /// Every marker is justified by an occupant next to it, and every
    /// occupant has left its marker on each of its neighbours within the
    /// map.
    pub open spec fn markers_consistent(self) -> bool {
        &&& self.glitters == marks(self.treasures).intersect(self.cells())
        &&& self.stenches == marks(self.wumpuses).intersect(self.cells())
        &&& self.breezes == marks(self.pits).intersect(self.cells())
    }

    /// The map with a treasure on `location` and a glitter on each of its
    /// neighbours within the map.
    pub open spec fn with_treasure(self, location: Coordinate) -> WorldMapView {
        WorldMapView {
            treasures: self.treasures.insert(location),
            glitters: self.glitters.union(location.neighbours().intersect(self.cells())),
            ..self
        }
    }

    /// The map with a wumpus on `location` and a stench on each of its
    /// neighbours within the map.
    pub open spec fn with_wumpus(self, location: Coordinate) -> WorldMapView {
        WorldMapView {
            wumpuses: self.wumpuses.insert(location),
            stenches: self.stenches.union(location.neighbours().intersect(self.cells())),
            ..self
        }
    }

    /// The map with a pit on `location` and a breeze on each of its
    /// neighbours within the map.
    pub open spec fn with_pit(self, location: Coordinate) -> WorldMapView {
        WorldMapView {
            pits: self.pits.insert(location),
            breezes: self.breezes.union(location.neighbours().intersect(self.cells())),
            ..self
        }
    }

    /// The map without the treasure on `location` and without the glitters
    /// that only it justified.
    pub open spec fn without_treasure(self, location: Coordinate) -> WorldMapView {
        WorldMapView {
            treasures: self.treasures.remove(location),
            glitters: markers_after_removal(
                self.glitters,
                self.treasures.remove(location),
                location,
            ),
            ..self
        }
    }

    /// The map without the wumpus on `location` and without the stenches
    /// that only it justified.
    pub open spec fn without_wumpus(self, location: Coordinate) -> WorldMapView {
        WorldMapView {
            wumpuses: self.wumpuses.remove(location),
            stenches: markers_after_removal(
                self.stenches,
                self.wumpuses.remove(location),
                location,
            ),
            ..self
        }
    }

    /// The map without the pit on `location` and without the breezes that
    /// only it justified.
    pub open spec fn without_pit(self, location: Coordinate) -> WorldMapView {
        WorldMapView {
            pits: self.pits.remove(location),
            breezes: markers_after_removal(self.breezes, self.pits.remove(location), location),
            ..self
        }
    }

    /// The map in which `location` holds `class` and nothing else. Markers
    /// are left as they are.
    pub open spec fn assign(self, location: Coordinate, class: Class) -> WorldMapView {
        WorldMapView {
            treasures: if class == Class::Treasure {
                self.treasures.insert(location)
            } else {
                self.treasures.remove(location)
            },
            wumpuses: if class == Class::Wumpus {
                self.wumpuses.insert(location)
            } else {
                self.wumpuses.remove(location)
            },
            pits: if class == Class::Pit {
                self.pits.insert(location)
            } else {
                self.pits.remove(location)
            },
            ..self
        }
    }

    /// The map after the first `n` cells of `locations` were assigned, in
    /// order, the classes at the same positions of `classes`.
    pub open spec fn assign_first(
        self,
        locations: Seq<Coordinate>,
        classes: Seq<Class>,
        n: nat,
    ) -> WorldMapView
        decreases n,
    {
        if n == 0 {
            self
        } else {
            self.assign_first(locations, classes, (n - 1) as nat).assign(
                locations[n - 1],
                classes[n - 1],
            )
        }
    }

    /// The map after each cell of `locations` was assigned, in order, the
    /// class at the same position of `classes`. Where one list is longer than
    /// the other, what has no partner is ignored.
    pub open spec fn apply_classes(
        self,
        locations: Seq<Coordinate>,
        classes: Seq<Class>,
    ) -> WorldMapView {
        self.assign_first(
            locations,
            classes,
            if locations.len() <= classes.len() {
                locations.len()
            } else {
                classes.len()
            },
        )
    }

    /// The cells within the rectangle that were not visited.
    pub open spec fn unvisited(self) -> Set<Coordinate> {
        Set::new(|c: Coordinate| self.encompass(c) && !self.discovered.contains(c))
    }

    /// The cells within the rectangle that were not visited and lie next to
    /// one that was.
    pub open spec fn frontier(self) -> Set<Coordinate> {
        marks(self.discovered).intersect(self.unvisited())
    }
}

impl View for WorldMap {
    type V = WorldMapView;

    open spec fn view(&self) -> WorldMapView {
        WorldMapView {
            size: self.size,
            treasures: self.treasures@,
            wumpuses: self.wumpuses@,
            pits: self.pits@,
            glitters: self.glitters@,
            stenches: self.stenches@,
            breezes: self.breezes@,
            discovered: self.discovered@,
        }
    }
}

/// Whether one of `hazards` lies next to `cell`.
fn any_adjacent(hazards: &CoordSet, cell: &Coordinate) -> (r: bool)
    requires
        hazards.wf(),
    ensures
        r == marks(hazards@).contains(*cell),
{
    let list = hazards.as_vec();
    let mut i: usize = 0;
    while i < list.len()
        invariant
            i <= list.len(),
            list@.to_set() == hazards@,
            forall|k: int| 0 <= k < i ==> !(#[trigger] list@[k]).adjacent(*cell),
        decreases list.len() - i,
    {
        if list[i].is_adjacent(cell) {
            return true;
        }
        i += 1;
    }
    false
}

/// Puts an occupant on `location` and its marker on every neighbour within
/// the rectangle that reaches to `size`.
fn add_occupant(
    occupants: &mut CoordSet,
    markers: &mut CoordSet,
    location: Coordinate,
    size: Coordinate,
)
    requires
        old(occupants).wf(),
        old(markers).wf(),
    ensures
        final(occupants).wf(),
        final(markers).wf(),
        final(occupants)@ == old(occupants)@.insert(location),
        final(markers)@ == old(markers)@.union(location.neighbours().intersect(grid(size))),
{
    occupants.insert(location);
    let around = location.get_neighbours();
    let list = around.as_vec();
    let mut i: usize = 0;
    assert(list@.take(0).to_set() =~= Set::<Coordinate>::empty());
    assert(markers@ =~= old(markers)@.union(list@.take(0).to_set().intersect(grid(size))));
    while i < list.len()
        invariant
            i <= list.len(),
            markers.wf(),
            list@.to_set() == location.neighbours(),
            markers@ == old(markers)@.union(list@.take(i as int).to_set().intersect(grid(size))),
        decreases list.len() - i,
    {
        let neighbour = list[i];
        proof {
            assert(list@.take(i + 1) =~= list@.take(i as int).push(neighbour));
            lemma_push_to_set(list@.take(i as int), neighbour);
        }
        if neighbour.x >= 0 && neighbour.x <= size.x && neighbour.y >= 0 && neighbour.y <= size.y {
            markers.insert(neighbour);
        }
        assert(markers@ =~= old(markers)@.union(
            list@.take(i + 1).to_set().intersect(grid(size)),
        ));
        i += 1;
    }
    assert(list@.take(list.len() as int) =~= list@);
}

/// Takes the occupant off `location` and, from each neighbour, the marker
/// that no remaining occupant justifies.
fn remove_occupant(occupants: &mut CoordSet, markers: &mut CoordSet, location: Coordinate)
    requires
        old(occupants).wf(),
        old(markers).wf(),
    ensures
        final(occupants).wf(),
        final(markers).wf(),
        final(occupants)@ == old(occupants)@.remove(location),
        final(markers)@ == markers_after_removal(
            old(markers)@,
            old(occupants)@.remove(location),
            location,
        ),
{
    occupants.remove(&location);
    let around = location.get_neighbours();
    let list = around.as_vec();
    let mut i: usize = 0;
    while i < list.len()
        invariant
            i <= list.len(),
            occupants.wf(),
            markers.wf(),
            occupants@ == old(occupants)@.remove(location),
            list@.to_set() == location.neighbours(),
            forall|c: Coordinate|
                markers@.contains(c) <==> old(markers)@.contains(c) && !(exists|k: int|
                    0 <= k < i && #[trigger] list@[k] == c && !marks(occupants@).contains(c)),
        decreases list.len() - i,
    {
        let neighbour = list[i];
        if !any_adjacent(occupants, &neighbour) {
            markers.remove(&neighbour);
        }
        i += 1;
    }
    proof {
        let expected = markers_after_removal(old(markers)@, occupants@, location);
        assert forall|c: Coordinate| markers@.contains(c) <==> expected.contains(c) by {
            if location.adjacent(c) {
                assert(location.neighbours().contains(c));
                let k = choose|k: int| 0 <= k < list@.len() && list@[k] == c;
                assert(list@[k] == c);
            }
            if exists|k: int| 0 <= k < list@.len() && #[trigger] list@[k] == c {
                let k = choose|k: int| 0 <= k < list@.len() && #[trigger] list@[k] == c;
                assert(list@.to_set().contains(list@[k]));
            }
        }
        assert(markers@ =~= expected);
    }
}

/// Adding an occupant keeps the markers of its class exact.
pub proof fn lemma_add_keeps_markers(
    occupants: Set<Coordinate>,
    markers: Set<Coordinate>,
    location: Coordinate,
    cells: Set<Coordinate>,
)
    requires
        markers == marks(occupants).intersect(cells),
    ensures
        markers.union(location.neighbours().intersect(cells)) == marks(
            occupants.insert(location),
        ).intersect(cells),
{
    let after = marks(occupants.insert(location)).intersect(cells);
    let added = markers.union(location.neighbours().intersect(cells));
    assert forall|c: Coordinate| added.contains(c) <==> after.contains(c) by {
        if markers.contains(c) {
            let h = choose|h: Coordinate| occupants.contains(h) && h.adjacent(c);
            assert(occupants.insert(location).contains(h));
        }
        if location.adjacent(c) {
            assert(occupants.insert(location).contains(location));
        }
    }
    assert(added =~= after);
}

/// Removing an occupant keeps the markers of its class exact.
pub proof fn lemma_remove_keeps_markers(
    occupants: Set<Coordinate>,
    markers: Set<Coordinate>,
    location: Coordinate,
    cells: Set<Coordinate>,
)
    requires
        markers == marks(occupants).intersect(cells),
    ensures
        markers_after_removal(markers, occupants.remove(location), location) == marks(
            occupants.remove(location),
        ).intersect(cells),
{
    let remaining = occupants.remove(location);
    let after = markers_after_removal(markers, remaining, location);
    assert forall|c: Coordinate| after.contains(c) <==> marks(remaining).intersect(
        cells,
    ).contains(c) by {
        if marks(remaining).contains(c) {
            let h = choose|h: Coordinate| remaining.contains(h) && h.adjacent(c);
            assert(occupants.contains(h));
        }
        if after.contains(c) {
            let h = choose|h: Coordinate| occupants.contains(h) && h.adjacent(c);
            if h != location {
                assert(remaining.contains(h));
            }
        }
    }
    assert(after =~= marks(remaining).intersect(cells));
}

/// Adding an occupant to a cell that had none and removing it again gives
/// back the occupants and, where the markers were exact, the markers.
pub proof fn lemma_add_then_remove(
    occupants: Set<Coordinate>,
    markers: Set<Coordinate>,
    location: Coordinate,
    cells: Set<Coordinate>,
)
    requires
        markers == marks(occupants).intersect(cells),
        !occupants.contains(location),
    ensures
        occupants.insert(location).remove(location) == occupants,
        markers_after_removal(
            markers.union(location.neighbours().intersect(cells)),
            occupants.insert(location).remove(location),
            location,
        ) == markers,
{
    assert(occupants.insert(location).remove(location) =~= occupants);
    lemma_add_keeps_markers(occupants, markers, location, cells);
    lemma_remove_keeps_markers(
        occupants.insert(location),
        markers.union(location.neighbours().intersect(cells)),
        location,
        cells,
    );
}

impl WorldMap {
    /// The empty map of the standard size.
    pub open spec fn spec_standard() -> WorldMapView {
        WorldMapView {
            size: Coordinate { x: MAP_CORNER_X, y: MAP_CORNER_Y },
            treasures: Set::empty(),
            wumpuses: Set::empty(),
            pits: Set::empty(),
            glitters: Set::empty(),
            stenches: Set::empty(),
            breezes: Set::empty(),
            discovered: Set::empty(),
        }
    }

    /// Well-formedness of the seven sets.
    pub open spec fn wf(&self) -> bool {
        &&& self.treasures.wf()
        &&& self.wumpuses.wf()
        &&& self.pits.wf()
        &&& self.glitters.wf()
        &&& self.stenches.wf()
        &&& self.breezes.wf()
        &&& self.discovered.wf()
    }

    /// An empty map whose far corner is `size`.
    pub fn new(size: Coordinate) -> (r: Self)
        ensures
            r.wf(),
            r@ == (WorldMapView {
                size,
                treasures: Set::empty(),
                wumpuses: Set::empty(),
                pits: Set::empty(),
                glitters: Set::empty(),
                stenches: Set::empty(),
                breezes: Set::empty(),
                discovered: Set::empty(),
            }),
            r@.markers_consistent(),
            r@.contained(),
    {
        let r = WorldMap {
            size,
            treasures: CoordSet::new(),
            wumpuses: CoordSet::new(),
            pits: CoordSet::new(),
            glitters: CoordSet::new(),
            stenches: CoordSet::new(),
            breezes: CoordSet::new(),
            discovered: CoordSet::new(),
        };
        assert(marks(Set::<Coordinate>::empty()).intersect(grid(size)) =~= Set::<
            Coordinate,
        >::empty());
        r
    }

    /// Whether `location` lies within the rectangle.
    pub fn encompass(&self, location: &Coordinate) -> (r: bool)
        ensures
            r == self@.encompass(*location),
    {
        (location.x >= 0 && location.x <= self.size.x) && (location.y >= 0 && location.y
            <= self.size.y)
    }

    /// Puts a treasure on `location` and a glitter on each neighbour within
    /// the map.
    pub fn add_treasure(&mut self, location: Coordinate)
        requires
            old(self).wf(),
        ensures
            final(self).wf(),
            final(self)@ == old(self)@.with_treasure(location),
            old(self)@.markers_consistent() ==> final(self)@.markers_consistent(),
            old(self)@.contained() && old(self)@.encompass(location) ==> final(self)@.contained(),
    {
        proof {
            if self@.markers_consistent() {
                lemma_add_keeps_markers(self.treasures@, self.glitters@, location, self@.cells());
            }
        }
        let size = self.size;
        add_occupant(&mut self.treasures, &mut self.glitters, location, size);
    }

    /// Puts a wumpus on `location` and a stench on each neighbour within the
    /// map.
    pub fn add_wumpus(&mut self, location: Coordinate)
        requires
            old(self).wf(),
        ensures
            final(self).wf(),
            final(self)@ == old(self)@.with_wumpus(location),
            old(self)@.markers_consistent() ==> final(self)@.markers_consistent(),
            old(self)@.contained() && old(self)@.encompass(location) ==> final(self)@.contained(),
    {
        proof {
            if self@.markers_consistent() {
                lemma_add_keeps_markers(self.wumpuses@, self.stenches@, location, self@.cells());
            }
        }
        let size = self.size;
        add_occupant(&mut self.wumpuses, &mut self.stenches, location, size);
    }

    /// Puts a pit on `location` and a breeze on each neighbour within the map.
    pub fn add_pit(&mut self, location: Coordinate)
        requires
            old(self).wf(),
        ensures
            final(self).wf(),
            final(self)@ == old(self)@.with_pit(location),
            old(self)@.markers_consistent() ==> final(self)@.markers_consistent(),
            old(self)@.contained() && old(self)@.encompass(location) ==> final(self)@.contained(),
    {
        proof {
            if self@.markers_consistent() {
                lemma_add_keeps_markers(self.pits@, self.breezes@, location, self@.cells());
            }
        }
        let size = self.size;
        add_occupant(&mut self.pits, &mut self.breezes, location, size);
    }

    /// Takes the treasure off `location`; a glitter next to it goes unless
    /// another treasure still justifies it.
    pub fn remove_treasure(&mut self, location: Coordinate)
        requires
            old(self).wf(),
        ensures
            final(self).wf(),
            final(self)@ == old(self)@.without_treasure(location),
            old(self)@.markers_consistent() ==> final(self)@.markers_consistent(),
            old(self)@.contained() ==> final(self)@.contained(),
    {
        proof {
            if self@.markers_consistent() {
                lemma_remove_keeps_markers(self.treasures@, self.glitters@, location, self@.cells());
            }
        }
        remove_occupant(&mut self.treasures, &mut self.glitters, location);
    }

    /// Takes the wumpus off `location`; a stench next to it goes unless
    /// another wumpus still justifies it.
    pub fn remove_wumpus(&mut self, location: Coordinate)
        requires
            old(self).wf(),
        ensures
            final(self).wf(),
            final(self)@ == old(self)@.without_wumpus(location),
            old(self)@.markers_consistent() ==> final(self)@.markers_consistent(),
            old(self)@.contained() ==> final(self)@.contained(),
    {
        proof {
            if self@.markers_consistent() {
                lemma_remove_keeps_markers(self.wumpuses@, self.stenches@, location, self@.cells());
            }
        }
        remove_occupant(&mut self.wumpuses, &mut self.stenches, location);
    }

    /// Takes the pit off `location`; a breeze next to it goes unless another
    /// pit still justifies it.
    pub fn remove_pit(&mut self, location: Coordinate)
        requires
            old(self).wf(),
        ensures
            final(self).wf(),
            final(self)@ == old(self)@.without_pit(location),
            old(self)@.markers_consistent() ==> final(self)@.markers_consistent(),
            old(self)@.contained() ==> final(self)@.contained(),
    {
        proof {
            if self@.markers_consistent() {
                lemma_remove_keeps_markers(self.pits@, self.breezes@, location, self@.cells());
            }
        }
        remove_occupant(&mut self.pits, &mut self.breezes, location);
    }

    /// Makes `location` hold `class` and nothing else.
    pub fn assign(&mut self, location: Coordinate, class: Class)
        requires
            old(self).wf(),
        ensures
            final(self).wf(),
            final(self)@ == old(self)@.assign(location, class),
    {
        self.treasures.remove(&location);
        self.wumpuses.remove(&location);
        self.pits.remove(&location);
        match class {
            Class::Treasure => {
                self.treasures.insert(location);
            },
            Class::Wumpus => {
                self.wumpuses.insert(location);
            },
            Class::Pit => {
                self.pits.insert(location);
            },
            Class::Empty => {},
        }
    }

    /// Writes a layout onto the map: each cell of `locations` is made to
    /// hold the class at the same position of `classes`.
    pub fn apply_classes(&mut self, locations: &[Coordinate], classes: &[Class])
        requires
            old(self).wf(),
        ensures
            final(self).wf(),
            final(self)@ == old(self)@.apply_classes(locations@, classes@),
    {
        let n = if locations.len() <= classes.len() {
            locations.len()
        } else {
            classes.len()
        };
        let mut i: usize = 0;
        while i < n
            invariant
                i <= n,
                n <= locations@.len(),
                n <= classes@.len(),
                self.wf(),
                self@ == old(self)@.assign_first(locations@, classes@, i as nat),
            decreases n - i,
        {
            self.assign(locations[i], classes[i]);
            i += 1;
        }
    }

    /// Adds to `frontier` the unvisited cells within the rectangle that lie
    /// next to `cell`.
    fn add_open_neighbours(&self, cell: Coordinate, frontier: &mut CoordSet)
        requires
            self.wf(),
            old(frontier).wf(),
        ensures
            final(frontier).wf(),
            final(frontier)@ == old(frontier)@.union(
                cell.neighbours().intersect(self@.unvisited()),
            ),
    {
        let around = cell.get_neighbours();
        let list = around.as_vec();
        let mut j: usize = 0;
        while j < list.len()
            invariant
                j <= list.len(),
                self.wf(),
                frontier.wf(),
                list@.to_set() == cell.neighbours(),
                frontier@ == old(frontier)@.union(
                    list@.take(j as int).to_set().intersect(self@.unvisited()),
                ),
            decreases list.len() - j,
        {
            let neighbour = list[j];
            proof {
                assert(list@.take(j + 1) =~= list@.take(j as int).push(neighbour));
                lemma_push_to_set(list@.take(j as int), neighbour);
            }
            if self.encompass(&neighbour) && !self.discovered.contains(&neighbour) {
                frontier.insert(neighbour);
            }
            j += 1;
        }
        assert(list@.take(list.len() as int) =~= list@);
    }

    /// The cells within the rectangle that were not visited and lie next to
    /// one that was.
    pub fn get_frontier(&self) -> (r: CoordSet)
        requires
            self.wf(),
        ensures
            r.wf(),
            r@ == self@.frontier(),
    {
        let visited = self.discovered.as_vec();
        let mut frontier = CoordSet::new();
        let mut i: usize = 0;
        while i < visited.len()
            invariant
                i <= visited.len(),
                self.wf(),
                frontier.wf(),
                visited@.to_set() == self.discovered@,
                frontier@ == marks(visited@.take(i as int).to_set()).intersect(self@.unvisited()),
            decreases visited.len() - i,
        {
            proof {
                let seen = visited@.take(i as int);
                assert(visited@.take(i + 1) =~= seen.push(visited@[i as int]));
                lemma_push_to_set(seen, visited@[i as int]);
            }
            self.add_open_neighbours(visited[i], &mut frontier);
            i += 1;
        }
        assert(visited@.take(visited.len() as int) =~= visited@);
        frontier
    }
}

impl Clone for WorldMap {
    fn clone(&self) -> (r: Self)
        ensures
            r@ == self@,
            self.wf() ==> r.wf(),
    {
        WorldMap {
            size: self.size,
            treasures: self.treasures.clone(),
            wumpuses: self.wumpuses.clone(),
            pits: self.pits.clone(),
            glitters: self.glitters.clone(),
            stenches: self.stenches.clone(),
            breezes: self.breezes.clone(),
            discovered: self.discovered.clone(),
        }
    }
}

impl Default for WorldMap {
    /// The empty map of the standard size.
    fn default() -> (r: Self)
        ensures
            r.wf(),
            r@ == WorldMap::spec_standard(),
            r@.markers_consistent(),
            r@.contained(),
    {
        WorldMap::new(Coordinate { x: MAP_CORNER_X, y: MAP_CORNER_Y })
    }
}

} // verus!
