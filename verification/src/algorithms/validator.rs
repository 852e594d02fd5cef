//! Decides whether a fully specified layout of hazards and treasures agrees
//! with everything that was observed.

use vstd::prelude::*;
use crate::collections::coord_map::CoordMap;
use crate::collections::coord_set::CoordSet;
use crate::wumpus::class::Class;
use crate::wumpus::geometry::Coordinate;
use crate::wumpus::map::marks;
use crate::wumpus::map::WorldMap;
use crate::wumpus::map::WorldMapView;
use crate::wumpus::rules::COUNT_PITS;
use crate::wumpus::rules::COUNT_TREASURES;
use crate::wumpus::rules::COUNT_WUMPUSES;

verus! {

/// Every cell of `cells` lies within the rectangle of `map`.
pub open spec fn all_within(map: WorldMapView, cells: Set<Coordinate>) -> bool {
    forall|c: Coordinate| cells.contains(c) ==> map.encompass(c)
}

/// Whether `location` holds what the blacklist forbids there. An entry for
/// `Empty` forbids every occupant.
pub open spec fn forbidden(map: WorldMapView, location: Coordinate, class: Class) -> bool {
    match class {
        Class::Treasure => map.treasures.contains(location),
        Class::Wumpus => map.wumpuses.contains(location),
        Class::Pit => map.pits.contains(location),
        Class::Empty => map.treasures.contains(location) || map.wumpuses.contains(location)
            || map.pits.contains(location),
    }
}

/// No blacklisted cell holds its forbidden class.
pub open spec fn respects_blacklist(map: WorldMapView, blacklist: Map<Coordinate, Class>) -> bool {
    forall|c: Coordinate| blacklist.dom().contains(c) ==> !forbidden(map, c, blacklist[c])
}

/// No class has more occupants than the game places.
pub open spec fn within_quota(map: WorldMapView) -> bool {
    &&& map.treasures.len() <= COUNT_TREASURES
    &&& map.wumpuses.len() <= COUNT_WUMPUSES
    &&& map.pits.len() <= COUNT_PITS
}

/// Every visited neighbour of an occupant carries the marker of its class.
pub open spec fn percepts_explained(
    occupants: Set<Coordinate>,
    discovered: Set<Coordinate>,
    markers: Set<Coordinate>,
) -> bool {
    forall|h: Coordinate, d: Coordinate|
        occupants.contains(h) && discovered.contains(d) && h.adjacent(d) ==> markers.contains(d)
}

/// Whether an occupant within the rectangle lies next to `marker`.
pub open spec fn justified(
    map: WorldMapView,
    occupants: Set<Coordinate>,
    marker: Coordinate,
) -> bool {
    exists|h: Coordinate| occupants.contains(h) && map.encompass(h) && marker.adjacent(h)
}

/// Every marker has an occupant of its class next to it, within the
/// rectangle.
pub open spec fn markers_justified(
    map: WorldMapView,
    markers: Set<Coordinate>,
    occupants: Set<Coordinate>,
) -> bool {
    forall|m: Coordinate| markers.contains(m) ==> justified(map, occupants, m)
}

/// A layout is valid when its occupants lie within the map, it avoids what
/// the blacklist forbids, it keeps to the quotas, every visited neighbour of
/// an occupant carries the matching marker, and every marker is justified.
pub open spec fn valid(map: WorldMapView, blacklist: Map<Coordinate, Class>) -> bool {
    &&& all_within(map, map.treasures)
    &&& all_within(map, map.wumpuses)
    &&& all_within(map, map.pits)
    &&& respects_blacklist(map, blacklist)
    &&& within_quota(map)
    &&& percepts_explained(map.treasures, map.discovered, map.glitters)
    &&& percepts_explained(map.wumpuses, map.discovered, map.stenches)
    &&& percepts_explained(map.pits, map.discovered, map.breezes)
    &&& markers_justified(map, map.glitters, map.treasures)
    &&& markers_justified(map, map.stenches, map.wumpuses)
    &&& markers_justified(map, map.breezes, map.pits)
}

fn check_all_within(map: &WorldMap, cells: &CoordSet) -> (r: bool)
    requires
        cells.wf(),
    ensures
        r == all_within(map@, cells@),
{
    let list = cells.as_vec();
    let mut i: usize = 0;
    while i < list.len()
        invariant
            i <= list.len(),
            list@.to_set() == cells@,
            forall|k: int| 0 <= k < i ==> map@.encompass(#[trigger] list@[k]),
        decreases list.len() - i,
    {
        if !map.encompass(&list[i]) {
            return false;
        }
        i += 1;
    }
    true
}

fn check_forbidden(map: &WorldMap, location: &Coordinate, class: Class) -> (r: bool)
    requires
        map.wf(),
    ensures
        r == forbidden(map@, *location, class),
{
    match class {
        Class::Treasure => map.treasures.contains(location),
        Class::Wumpus => map.wumpuses.contains(location),
        Class::Pit => map.pits.contains(location),
        Class::Empty => map.treasures.contains(location) || map.wumpuses.contains(location)
            || map.pits.contains(location),
    }
}

fn check_blacklist(map: &WorldMap, blacklist: &CoordMap<Class>) -> (r: bool)
    requires
        map.wf(),
        blacklist.wf(),
    ensures
        r == respects_blacklist(map@, blacklist@),
{
    let keys = blacklist.keys();
    let mut i: usize = 0;
    while i < keys.len()
        invariant
            i <= keys.len(),
            map.wf(),
            blacklist.wf(),
            keys@ == blacklist.key_seq(),
            keys@.to_set() == blacklist@.dom(),
            forall|k: int|
                0 <= k < i ==> !forbidden(map@, #[trigger] keys@[k], blacklist@[keys@[k]]),
        decreases keys.len() - i,
    {
        let class = *blacklist.value_at(i);
        if check_forbidden(map, &keys[i], class) {
            return false;
        }
        i += 1;
    }
    true
}

/// Whether every visited neighbour of `occupant` carries a marker.
fn check_neighbours_marked(occupant: &Coordinate, discovered: &CoordSet, markers: &CoordSet) -> (r:
    bool)
    requires
        discovered.wf(),
        markers.wf(),
    ensures
        r == (forall|d: Coordinate|
            discovered@.contains(d) && occupant.adjacent(d) ==> markers@.contains(d)),
{
    let visited = discovered.as_vec();
    let mut j: usize = 0;
    while j < visited.len()
        invariant
            j <= visited.len(),
            markers.wf(),
            visited@.to_set() == discovered@,
            forall|k: int|
                0 <= k < j && occupant.adjacent(#[trigger] visited@[k]) ==> markers@.contains(
                    visited@[k],
                ),
        decreases visited.len() - j,
    {
        if occupant.is_adjacent(&visited[j]) && !markers.contains(&visited[j]) {
            return false;
        }
        j += 1;
    }
    true
}

fn check_percepts_explained(occupants: &CoordSet, discovered: &CoordSet, markers: &CoordSet) -> (r:
    bool)
    requires
        occupants.wf(),
        discovered.wf(),
        markers.wf(),
    ensures
        r == percepts_explained(occupants@, discovered@, markers@),
{
    let list = occupants.as_vec();
    let mut i: usize = 0;
    while i < list.len()
        invariant
            i <= list.len(),
            discovered.wf(),
            markers.wf(),
            list@.to_set() == occupants@,
            forall|k: int, d: Coordinate|
                0 <= k < i && discovered@.contains(d) && (#[trigger] list@[k]).adjacent(d)
                    ==> #[trigger] markers@.contains(d),
        decreases list.len() - i,
    {
        if !check_neighbours_marked(&list[i], discovered, markers) {
            return false;
        }
        i += 1;
    }
    true
}

fn check_justified(map: &WorldMap, occupants: &CoordSet, marker: &Coordinate) -> (r: bool)
    requires
        occupants.wf(),
    ensures
        r == justified(map@, occupants@, *marker),
{
    let list = occupants.as_vec();
    let mut j: usize = 0;
    while j < list.len()
        invariant
            j <= list.len(),
            list@.to_set() == occupants@,
            forall|k: int|
                0 <= k < j ==> !(map@.encompass(#[trigger] list@[k]) && marker.adjacent(list@[k])),
        decreases list.len() - j,
    {
        if map.encompass(&list[j]) && marker.is_adjacent(&list[j]) {
            return true;
        }
        j += 1;
    }
    false
}

fn check_markers_justified(map: &WorldMap, markers: &CoordSet, occupants: &CoordSet) -> (r: bool)
    requires
        markers.wf(),
        occupants.wf(),
    ensures
        r == markers_justified(map@, markers@, occupants@),
{
    let list = markers.as_vec();
    let mut i: usize = 0;
    while i < list.len()
        invariant
            i <= list.len(),
            occupants.wf(),
            list@.to_set() == markers@,
            forall|k: int| 0 <= k < i ==> justified(map@, occupants@, #[trigger] list@[k]),
        decreases list.len() - i,
    {
        if !check_justified(map, occupants, &list[i]) {
            assert(markers@.contains(list@[i as int]));
            return false;
        }
        i += 1;
    }
    true
}

/// Decides whether the layout on `map` is valid with respect to `blacklist`.
pub fn is_map_valid(map: &WorldMap, blacklist: &CoordMap<Class>) -> (ok: bool)
    requires
        map.wf(),
        blacklist.wf(),
    ensures
        ok == valid(map@, blacklist@),
{
    if !check_all_within(map, &map.treasures) {
        return false;
    }
    if !check_all_within(map, &map.wumpuses) {
        return false;
    }
    if !check_all_within(map, &map.pits) {
        return false;
    }
    if !check_blacklist(map, blacklist) {
        return false;
    }
    if map.treasures.len() > COUNT_TREASURES {
        return false;
    }
    if map.wumpuses.len() > COUNT_WUMPUSES {
        return false;
    }
    if map.pits.len() > COUNT_PITS {
        return false;
    }
    if !check_percepts_explained(&map.treasures, &map.discovered, &map.glitters) {
        return false;
    }
    if !check_percepts_explained(&map.wumpuses, &map.discovered, &map.stenches) {
        return false;
    }
    if !check_percepts_explained(&map.pits, &map.discovered, &map.breezes) {
        return false;
    }
    if !check_markers_justified(map, &map.glitters, &map.treasures) {
        return false;
    }
    if !check_markers_justified(map, &map.stenches, &map.wumpuses) {
        return false;
    }
    if !check_markers_justified(map, &map.breezes, &map.pits) {
        return false;
    }
    true
}

/// In a valid layout every marker has an occupant of its class next to it,
/// within the map, and every occupant finds its marker on each visited cell
/// next to it.
pub proof fn lemma_valid_markers(map: WorldMapView, blacklist: Map<Coordinate, Class>)
    requires
        valid(map, blacklist),
    ensures
        forall|m: Coordinate|
            map.glitters.contains(m) ==> exists|h: Coordinate|
                map.treasures.contains(h) && map.encompass(h) && m.adjacent(h),
        forall|m: Coordinate|
            map.stenches.contains(m) ==> exists|h: Coordinate|
                map.wumpuses.contains(h) && map.encompass(h) && m.adjacent(h),
        forall|m: Coordinate|
            map.breezes.contains(m) ==> exists|h: Coordinate|
                map.pits.contains(h) && map.encompass(h) && m.adjacent(h),
        forall|h: Coordinate, d: Coordinate|
            map.treasures.contains(h) && map.discovered.contains(d) && h.adjacent(d)
                ==> map.glitters.contains(d),
        forall|h: Coordinate, d: Coordinate|
            map.wumpuses.contains(h) && map.discovered.contains(d) && h.adjacent(d)
                ==> map.stenches.contains(d),
        forall|h: Coordinate, d: Coordinate|
            map.pits.contains(h) && map.discovered.contains(d) && h.adjacent(d)
                ==> map.breezes.contains(d),
{
}

/// A map whose occupants and visited cells lie within its rectangle, whose
/// occupants keep to the quotas and whose markers are exact is valid with an
/// empty blacklist.
pub proof fn lemma_consistent_map_is_valid(map: WorldMapView)
    requires
        map.markers_consistent(),
        all_within(map, map.treasures),
        all_within(map, map.wumpuses),
        all_within(map, map.pits),
        all_within(map, map.discovered),
        within_quota(map),
    ensures
        valid(map, Map::<Coordinate, Class>::empty()),
{
    assert forall|m: Coordinate| map.glitters.contains(m) implies justified(
        map,
        map.treasures,
        m,
    ) by {
        let h = choose|h: Coordinate| map.treasures.contains(h) && h.adjacent(m);
        assert(map.encompass(h) && m.adjacent(h));
    }
    assert forall|m: Coordinate| map.stenches.contains(m) implies justified(
        map,
        map.wumpuses,
        m,
    ) by {
        let h = choose|h: Coordinate| map.wumpuses.contains(h) && h.adjacent(m);
        assert(map.encompass(h) && m.adjacent(h));
    }
    assert forall|m: Coordinate| map.breezes.contains(m) implies justified(map, map.pits, m) by {
        let h = choose|h: Coordinate| map.pits.contains(h) && h.adjacent(m);
        assert(map.encompass(h) && m.adjacent(h));
    }
    assert forall|h: Coordinate, d: Coordinate|
        map.treasures.contains(h) && map.discovered.contains(d) && h.adjacent(
            d,
        ) implies map.glitters.contains(d) by {
        assert(marks(map.treasures).contains(d));
        assert(map.cells().contains(d));
    }
    assert forall|h: Coordinate, d: Coordinate|
        map.wumpuses.contains(h) && map.discovered.contains(d) && h.adjacent(
            d,
        ) implies map.stenches.contains(d) by {
        assert(marks(map.wumpuses).contains(d));
        assert(map.cells().contains(d));
    }
    assert forall|h: Coordinate, d: Coordinate|
        map.pits.contains(h) && map.discovered.contains(d) && h.adjacent(
            d,
        ) implies map.breezes.contains(d) by {
        assert(marks(map.pits).contains(d));
        assert(map.cells().contains(d));
    }
}

} // verus!
