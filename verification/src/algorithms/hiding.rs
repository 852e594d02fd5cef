//! What a remote player is allowed to see of a map.

use vstd::prelude::*;
use crate::wumpus::map::WorldMap;
use crate::wumpus::map::WorldMapView;

verus! {

/// The part of a map that may be shown to the player: of the occupants and
/// of the markers only what lies on visited cells.
pub open spec fn hidden(map: WorldMapView) -> WorldMapView {
    WorldMapView {
        size: map.size,
        treasures: map.discovered.intersect(map.treasures),
        wumpuses: map.discovered.intersect(map.wumpuses),
        pits: map.discovered.intersect(map.pits),
        glitters: map.discovered.intersect(map.glitters),
        stenches: map.discovered.intersect(map.stenches),
        breezes: map.discovered.intersect(map.breezes),
        discovered: map.discovered,
    }
}

/// Strips from `map` what the player may not see.
pub fn hide_map(map: &mut WorldMap)
    requires
        old(map).wf(),
    ensures
        final(map).wf(),
        final(map)@ == hidden(old(map)@),
{
    map.treasures = map.discovered.intersection(&map.treasures);
    map.wumpuses = map.discovered.intersection(&map.wumpuses);
    map.pits = map.discovered.intersection(&map.pits);
    map.glitters = map.discovered.intersection(&map.glitters);
    map.stenches = map.discovered.intersection(&map.stenches);
    map.breezes = map.discovered.intersection(&map.breezes);
}

/// Hiding a map twice shows no less than hiding it once, and it never shows
/// an occupant or a marker on a cell that was not visited.
pub proof fn lemma_hidden(map: WorldMapView)
    ensures
        hidden(hidden(map)) == hidden(map),
        hidden(map).treasures.subset_of(map.discovered),
        hidden(map).treasures.subset_of(map.treasures),
        hidden(map).wumpuses.subset_of(map.discovered),
        hidden(map).pits.subset_of(map.discovered),
        hidden(map).glitters.subset_of(map.discovered),
        hidden(map).stenches.subset_of(map.discovered),
        hidden(map).breezes.subset_of(map.discovered),
        map.contained() ==> hidden(map).contained(),
{
}

} // verus!
