//! How an episode begins: the standard map, six special cells drawn at
//! random, and the player on the spawn cell.

use vstd::prelude::*;
use crate::chance::random_index;
use crate::algorithms::validator::all_within;
use crate::algorithms::validator::valid;
use crate::collections::coord_set::lemma_push_to_set;
use crate::wumpus::class::Class;
use crate::wumpus::events::Events;
use crate::wumpus::game::sound;
use crate::wumpus::game::Game;
use crate::wumpus::game::GameView;
use crate::wumpus::geometry::Coordinate;
use crate::wumpus::geometry::Direction;
use crate::wumpus::map::marks;
use crate::wumpus::map::WorldMap;
use crate::wumpus::map::WorldMapView;
use crate::wumpus::rules::COUNT_PITS;
use crate::wumpus::rules::COUNT_TREASURES;
use crate::wumpus::rules::COUNT_WUMPUSES;
use crate::wumpus::rules::MAP_CELLS;
use crate::wumpus::rules::MAP_CORNER_X;
use crate::wumpus::rules::MAP_CORNER_Y;
use crate::wumpus::rules::SPAWN_ARROWS;

verus! {

/// The cell on which the player starts.
pub open spec fn spec_spawn_location() -> Coordinate {
    Coordinate { x: 0, y: 0 }
}

/// The cell on which the player starts.
#[verifier::when_used_as_spec(spec_spawn_location)]
pub fn spawn_location() -> (r: Coordinate)
    ensures
        r == spec_spawn_location(),
{
    Coordinate { x: 0, y: 0 }
}

/// The `k`-th cell of the standard map, counted column by column from the
/// spawn cell.
pub open spec fn standard_cell(k: int) -> Coordinate {
    Coordinate { x: (k / (MAP_CORNER_Y + 1)) as i32, y: (k % (MAP_CORNER_Y + 1)) as i32 }
}

/// Whether `cell` lies on the standard map.
pub open spec fn on_standard_map(cell: Coordinate) -> bool {
    0 <= cell.x <= MAP_CORNER_X && 0 <= cell.y <= MAP_CORNER_Y
}

/// Whether `cells` are distinct cells of the standard map, none of them the
/// spawn cell.
pub open spec fn special_cells(cells: Seq<Coordinate>) -> bool {
    &&& cells.no_duplicates()
    &&& forall|i: int|
        0 <= i < cells.len() ==> on_standard_map(#[trigger] cells[i]) && cells[i]
            != spec_spawn_location()
}

/// The standard map on which `treasures`, `wumpuses` and `pits` were put,
/// with the markers they leave on the cells of the map; no cell is visited
/// yet.
pub open spec fn laid_out(
    treasures: Seq<Coordinate>,
    wumpuses: Seq<Coordinate>,
    pits: Seq<Coordinate>,
) -> WorldMapView {
    WorldMapView {
        size: Coordinate { x: MAP_CORNER_X, y: MAP_CORNER_Y },
        treasures: treasures.to_set(),
        wumpuses: wumpuses.to_set(),
        pits: pits.to_set(),
        glitters: marks(treasures.to_set()).intersect(WorldMap::spec_standard().cells()),
        stenches: marks(wumpuses.to_set()).intersect(WorldMap::spec_standard().cells()),
        breezes: marks(pits.to_set()).intersect(WorldMap::spec_standard().cells()),
        discovered: Set::empty(),
    }
}

/// The first state of an episode on the standard map with the given special
/// cells: the player is put on the spawn cell, looks east, has one arrow and
/// senses what surrounds the spawn cell.
pub open spec fn first_state(
    treasures: Seq<Coordinate>,
    wumpuses: Seq<Coordinate>,
    pits: Seq<Coordinate>,
) -> GameView {
    GameView {
        map: laid_out(treasures, wumpuses, pits),
        location: spec_spawn_location(),
        direction: Direction::East,
        events: Events::spec_none(),
        game_over: false,
        score: 0,
        arrows: SPAWN_ARROWS as int,
    }.placed(spec_spawn_location()).sensed()
}

/// All cells of the standard map but the spawn cell.
fn free_cells() -> (r: Vec<Coordinate>)
    ensures
        special_cells(r@),
        r@.len() == MAP_CELLS - 1,
{
    let mut cells: Vec<Coordinate> = Vec::new();
    let mut k: i32 = 1;
    while k < MAP_CELLS
        invariant
            1 <= k <= MAP_CELLS,
            cells@.len() == k - 1,
            forall|i: int| 0 <= i < cells@.len() ==> #[trigger] cells@[i] == standard_cell(i + 1),
        decreases MAP_CELLS - k,
    {
        cells.push(Coordinate { x: k / (MAP_CORNER_Y + 1), y: k % (MAP_CORNER_Y + 1) });
        k += 1;
    }
    cells
}

/// Draws `count` distinct cells of the standard map other than the spawn
/// cell. Each is drawn uniformly from the cells that are still free.
fn draw_special_cells(count: usize) -> (r: Vec<Coordinate>)
    requires
        count < MAP_CELLS,
    ensures
        r@.len() == count,
        special_cells(r@),
{
    let mut free = free_cells();
    let mut chosen: Vec<Coordinate> = Vec::new();
    while chosen.len() < count
        invariant
            count < MAP_CELLS,
            chosen@.len() <= count,
            free@.len() + chosen@.len() == MAP_CELLS - 1,
            special_cells(free@),
            special_cells(chosen@),
            forall|i: int, j: int|
                0 <= i < chosen@.len() && 0 <= j < free@.len() ==> #[trigger] chosen@[i]
                    != #[trigger] free@[j],
        decreases count - chosen@.len(),
    {
        let index = random_index(free.len());
        let cell = free.remove(index);
        chosen.push(cell);
    }
    chosen
}

/// Puts an occupant of `class` on each of `cells`.
fn put_all(map: &mut WorldMap, class: Class, cells: &[Coordinate])
    requires
        old(map).wf(),
        old(map)@.markers_consistent(),
        class != Class::Empty,
    ensures
        final(map).wf(),
        final(map)@.markers_consistent(),
        final(map)@.size == old(map)@.size,
        final(map)@.discovered == old(map)@.discovered,
        final(map)@.treasures == (if class == Class::Treasure {
            old(map)@.treasures.union(cells@.to_set())
        } else {
            old(map)@.treasures
        }),
        final(map)@.wumpuses == (if class == Class::Wumpus {
            old(map)@.wumpuses.union(cells@.to_set())
        } else {
            old(map)@.wumpuses
        }),
        final(map)@.pits == (if class == Class::Pit {
            old(map)@.pits.union(cells@.to_set())
        } else {
            old(map)@.pits
        }),
{
    let mut i: usize = 0;
    while i < cells.len()
        invariant
            i <= cells.len(),
            class != Class::Empty,
            map.wf(),
            map@.markers_consistent(),
            map@.size == old(map)@.size,
            map@.discovered == old(map)@.discovered,
            map@.treasures == (if class == Class::Treasure {
                old(map)@.treasures.union(cells@.take(i as int).to_set())
            } else {
                old(map)@.treasures
            }),
            map@.wumpuses == (if class == Class::Wumpus {
                old(map)@.wumpuses.union(cells@.take(i as int).to_set())
            } else {
                old(map)@.wumpuses
            }),
            map@.pits == (if class == Class::Pit {
                old(map)@.pits.union(cells@.take(i as int).to_set())
            } else {
                old(map)@.pits
            }),
        decreases cells.len() - i,
    {
        proof {
            let before = cells@.take(i as int);
            assert(cells@.take(i + 1) =~= before.push(cells@[i as int]));
            lemma_push_to_set(before, cells@[i as int]);
        }
        match class {
            Class::Treasure => {
                map.add_treasure(cells[i]);
            },
            Class::Wumpus => {
                map.add_wumpus(cells[i]);
            },
            _ => {
                map.add_pit(cells[i]);
            },
        }
        i += 1;
    }
    assert(cells@.take(cells.len() as int) =~= cells@);
}

/// A list of cells of the standard map stands for a set of cells within it
/// that is no larger than the list is long.
proof fn lemma_cells_as_set(cells: Seq<Coordinate>, map: WorldMapView)
    requires
        map.size == (Coordinate { x: MAP_CORNER_X, y: MAP_CORNER_Y }),
        forall|i: int| 0 <= i < cells.len() ==> on_standard_map(#[trigger] cells[i]),
    ensures
        all_within(map, cells.to_set()),
        cells.to_set().len() <= cells.len(),
        cells.no_duplicates() ==> cells.to_set().len() == cells.len(),
{
    cells.lemma_cardinality_of_set();
    if cells.no_duplicates() {
        cells.unique_seq_to_set();
    }
}

/// An episode that begins with special cells on the standard map and within
/// the quotas begins on a valid map.
pub proof fn lemma_first_state_is_valid(
    treasures: Seq<Coordinate>,
    wumpuses: Seq<Coordinate>,
    pits: Seq<Coordinate>,
)
    requires
        forall|i: int| 0 <= i < treasures.len() ==> on_standard_map(#[trigger] treasures[i]),
        forall|i: int| 0 <= i < wumpuses.len() ==> on_standard_map(#[trigger] wumpuses[i]),
        forall|i: int| 0 <= i < pits.len() ==> on_standard_map(#[trigger] pits[i]),
        treasures.len() <= COUNT_TREASURES,
        wumpuses.len() <= COUNT_WUMPUSES,
        pits.len() <= COUNT_PITS,
    ensures
        valid(first_state(treasures, wumpuses, pits).map, Map::<Coordinate, Class>::empty()),
        sound(first_state(treasures, wumpuses, pits).map),
{
    let map = first_state(treasures, wumpuses, pits).map;
    lemma_cells_as_set(treasures, map);
    lemma_cells_as_set(wumpuses, map);
    lemma_cells_as_set(pits, map);
}

impl Game {
    /// Begins an episode on the standard map with the given special cells.
    pub fn new_with(treasures: &[Coordinate], wumpuses: &[Coordinate], pits: &[Coordinate]) -> (r:
        Game)
        ensures
            r.wf(),
            r@ == first_state(treasures@, wumpuses@, pits@),
    {
        let mut map = WorldMap::default();
        put_all(&mut map, Class::Treasure, treasures);
        put_all(&mut map, Class::Wumpus, wumpuses);
        put_all(&mut map, Class::Pit, pits);
        let mut game = Game {
            map,
            location: spawn_location(),
            direction: Direction::East,
            events: Events::none(),
            game_over: false,
            score: 0,
            arrows: SPAWN_ARROWS,
        };
        game.place_player(&spawn_location());
        game.update_senses();
        game
    }

    /// Begins an episode: two treasures, one wumpus and three pits are put on
    /// distinct cells of the standard map, drawn at random among all cells
    /// but the spawn cell.
    pub fn new_random() -> (r: Game)
        ensures
            r.wf(),
            exists|cells: Seq<Coordinate>|
                #![trigger special_cells(cells)]
                special_cells(cells) && cells.len() == COUNT_TREASURES + COUNT_WUMPUSES
                    + COUNT_PITS && r@ == first_state(
                    cells.subrange(0, COUNT_TREASURES as int),
                    cells.subrange(
                        COUNT_TREASURES as int,
                        COUNT_TREASURES as int + COUNT_WUMPUSES as int,
                    ),
                    cells.subrange(
                        COUNT_TREASURES as int + COUNT_WUMPUSES as int,
                        cells.len() as int,
                    ),
                ),
            valid(r@.map, Map::<Coordinate, Class>::empty()),
            sound(r@.map),
            r@.map.treasures.len() == COUNT_TREASURES,
            r@.map.wumpuses.len() == COUNT_WUMPUSES,
            r@.map.pits.len() == COUNT_PITS,
            r@.map.treasures.disjoint(r@.map.wumpuses),
            r@.map.treasures.disjoint(r@.map.pits),
            r@.map.wumpuses.disjoint(r@.map.pits),
            r@.map.class_at(spec_spawn_location()) == Class::Empty,
            r@.map.discovered == set![spec_spawn_location()],
            r@.location == spec_spawn_location(),
            r@.direction == Direction::East,
            r@.score == 0,
            r@.arrows == SPAWN_ARROWS,
            !r@.game_over,
    {
        let cells = draw_special_cells(COUNT_TREASURES + COUNT_WUMPUSES + COUNT_PITS);
        let all = cells.as_slice();
        let treasures = slice_part(all, 0, COUNT_TREASURES);
        let wumpuses = slice_part(all, COUNT_TREASURES, COUNT_TREASURES + COUNT_WUMPUSES);
        let pits = slice_part(all, COUNT_TREASURES + COUNT_WUMPUSES, all.len());
        let game = Game::new_with(treasures, wumpuses, pits);
        proof {
            let t = treasures@;
            let w = wumpuses@;
            let p = pits@;
            lemma_cells_as_set(t, game@.map);
            lemma_cells_as_set(w, game@.map);
            lemma_cells_as_set(p, game@.map);
        }
        game
    }
}

/// The part of `cells` from position `from` up to position `to`.
fn slice_part(cells: &[Coordinate], from: usize, to: usize) -> (r: &[Coordinate])
    requires
        from <= to <= cells@.len(),
    ensures
        r@ == cells@.subrange(from as int, to as int),
{
    vstd::slice::slice_subrange(cells, from, to)
}

} // verus!
