use wumpusworld::algorithms::hide_map;
use wumpusworld::collections::CoordSet;
use wumpusworld::wumpus::{Class, Coordinate, WorldMap};

fn at(x: i32, y: i32) -> Coordinate {
    Coordinate { x, y }
}

fn sorted(set: &CoordSet) -> Vec<(i32, i32)> {
    let mut cells: Vec<(i32, i32)> = set.to_vec().iter().map(|c| (c.x, c.y)).collect();
    cells.sort();
    cells
}

#[test]
fn default_map_is_five_by_five_and_empty() {
    let map = WorldMap::default();
    assert_eq!(map.size, at(4, 4));
    assert!(map.treasures.is_empty());
    assert!(map.wumpuses.is_empty());
    assert!(map.pits.is_empty());
    assert!(map.glitters.is_empty());
    assert!(map.stenches.is_empty());
    assert!(map.breezes.is_empty());
    assert!(map.discovered.is_empty());
    let mut cells = 0;
    for x in -1..7 {
        for y in -1..7 {
            if map.encompass(&at(x, y)) {
                cells += 1;
            }
        }
    }
    assert_eq!(cells, 25);
}

#[test]
fn encompass_includes_both_corners() {
    let map = WorldMap::new(at(3, 2));
    assert!(map.encompass(&at(0, 0)));
    assert!(map.encompass(&at(3, 2)));
    assert!(map.encompass(&at(3, 0)));
    assert!(!map.encompass(&at(4, 0)));
    assert!(!map.encompass(&at(0, 3)));
    assert!(!map.encompass(&at(-1, 0)));
    assert!(!map.encompass(&at(0, -1)));
}

#[test]
fn adding_marks_every_neighbour_within_the_map() {
    let mut map = WorldMap::default();
    map.add_treasure(at(0, 0));
    map.add_wumpus(at(2, 2));
    map.add_pit(at(4, 4));
    assert_eq!(sorted(&map.treasures), vec![(0, 0)]);
    assert_eq!(sorted(&map.glitters), vec![(0, 1), (1, 0)]);
    assert_eq!(sorted(&map.wumpuses), vec![(2, 2)]);
    assert_eq!(sorted(&map.stenches), vec![(1, 2), (2, 1), (2, 3), (3, 2)]);
    assert_eq!(sorted(&map.pits), vec![(4, 4)]);
    assert_eq!(sorted(&map.breezes), vec![(3, 4), (4, 3)]);
}

#[test]
fn adding_on_the_edge_keeps_every_set_within_the_map() {
    let mut map = WorldMap::default();
    map.add_pit(at(0, 2));
    map.add_wumpus(at(4, 0));
    map.add_treasure(at(2, 4));
    assert_eq!(sorted(&map.breezes), vec![(0, 1), (0, 3), (1, 2)]);
    assert_eq!(sorted(&map.stenches), vec![(3, 0), (4, 1)]);
    assert_eq!(sorted(&map.glitters), vec![(1, 4), (2, 3), (3, 4)]);
    for set in [&map.glitters, &map.stenches, &map.breezes, &map.treasures, &map.wumpuses, &map.pits] {
        for cell in set.to_vec() {
            assert!(map.encompass(&cell));
        }
    }
}

#[test]
fn adding_outside_the_map_marks_only_cells_of_the_map() {
    let mut map = WorldMap::default();
    map.add_pit(at(5, 2));
    assert_eq!(sorted(&map.pits), vec![(5, 2)]);
    assert_eq!(sorted(&map.breezes), vec![(4, 2)]);
    map.add_wumpus(at(9, 9));
    assert!(map.stenches.is_empty());
}

#[test]
fn removing_keeps_a_marker_that_another_occupant_justifies() {
    let mut map = WorldMap::default();
    map.add_pit(at(0, 1));
    map.add_pit(at(2, 1));
    assert!(map.breezes.contains(&at(1, 1)));
    assert_eq!(sorted(&map.breezes), vec![(0, 0), (0, 2), (1, 1), (2, 0), (2, 2), (3, 1)]);
    map.remove_pit(at(0, 1));
    assert_eq!(sorted(&map.pits), vec![(2, 1)]);
    assert_eq!(sorted(&map.breezes), vec![(1, 1), (2, 0), (2, 2), (3, 1)]);
    map.remove_pit(at(2, 1));
    assert!(map.pits.is_empty());
    assert!(map.breezes.is_empty());
}

#[test]
fn add_then_remove_gives_the_markers_back() {
    let mut map = WorldMap::default();
    map.add_treasure(at(1, 1));
    map.add_wumpus(at(3, 3));
    let glitters = sorted(&map.glitters);
    let stenches = sorted(&map.stenches);
    map.add_treasure(at(1, 2));
    map.add_wumpus(at(3, 2));
    map.add_pit(at(0, 0));
    map.remove_treasure(at(1, 2));
    map.remove_wumpus(at(3, 2));
    map.remove_pit(at(0, 0));
    assert_eq!(sorted(&map.glitters), glitters);
    assert_eq!(sorted(&map.stenches), stenches);
    assert!(map.breezes.is_empty());
    assert_eq!(sorted(&map.treasures), vec![(1, 1)]);
    assert_eq!(sorted(&map.wumpuses), vec![(3, 3)]);
}

#[test]
fn removing_what_is_not_there_still_clears_unjustified_markers() {
    let mut map = WorldMap::default();
    map.glitters.insert(at(1, 0));
    map.glitters.insert(at(3, 3));
    map.remove_treasure(at(0, 0));
    assert_eq!(sorted(&map.glitters), vec![(3, 3)]);
}

#[test]
fn apply_classes_overwrites_each_cell() {
    let mut map = WorldMap::default();
    map.treasures.insert(at(0, 0));
    map.pits.insert(at(1, 0));
    map.wumpuses.insert(at(3, 3));
    map.apply_classes(
        &[at(0, 0), at(1, 0), at(2, 0), at(2, 1)],
        &[Class::Pit, Class::Empty, Class::Wumpus, Class::Treasure],
    );
    assert_eq!(sorted(&map.treasures), vec![(2, 1)]);
    assert_eq!(sorted(&map.wumpuses), vec![(2, 0), (3, 3)]);
    assert_eq!(sorted(&map.pits), vec![(0, 0)]);
    assert!(map.glitters.is_empty());
}

#[test]
fn apply_classes_lets_the_last_occurrence_win_and_ignores_what_has_no_partner() {
    let mut map = WorldMap::default();
    map.apply_classes(&[at(1, 1), at(1, 1), at(2, 2)], &[Class::Pit, Class::Wumpus]);
    assert!(map.pits.is_empty());
    assert_eq!(sorted(&map.wumpuses), vec![(1, 1)]);
    assert!(map.treasures.is_empty());
}

#[test]
fn assign_sets_one_cell() {
    let mut map = WorldMap::default();
    map.assign(at(1, 1), Class::Treasure);
    assert!(map.treasures.contains(&at(1, 1)));
    map.assign(at(1, 1), Class::Pit);
    assert!(!map.treasures.contains(&at(1, 1)));
    assert!(map.pits.contains(&at(1, 1)));
    map.assign(at(1, 1), Class::Empty);
    assert!(map.pits.is_empty());
}

#[test]
fn frontier_is_the_unvisited_rim() {
    let mut map = WorldMap::default();
    assert!(map.get_frontier().is_empty());
    map.discovered.insert(at(0, 0));
    assert_eq!(sorted(&map.get_frontier()), vec![(0, 1), (1, 0)]);
    map.discovered.insert(at(1, 0));
    assert_eq!(sorted(&map.get_frontier()), vec![(0, 1), (1, 1), (2, 0)]);
    map.discovered.insert(at(4, 4));
    assert_eq!(sorted(&map.get_frontier()), vec![(0, 1), (1, 1), (2, 0), (3, 4), (4, 3)]);
}

#[test]
fn hiding_keeps_only_what_lies_on_visited_cells() {
    let mut map = WorldMap::default();
    map.add_treasure(at(1, 0));
    map.add_wumpus(at(0, 1));
    map.add_pit(at(2, 2));
    map.discovered.insert(at(0, 0));
    map.discovered.insert(at(0, 1));
    map.discovered.insert(at(2, 1));
    hide_map(&mut map);
    assert!(map.treasures.is_empty());
    assert_eq!(sorted(&map.wumpuses), vec![(0, 1)]);
    assert!(map.pits.is_empty());
    assert_eq!(sorted(&map.glitters), vec![(0, 0)]);
    assert_eq!(sorted(&map.stenches), vec![(0, 0)]);
    assert_eq!(sorted(&map.breezes), vec![(2, 1)]);
    assert_eq!(sorted(&map.discovered), vec![(0, 0), (0, 1), (2, 1)]);
    assert_eq!(map.size, at(4, 4));
}

#[test]
fn hiding_keeps_a_treasure_on_a_visited_cell() {
    let mut map = WorldMap::default();
    map.add_treasure(at(1, 0));
    map.add_treasure(at(3, 3));
    map.discovered.insert(at(0, 0));
    map.discovered.insert(at(1, 0));
    hide_map(&mut map);
    assert_eq!(sorted(&map.treasures), vec![(1, 0)]);
    assert_eq!(sorted(&map.glitters), vec![(0, 0)]);
    assert_eq!(sorted(&map.discovered), vec![(0, 0), (1, 0)]);
}

#[test]
fn hiding_twice_changes_nothing_more() {
    let mut map = WorldMap::default();
    map.add_wumpus(at(1, 1));
    map.add_pit(at(0, 1));
    map.discovered.insert(at(0, 1));
    map.discovered.insert(at(1, 0));
    hide_map(&mut map);
    let once = (sorted(&map.wumpuses), sorted(&map.pits), sorted(&map.stenches), sorted(&map.breezes));
    hide_map(&mut map);
    let twice = (sorted(&map.wumpuses), sorted(&map.pits), sorted(&map.stenches), sorted(&map.breezes));
    assert_eq!(once, twice);
}
