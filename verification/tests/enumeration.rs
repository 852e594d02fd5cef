use wumpusworld::algorithms::{calculate_map_possibilities, hide_map, try_calculate_map_possibilities};
use wumpusworld::collections::CoordMap;
use wumpusworld::wumpus::{Class, ClassField, Coordinate, Game, WorldMap};

fn at(x: i32, y: i32) -> Coordinate {
    Coordinate { x, y }
}

fn field(empty: i32, treasure: i32, wumpus: i32, pit: i32) -> ClassField<i32> {
    ClassField { empty, treasure, wumpus, pit }
}

#[test]
fn nothing_unknown_on_a_valid_map_counts_one() {
    let mut map = WorldMap::default();
    map.add_pit(at(2, 2));
    map.discovered.insert(at(0, 0));
    let (total, counts) = calculate_map_possibilities(&[], &[], &map, &CoordMap::new());
    assert_eq!(total, 1);
    assert_eq!(counts.len(), 0);
}

#[test]
fn nothing_unknown_on_an_invalid_map_counts_nothing() {
    let mut map = WorldMap::default();
    map.add_treasure(at(1, 0));
    map.discovered.insert(at(0, 0));
    hide_map(&mut map);
    assert!(map.glitters.contains(&at(0, 0)));
    let (total, counts) = calculate_map_possibilities(&[], &[], &map, &CoordMap::new());
    assert_eq!(total, 0);
    assert_eq!(counts.len(), 0);
}

#[test]
fn silent_start_leaves_only_empty_neighbours() {
    let mut map = WorldMap::default();
    map.discovered.insert(at(0, 0));
    let frontier = [at(1, 0), at(0, 1)];
    let (total, counts) = calculate_map_possibilities(&frontier, &[], &map, &CoordMap::new());
    assert_eq!(total, 1);
    assert_eq!(counts.len(), 2);
    assert_eq!(counts.get(&at(1, 0)), Some(&field(1, 0, 0, 0)));
    assert_eq!(counts.get(&at(0, 1)), Some(&field(1, 0, 0, 0)));
}

#[test]
fn breeze_at_the_start_means_a_pit_next_to_it() {
    let mut map = WorldMap::default();
    map.discovered.insert(at(0, 0));
    map.breezes.insert(at(0, 0));
    let frontier = [at(1, 0), at(0, 1)];
    let (total, counts) = calculate_map_possibilities(&frontier, &[], &map, &CoordMap::new());
    assert_eq!(total, 3);
    assert_eq!(counts.get(&at(1, 0)), Some(&field(1, 0, 0, 2)));
    assert_eq!(counts.get(&at(0, 1)), Some(&field(1, 0, 0, 2)));
}

#[test]
fn stench_at_the_start_means_one_wumpus_next_to_it() {
    let mut map = WorldMap::default();
    map.discovered.insert(at(0, 0));
    map.stenches.insert(at(0, 0));
    let frontier = [at(1, 0), at(0, 1)];
    let (total, counts) = calculate_map_possibilities(&frontier, &[], &map, &CoordMap::new());
    assert_eq!(total, 2);
    assert_eq!(counts.get(&at(1, 0)), Some(&field(1, 0, 1, 0)));
    assert_eq!(counts.get(&at(0, 1)), Some(&field(1, 0, 1, 0)));
}

#[test]
fn blacklist_rules_layouts_out() {
    let mut map = WorldMap::default();
    map.discovered.insert(at(0, 0));
    map.breezes.insert(at(0, 0));
    let mut blacklist = CoordMap::new();
    blacklist.insert(at(1, 0), Class::Pit);
    let frontier = [at(1, 0), at(0, 1)];
    let (total, counts) = calculate_map_possibilities(&frontier, &[], &map, &blacklist);
    assert_eq!(total, 1);
    assert_eq!(counts.get(&at(1, 0)), Some(&field(1, 0, 0, 0)));
    assert_eq!(counts.get(&at(0, 1)), Some(&field(0, 0, 0, 1)));
}

#[test]
fn candidates_are_empty_or_hold_a_treasure() {
    let mut map = WorldMap::default();
    map.discovered.insert(at(0, 0));
    map.discovered.insert(at(1, 0));
    map.glitters.insert(at(1, 0));
    let frontier = [at(0, 1), at(2, 0), at(1, 1)];
    let candidates = [at(0, 0)];
    let (total, counts) = calculate_map_possibilities(&frontier, &candidates, &map, &CoordMap::new());
    assert_eq!(total, 6);
    assert_eq!(counts.len(), 4);
    assert_eq!(counts.get(&at(0, 1)), Some(&field(6, 0, 0, 0)));
    assert_eq!(counts.get(&at(2, 0)), Some(&field(3, 3, 0, 0)));
    assert_eq!(counts.get(&at(1, 1)), Some(&field(3, 3, 0, 0)));
    assert_eq!(counts.get(&at(0, 0)), Some(&field(3, 3, 0, 0)));
}

#[test]
fn a_candidate_alone_explains_the_glitter() {
    let mut map = WorldMap::default();
    map.discovered.insert(at(0, 0));
    map.discovered.insert(at(1, 0));
    map.glitters.insert(at(1, 0));
    let (total, counts) = calculate_map_possibilities(&[], &[at(0, 0)], &map, &CoordMap::new());
    assert_eq!(total, 1);
    assert_eq!(counts.get(&at(0, 0)), Some(&field(0, 1, 0, 0)));
}

#[test]
fn the_given_map_is_left_as_it_was() {
    let mut map = WorldMap::default();
    map.discovered.insert(at(0, 0));
    map.breezes.insert(at(0, 0));
    let frontier = [at(1, 0), at(0, 1)];
    let _ = calculate_map_possibilities(&frontier, &[], &map, &CoordMap::new());
    assert!(map.pits.is_empty());
    assert!(map.treasures.is_empty());
    assert!(map.wumpuses.is_empty());
}

#[test]
fn per_class_tallies_add_up_to_the_total() {
    let mut game = Game::new_with(&[at(2, 1), at(4, 4)], &[at(0, 2)], &[at(3, 0), at(1, 3), at(3, 3)]);
    game.do_action(wumpusworld::wumpus::Action::Walk);
    game.do_action(wumpusworld::wumpus::Action::Left);
    game.do_action(wumpusworld::wumpus::Action::Walk);
    let mut seen = game.map.clone();
    hide_map(&mut seen);
    let frontier = seen.get_frontier().to_vec();
    let (total, counts) = calculate_map_possibilities(&frontier, &[], &seen, &CoordMap::new());
    assert!(total > 0);
    assert_eq!(counts.len(), frontier.len());
    for cell in frontier.iter() {
        let tally = counts.get(cell).unwrap();
        assert_eq!(tally.empty + tally.treasure + tally.wumpus + tally.pit, total);
    }
}

#[test]
fn a_cell_listed_twice_keeps_the_tally_of_its_last_place() {
    let mut map = WorldMap::default();
    map.discovered.insert(at(0, 0));
    map.breezes.insert(at(0, 0));
    let frontier = [at(1, 0), at(1, 0)];
    let (total, counts) = calculate_map_possibilities(&frontier, &[], &map, &CoordMap::new());
    assert_eq!(total, 4);
    assert_eq!(counts.len(), 1);
    assert_eq!(counts.get(&at(1, 0)), Some(&field(0, 0, 0, 4)));
}

#[test]
fn the_total_version_gives_the_same_counts() {
    let mut map = WorldMap::default();
    map.discovered.insert(at(0, 0));
    map.breezes.insert(at(0, 0));
    let frontier = [at(1, 0), at(0, 1)];
    let counted = try_calculate_map_possibilities(&frontier, &[], &map, &CoordMap::new());
    let (total, counts) = counted.unwrap();
    assert_eq!(total, 3);
    assert_eq!(counts.get(&at(1, 0)), Some(&field(1, 0, 0, 2)));
    assert_eq!(counts.get(&at(0, 1)), Some(&field(1, 0, 0, 2)));
    let (total, counts) = try_calculate_map_possibilities(&[], &[], &map, &CoordMap::new()).unwrap();
    assert_eq!(total, 0);
    assert_eq!(counts.len(), 0);
}
