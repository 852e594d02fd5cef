use wumpusworld::algorithms::{path_to_actions, pathfind, try_pathfind};
use wumpusworld::collections::CoordMap;
use wumpusworld::wumpus::{Action, Coordinate, Direction, WorldMap};

fn at(x: i32, y: i32) -> Coordinate {
    Coordinate { x, y }
}

fn visited(cells: &[Coordinate]) -> WorldMap {
    let mut map = WorldMap::default();
    for cell in cells {
        map.discovered.insert(*cell);
    }
    map
}

#[test]
fn start_costs_nothing_and_needs_no_action() {
    let map = visited(&[at(0, 0), at(1, 0)]);
    let (links, costs) = pathfind(&at(0, 0), &Direction::East, &map);
    assert_eq!(costs.get(&at(0, 0)), Some(&0));
    assert_eq!(links.get(&at(0, 0)), Some(&at(0, 0)));
    assert_eq!(path_to_actions(&at(0, 0), &Direction::East, &links), Some(vec![]));
}

#[test]
fn start_that_was_never_visited_is_still_the_start() {
    let map = WorldMap::default();
    let (links, costs) = pathfind(&at(2, 2), &Direction::North, &map);
    assert_eq!(costs.get(&at(2, 2)), Some(&0));
    assert_eq!(links.len(), 5);
    assert_eq!(costs.get(&at(2, 3)), Some(&1));
    assert_eq!(costs.get(&at(3, 2)), Some(&2));
    assert_eq!(costs.get(&at(1, 2)), Some(&2));
    assert_eq!(costs.get(&at(2, 1)), Some(&3));
    assert_eq!(path_to_actions(&at(2, 2), &Direction::North, &links), Some(vec![]));
}

#[test]
fn one_step_ahead_and_one_step_to_the_left() {
    let map = visited(&[at(0, 0)]);
    let (links, costs) = pathfind(&at(0, 0), &Direction::East, &map);
    assert_eq!(costs.get(&at(1, 0)), Some(&1));
    assert_eq!(costs.get(&at(0, 1)), Some(&2));
    assert_eq!(links.get(&at(1, 0)), Some(&at(0, 0)));
    assert_eq!(links.get(&at(0, 1)), Some(&at(0, 0)));
    assert_eq!(links.len(), 3);
    assert_eq!(costs.len(), 3);
    assert_eq!(path_to_actions(&at(1, 0), &Direction::East, &links), Some(vec![Action::Walk]));
    assert_eq!(
        path_to_actions(&at(0, 1), &Direction::East, &links),
        Some(vec![Action::Left, Action::Walk])
    );
}

#[test]
fn turning_right_and_turning_back() {
    let map = visited(&[at(1, 1)]);
    let (links, costs) = pathfind(&at(1, 1), &Direction::East, &map);
    assert_eq!(costs.get(&at(2, 1)), Some(&1));
    assert_eq!(costs.get(&at(1, 0)), Some(&2));
    assert_eq!(costs.get(&at(1, 2)), Some(&2));
    assert_eq!(costs.get(&at(0, 1)), Some(&3));
    assert_eq!(
        path_to_actions(&at(1, 0), &Direction::East, &links),
        Some(vec![Action::Right, Action::Walk])
    );
    assert_eq!(
        path_to_actions(&at(0, 1), &Direction::East, &links),
        Some(vec![Action::Right, Action::Right, Action::Walk])
    );
}

#[test]
fn hazards_are_costly_but_not_forbidden() {
    let mut map = visited(&[at(0, 0), at(1, 0)]);
    map.wumpuses.insert(at(2, 0));
    map.pits.insert(at(1, 1));
    let (links, costs) = pathfind(&at(0, 0), &Direction::East, &map);
    assert_eq!(costs.get(&at(1, 0)), Some(&1));
    assert_eq!(costs.get(&at(2, 0)), Some(&202));
    assert_eq!(costs.get(&at(1, 1)), Some(&103));
    assert_eq!(costs.get(&at(0, 1)), Some(&2));
    assert_eq!(
        path_to_actions(&at(1, 1), &Direction::East, &links),
        Some(vec![Action::Walk, Action::Left, Action::Walk])
    );
    assert_eq!(
        path_to_actions(&at(2, 0), &Direction::East, &links),
        Some(vec![Action::Walk, Action::Walk])
    );
}

#[test]
fn cells_beyond_the_visited_ones_are_out_of_reach() {
    let map = visited(&[at(0, 0), at(1, 0)]);
    let (links, costs) = pathfind(&at(0, 0), &Direction::East, &map);
    assert!(!links.contains_key(&at(3, 0)));
    assert!(!costs.contains_key(&at(3, 0)));
    assert!(!links.contains_key(&at(0, 2)));
    assert!(!links.contains_key(&at(-1, 0)));
    assert_eq!(path_to_actions(&at(3, 0), &Direction::East, &links), None);
    assert_eq!(links.len(), 5);
}

#[test]
fn a_longer_route_through_visited_cells() {
    let map = visited(&[at(0, 0), at(1, 0), at(2, 0), at(2, 1), at(2, 2)]);
    let (links, costs) = pathfind(&at(0, 0), &Direction::East, &map);
    assert_eq!(costs.get(&at(2, 0)), Some(&2));
    assert_eq!(costs.get(&at(2, 1)), Some(&4));
    assert_eq!(costs.get(&at(2, 2)), Some(&5));
    assert_eq!(costs.get(&at(2, 3)), Some(&6));
    assert_eq!(costs.get(&at(1, 2)), Some(&7));
    assert_eq!(
        path_to_actions(&at(1, 2), &Direction::East, &links),
        Some(vec![
            Action::Walk,
            Action::Walk,
            Action::Left,
            Action::Walk,
            Action::Walk,
            Action::Left,
            Action::Walk
        ])
    );
}

#[test]
fn every_link_joins_adjacent_cells_and_costs_fall_towards_the_start() {
    let mut map = WorldMap::default();
    for x in 0..5 {
        for y in 0..5 {
            if (x + y) % 3 != 2 {
                map.discovered.insert(at(x, y));
            }
        }
    }
    map.pits.insert(at(1, 1));
    map.wumpuses.insert(at(3, 0));
    let start = at(0, 0);
    let (links, costs) = pathfind(&start, &Direction::North, &map);
    assert_eq!(links.len(), costs.len());
    for cell in links.keys() {
        let parent = *links.get(cell).unwrap();
        if *cell == start {
            assert_eq!(parent, start);
            continue;
        }
        assert!(parent.is_adjacent(cell));
        assert!(map.encompass(cell));
        assert!(costs.get(cell).unwrap() > costs.get(&parent).unwrap());
        assert!(parent == start || map.discovered.contains(&parent));
        assert!(path_to_actions(cell, &Direction::North, &links).is_some());
    }
}

#[test]
fn hand_made_links_are_followed_back_to_the_self_linked_cell() {
    let mut links: CoordMap<Coordinate> = CoordMap::new();
    links.insert(at(5, 5), at(5, 5));
    links.insert(at(5, 6), at(5, 5));
    links.insert(at(4, 6), at(5, 6));
    assert_eq!(
        path_to_actions(&at(4, 6), &Direction::South, &links),
        Some(vec![Action::Right, Action::Right, Action::Walk, Action::Left, Action::Walk])
    );
    assert_eq!(path_to_actions(&at(9, 9), &Direction::South, &links), None);
}

#[test]
fn links_that_end_at_a_missing_cell_start_there() {
    let mut links: CoordMap<Coordinate> = CoordMap::new();
    links.insert(at(1, 0), at(0, 0));
    assert_eq!(path_to_actions(&at(1, 0), &Direction::East, &links), Some(vec![Action::Walk]));
}

#[test]
fn the_total_search_gives_the_same_routes() {
    let mut map = visited(&[at(0, 0), at(1, 0)]);
    map.pits.insert(at(1, 1));
    let (links, costs) = try_pathfind(&at(0, 0), &Direction::East, &map).unwrap();
    assert_eq!(costs.get(&at(0, 0)), Some(&0));
    assert_eq!(links.get(&at(0, 0)), Some(&at(0, 0)));
    assert_eq!(costs.get(&at(1, 1)), Some(&103));
    assert_eq!(path_to_actions(&at(0, 0), &Direction::East, &links), Some(vec![]));
    let (same_links, same_costs) = pathfind(&at(0, 0), &Direction::East, &map);
    assert_eq!(links.keys(), same_links.keys());
    for cell in links.keys() {
        assert_eq!(links.get(cell), same_links.get(cell));
        assert_eq!(costs.get(cell), same_costs.get(cell));
    }
}
