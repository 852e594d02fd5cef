use wumpusworld::collections::CoordSet;
use wumpusworld::wumpus::{Coordinate, Direction};

fn at(x: i32, y: i32) -> Coordinate {
    Coordinate { x, y }
}

fn sorted(set: &CoordSet) -> Vec<(i32, i32)> {
    let mut cells: Vec<(i32, i32)> = set.to_vec().iter().map(|c| (c.x, c.y)).collect();
    cells.sort();
    cells
}

#[test]
fn rotations_are_quarter_turns() {
    assert_eq!(Direction::East.rotate_left(), Direction::North);
    assert_eq!(Direction::South.rotate_left(), Direction::East);
    assert_eq!(Direction::West.rotate_left(), Direction::South);
    assert_eq!(Direction::North.rotate_left(), Direction::West);
    assert_eq!(Direction::East.rotate_right(), Direction::South);
    assert_eq!(Direction::South.rotate_right(), Direction::West);
    assert_eq!(Direction::West.rotate_right(), Direction::North);
    assert_eq!(Direction::North.rotate_right(), Direction::East);
    assert_eq!(Direction::East.rotate_back(), Direction::West);
    assert_eq!(Direction::South.rotate_back(), Direction::North);
    assert_eq!(Direction::West.rotate_back(), Direction::East);
    assert_eq!(Direction::North.rotate_back(), Direction::South);
}

#[test]
fn rotations_compose() {
    for d in Direction::all() {
        assert_eq!(d.rotate_left().rotate_right(), d);
        assert_eq!(d.rotate_right().rotate_left(), d);
        assert_eq!(d.rotate_left().rotate_left(), d.rotate_back());
        assert_eq!(d.rotate_right().rotate_right(), d.rotate_back());
        assert_eq!(d.rotate_back().rotate_back(), d);
    }
}

#[test]
fn default_direction_is_east() {
    assert_eq!(Direction::default(), Direction::East);
    assert_eq!(Coordinate::default(), at(0, 0));
}

#[test]
fn reserved_coordinates() {
    assert_eq!(Coordinate::nowhere(), at(-1, -1));
    assert_eq!(Coordinate::unknown(), at(-2, -2));
    assert_ne!(Coordinate::nowhere(), Coordinate::unknown());
}

#[test]
fn front_moves_one_step() {
    let c = at(2, 3);
    assert_eq!(c.get_front(&Direction::East), at(3, 3));
    assert_eq!(c.get_front(&Direction::South), at(2, 2));
    assert_eq!(c.get_front(&Direction::West), at(1, 3));
    assert_eq!(c.get_front(&Direction::North), at(2, 4));
}

#[test]
fn checked_front_stops_at_the_machine_limits() {
    assert_eq!(at(i32::MAX, 0).checked_front(&Direction::East), None);
    assert_eq!(at(i32::MIN, 0).checked_front(&Direction::West), None);
    assert_eq!(at(0, i32::MAX).checked_front(&Direction::North), None);
    assert_eq!(at(0, i32::MIN).checked_front(&Direction::South), None);
    assert_eq!(at(i32::MAX, 0).checked_front(&Direction::West), Some(at(i32::MAX - 1, 0)));
    assert_eq!(at(5, 5).checked_front(&Direction::North), Some(at(5, 6)));
}

#[test]
fn neighbours_are_the_four_adjacent_cells() {
    let set = at(1, 1).get_neighbours();
    assert_eq!(sorted(&set), vec![(0, 1), (1, 0), (1, 2), (2, 1)]);
    assert_eq!(set.len(), 4);
    assert!(!set.contains(&at(1, 1)));
}

#[test]
fn neighbours_at_the_machine_limit_are_three() {
    let set = at(i32::MAX, 0).get_neighbours();
    assert_eq!(set.len(), 3);
    assert!(set.contains(&at(i32::MAX - 1, 0)));
    assert!(set.contains(&at(i32::MAX, 1)));
    assert!(set.contains(&at(i32::MAX, -1)));
}

#[test]
fn cluster_adds_the_cell_itself() {
    let set = at(0, 0).get_cluster();
    assert_eq!(sorted(&set), vec![(-1, 0), (0, -1), (0, 0), (0, 1), (1, 0)]);
}

#[test]
fn relative_direction_of_adjacent_cells() {
    let c = at(4, 4);
    assert_eq!(c.get_relative_direction(&at(5, 4)), Some(Direction::East));
    assert_eq!(c.get_relative_direction(&at(4, 5)), Some(Direction::North));
    assert_eq!(c.get_relative_direction(&at(3, 4)), Some(Direction::West));
    assert_eq!(c.get_relative_direction(&at(4, 3)), Some(Direction::South));
    assert_eq!(c.get_relative_direction(&at(4, 4)), None);
    assert_eq!(c.get_relative_direction(&at(5, 5)), None);
    assert_eq!(c.get_relative_direction(&at(6, 4)), None);
    assert_eq!(at(i32::MIN, 0).get_relative_direction(&at(i32::MAX, 0)), None);
}

#[test]
fn adjacency_is_symmetric_and_irreflexive() {
    let cells = [at(0, 0), at(1, 0), at(0, 1), at(1, 1), at(2, 0), at(-1, 0)];
    for a in cells.iter() {
        assert!(!a.is_adjacent(a));
        for b in cells.iter() {
            assert_eq!(a.is_adjacent(b), b.is_adjacent(a));
            assert_eq!(a.is_adjacent(b), a.get_relative_direction(b).is_some());
        }
    }
    assert!(at(0, 0).is_adjacent(&at(1, 0)));
    assert!(!at(0, 0).is_adjacent(&at(1, 1)));
    assert!(!at(i32::MIN, 0).is_adjacent(&at(i32::MAX, 0)));
}

#[test]
fn direction_from_index_counts_clockwise() {
    assert_eq!(Direction::from_index(0), Direction::East);
    assert_eq!(Direction::from_index(1), Direction::South);
    assert_eq!(Direction::from_index(2), Direction::West);
    assert_eq!(Direction::from_index(3), Direction::North);
    assert_eq!(Direction::from_index(17), Direction::North);
}

#[test]
fn random_coordinate_lies_on_the_standard_map() {
    let mut seen = CoordSet::new();
    for _ in 0..2000 {
        let c = Coordinate::random();
        assert!(0 <= c.x && c.x <= 4 && 0 <= c.y && c.y <= 4);
        seen.insert(c);
    }
    assert!(seen.len() > 1);
    assert!(seen.len() <= 25);
}

#[test]
fn random_direction_is_one_of_four() {
    let mut east = false;
    let mut other = false;
    for _ in 0..500 {
        match Direction::random() {
            Direction::East => east = true,
            _ => other = true,
        }
    }
    assert!(east && other);
}
