use wumpusworld::algorithms::visualize_map;
use wumpusworld::wumpus::{Coordinate, Direction, WorldMap};

fn at(x: i32, y: i32) -> Coordinate {
    Coordinate { x, y }
}

#[test]
fn one_row_hidden_and_shown() {
    let mut map = WorldMap::new(at(1, 0));
    map.add_pit(at(1, 0));
    map.discovered.insert(at(0, 0));
    let hidden = visualize_map(&map, &at(0, 0), &Direction::East, &false);
    assert_eq!(hidden, "\n    >---    xxxx\n    >--B    xxxx\n");
    let shown = visualize_map(&map, &at(0, 0), &Direction::East, &true);
    assert_eq!(shown, "\n    >---    ---P\n    >--B    ----\n");
}

#[test]
fn rows_come_north_first_with_an_empty_line_between() {
    let mut map = WorldMap::new(at(0, 1));
    map.treasures.insert(at(0, 1));
    map.glitters.insert(at(0, 0));
    map.stenches.insert(at(0, 0));
    let text = visualize_map(&map, &at(0, 0), &Direction::North, &true);
    assert_eq!(text, "\n    -T--\n    ----\n\n    ^---\n    ^GS-\n");
}

#[test]
fn player_signs() {
    let map = WorldMap::new(at(0, 0));
    assert_eq!(visualize_map(&map, &at(0, 0), &Direction::North, &true), "\n    ^---\n    ^---\n");
    assert_eq!(visualize_map(&map, &at(0, 0), &Direction::East, &true), "\n    >---\n    >---\n");
    assert_eq!(visualize_map(&map, &at(0, 0), &Direction::South, &true), "\n    v---\n    v---\n");
    assert_eq!(visualize_map(&map, &at(0, 0), &Direction::West, &true), "\n    <---\n    <---\n");
    assert_eq!(visualize_map(&map, &at(3, 3), &Direction::West, &true), "\n    ----\n    ----\n");
}

#[test]
fn all_signs_on_one_cell() {
    let mut map = WorldMap::new(at(0, 0));
    for set in [
        &mut map.treasures,
        &mut map.wumpuses,
        &mut map.pits,
        &mut map.glitters,
        &mut map.stenches,
        &mut map.breezes,
    ] {
        set.insert(at(0, 0));
    }
    assert_eq!(visualize_map(&map, &at(0, 0), &Direction::East, &true), "\n    >TWP\n    >GSB\n");
    assert_eq!(visualize_map(&map, &at(0, 0), &Direction::East, &false), "\n    xxxx\n    xxxx\n");
}

#[test]
fn map_without_rows_or_columns() {
    let map = WorldMap::new(at(2, -1));
    assert_eq!(visualize_map(&map, &at(0, 0), &Direction::East, &true), "");
    let map = WorldMap::new(at(-1, 1));
    assert_eq!(visualize_map(&map, &at(0, 0), &Direction::East, &true), "\n\n\n\n\n\n");
}

#[test]
fn standard_map_has_ten_lines_of_forty_characters() {
    let map = WorldMap::default();
    let text = visualize_map(&map, &at(0, 0), &Direction::East, &true);
    let lines: Vec<&str> = text.split('\n').collect();
    assert_eq!(lines.len(), 16);
    assert_eq!(lines[0], "");
    assert_eq!(lines[1].len(), 40);
    assert_eq!(lines[2].len(), 40);
    assert_eq!(lines[3], "");
    assert_eq!(lines[13], "    >---    ----    ----    ----    ----");
    assert_eq!(lines[15], "");
}
