//! Draws a map as text: two lines for each row of cells, the northernmost
//! row first.

use vstd::prelude::*;
use vstd::string::StringExecFns;
use crate::wumpus::geometry::Coordinate;
use crate::wumpus::geometry::Direction;
use crate::wumpus::map::WorldMap;
use crate::wumpus::map::WorldMapView;

verus! {

/// The sign that shows where the player stands and looks.
pub open spec fn player_sign(direction: Direction) -> char {
    match direction {
        Direction::North => '^',
        Direction::East => '>',
        Direction::South => 'v',
        Direction::West => '<',
    }
}

/// `sign` where `present` holds, a dash where it does not.
pub open spec fn flag(present: bool, sign: char) -> char {
    if present {
        sign
    } else {
        '-'
    }
}

/// What is drawn for one cell on one of its two lines: four blanks, then
/// four signs. A cell that is to stay hidden is crossed out. Otherwise the
/// first sign shows the player; on the upper line the other three show
/// treasure, wumpus and pit, on the lower line glitter, stench and breeze.
pub open spec fn cell_text(
    map: WorldMapView,
    player: Coordinate,
    direction: Direction,
    show_undiscovered: bool,
    cell: Coordinate,
    upper: bool,
) -> Seq<char> {
    let blanks = seq![' ', ' ', ' ', ' '];
    if !show_undiscovered && !map.discovered.contains(cell) {
        blanks + seq!['x', 'x', 'x', 'x']
    } else {
        let first = if cell == player {
            player_sign(direction)
        } else {
            '-'
        };
        if upper {
            blanks + seq![
                first,
                flag(map.treasures.contains(cell), 'T'),
                flag(map.wumpuses.contains(cell), 'W'),
                flag(map.pits.contains(cell), 'P'),
            ]
        } else {
            blanks + seq![
                first,
                flag(map.glitters.contains(cell), 'G'),
                flag(map.stenches.contains(cell), 'S'),
                flag(map.breezes.contains(cell), 'B'),
            ]
        }
    }
}

/// One line of the row `y`, as far as its first `n` cells.
pub open spec fn line_text(
    map: WorldMapView,
    player: Coordinate,
    direction: Direction,
    show_undiscovered: bool,
    y: int,
    upper: bool,
    n: nat,
) -> Seq<char>
    decreases n,
{
    if n == 0 {
        Seq::empty()
    } else {
        line_text(map, player, direction, show_undiscovered, y, upper, (n - 1) as nat) + cell_text(
            map,
            player,
            direction,
            show_undiscovered,
            Coordinate { x: (n - 1) as i32, y: y as i32 },
            upper,
        )
    }
}

/// The number of cells in a row.
pub open spec fn columns(map: WorldMapView) -> nat {
    if map.size.x < 0 {
        0
    } else {
        (map.size.x + 1) as nat
    }
}

/// The two lines of the row `y`, each closed by a line break.
pub open spec fn row_text(
    map: WorldMapView,
    player: Coordinate,
    direction: Direction,
    show_undiscovered: bool,
    y: int,
) -> Seq<char> {
    line_text(map, player, direction, show_undiscovered, y, true, columns(map)) + seq!['\n']
        + line_text(map, player, direction, show_undiscovered, y, false, columns(map)) + seq![
        '\n',
    ]
}

/// The northernmost `n` rows, with an empty line between one row and the
/// next.
pub open spec fn rows_text(
    map: WorldMapView,
    player: Coordinate,
    direction: Direction,
    show_undiscovered: bool,
    n: nat,
) -> Seq<char>
    decreases n,
{
    if n == 0 {
        Seq::empty()
    } else {
        rows_text(map, player, direction, show_undiscovered, (n - 1) as nat) + (if n > 1 {
            seq!['\n']
        } else {
            Seq::empty()
        }) + row_text(map, player, direction, show_undiscovered, map.size.y - (n - 1))
    }
}

/// The drawing of a map: a line break, then all its rows. A map without rows
/// has an empty drawing.
pub open spec fn drawing(
    map: WorldMapView,
    player: Coordinate,
    direction: Direction,
    show_undiscovered: bool,
) -> Seq<char> {
    if map.size.y < 0 {
        Seq::empty()
    } else {
        seq!['\n'] + rows_text(
            map,
            player,
            direction,
            show_undiscovered,
            (map.size.y + 1) as nat,
        )
    }
}

/// Appends what is drawn for one cell on one of its two lines.
fn draw_cell(
    text: &mut String,
    map: &WorldMap,
    player: &Coordinate,
    direction: &Direction,
    show_undiscovered: bool,
    cell: Coordinate,
    upper: bool,
)
    requires
        map.wf(),
    ensures
        final(text)@ == old(text)@ + cell_text(
            map@,
            *player,
            *direction,
            show_undiscovered,
            cell,
            upper,
        ),
{
    proof {
        reveal_strlit("    ");
        reveal_strlit("xxxx");
        reveal_strlit("^");
        reveal_strlit(">");
        reveal_strlit("v");
        reveal_strlit("<");
        reveal_strlit("-");
        reveal_strlit("T");
        reveal_strlit("W");
        reveal_strlit("P");
        reveal_strlit("G");
        reveal_strlit("S");
        reveal_strlit("B");
    }
    let ghost expected = old(text)@ + cell_text(
        map@,
        *player,
        *direction,
        show_undiscovered,
        cell,
        upper,
    );
    text.append("    ");
    if !show_undiscovered && !map.discovered.contains(&cell) {
        text.append("xxxx");
        assert(text@ =~= expected);
        return ;
    }
    if cell == *player {
        text.append(
            match direction {
                Direction::North => "^",
                Direction::East => ">",
                Direction::South => "v",
                Direction::West => "<",
            },
        );
    } else {
        text.append("-");
    }
    if upper {
        text.append(
            if map.treasures.contains(&cell) {
                "T"
            } else {
                "-"
            },
        );
        text.append(
            if map.wumpuses.contains(&cell) {
                "W"
            } else {
                "-"
            },
        );
        text.append(
            if map.pits.contains(&cell) {
                "P"
            } else {
                "-"
            },
        );
    } else {
        text.append(
            if map.glitters.contains(&cell) {
                "G"
            } else {
                "-"
            },
        );
        text.append(
            if map.stenches.contains(&cell) {
                "S"
            } else {
                "-"
            },
        );
        text.append(
            if map.breezes.contains(&cell) {
                "B"
            } else {
                "-"
            },
        );
    }
    assert(text@ =~= expected);
}

/// Appends one line of the row `y`.
fn draw_line(
    text: &mut String,
    map: &WorldMap,
    player: &Coordinate,
    direction: &Direction,
    show_undiscovered: bool,
    y: i32,
    upper: bool,
)
    requires
        map.wf(),
    ensures
        final(text)@ == old(text)@ + line_text(
            map@,
            *player,
            *direction,
            show_undiscovered,
            y as int,
            upper,
            columns(map@),
        ),
{
    let mut x: i64 = 0;
    assert(text@ + Seq::<char>::empty() =~= text@);
    while x <= map.size.x as i64
        invariant
            map.wf(),
            0 <= x <= columns(map@),
            text@ == old(text)@ + line_text(
                map@,
                *player,
                *direction,
                show_undiscovered,
                y as int,
                upper,
                x as nat,
            ),
        decreases map.size.x + 1 - x,
    {
        let ghost before = text@;
        draw_cell(
            text,
            map,
            player,
            direction,
            show_undiscovered,
            Coordinate { x: x as i32, y },
            upper,
        );
        proof {
            let done = line_text(
                map@,
                *player,
                *direction,
                show_undiscovered,
                y as int,
                upper,
                x as nat,
            );
            let more = cell_text(
                map@,
                *player,
                *direction,
                show_undiscovered,
                Coordinate { x: x as i32, y },
                upper,
            );
            assert(text@ =~= old(text)@ + (done + more));
        }
        x += 1;
    }
}

/// Draws `map` with the player on it. Cells that were not visited are
/// crossed out unless `show_undiscovered` is set.
pub fn visualize_map(
    map: &WorldMap,
    player_location: &Coordinate,
    player_direction: &Direction,
    show_undiscovered: &bool,
) -> (r: String)
    requires
        map.wf(),
    ensures
        r@ == drawing(map@, *player_location, *player_direction, *show_undiscovered),
{
    let mut minimap = String::new();
    if map.size.y < 0 {
        return minimap;
    }
    proof {
        reveal_strlit("\n");
    }
    minimap.append("\n");
    let mut done: i64 = 0;
    assert(minimap@ + Seq::<char>::empty() =~= minimap@);
    while done <= map.size.y as i64
        invariant
            map.wf(),
            map.size.y >= 0,
            0 <= done <= map.size.y + 1,
            minimap@ == seq!['\n'] + rows_text(
                map@,
                *player_location,
                *player_direction,
                *show_undiscovered,
                done as nat,
            ),
        decreases map.size.y + 1 - done,
    {
        proof {
            reveal_strlit("\n");
        }
        let ghost before = minimap@;
        let y = (map.size.y as i64 - done) as i32;
        if done > 0 {
            minimap.append("\n");
        }
        draw_line(
            &mut minimap,
            map,
            player_location,
            player_direction,
            *show_undiscovered,
            y,
            true,
        );
        minimap.append("\n");
        draw_line(
            &mut minimap,
            map,
            player_location,
            player_direction,
            *show_undiscovered,
            y,
            false,
        );
        minimap.append("\n");
        proof {
            let earlier = rows_text(
                map@,
                *player_location,
                *player_direction,
                *show_undiscovered,
                done as nat,
            );
            let gap = if done > 0 {
                seq!['\n']
            } else {
                Seq::<char>::empty()
            };
            let row = row_text(
                map@,
                *player_location,
                *player_direction,
                *show_undiscovered,
                y as int,
            );
            assert(minimap@ =~= seq!['\n'] + (earlier + gap + row));
        }
        done += 1;
    }
    minimap
}

} // verus!
