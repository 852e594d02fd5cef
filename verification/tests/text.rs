use wumpusworld::wumpus::text::{chars_of, contains_word, same_text, write_int};
use wumpusworld::wumpus::{Action, ClassField, Coordinate, Direction, Events};

fn at(x: i32, y: i32) -> Coordinate {
    Coordinate { x, y }
}

#[test]
fn direction_keywords() {
    assert_eq!(Direction::East.to_text(), "east");
    assert_eq!(Direction::South.to_text(), "south");
    assert_eq!(Direction::West.to_text(), "west");
    assert_eq!(Direction::North.to_text(), "north");
    assert_eq!(Direction::North.keyword(), "north");
    assert_eq!(Direction::parse("east"), Some(Direction::East));
    assert_eq!(Direction::parse("south"), Some(Direction::South));
    assert_eq!(Direction::parse("west"), Some(Direction::West));
    assert_eq!(Direction::parse("north"), Some(Direction::North));
    assert_eq!(Direction::parse("East"), None);
    assert_eq!(Direction::parse(""), None);
    assert_eq!(Direction::parse("east "), None);
    assert_eq!("west".parse::<Direction>(), Ok(Direction::West));
    assert_eq!("up".parse::<Direction>(), Err(()));
}

#[test]
fn action_keywords() {
    for action in [Action::Walk, Action::Left, Action::Right, Action::Dig, Action::Shoot] {
        assert_eq!(Action::parse(&action.to_text()), Some(action));
    }
    assert_eq!(Action::Walk.to_text(), "walk");
    assert_eq!(Action::Left.to_text(), "left");
    assert_eq!(Action::Right.to_text(), "right");
    assert_eq!(Action::Dig.to_text(), "dig");
    assert_eq!(Action::Shoot.keyword(), "shoot");
    assert_eq!(Action::parse("run"), None);
    assert_eq!(Action::parse("WALK"), None);
    assert_eq!("dig".parse::<Action>(), Ok(Action::Dig));
    assert_eq!("".parse::<Action>(), Err(()));
}

#[test]
fn coordinate_text() {
    assert_eq!(at(1, 2).to_text(), "(1,2)");
    assert_eq!(at(-1, 20).to_text(), "(-1,20)");
    assert_eq!(at(0, 0).to_text(), "(0,0)");
    assert_eq!(at(i32::MIN, i32::MAX).to_text(), "(-2147483648,2147483647)");
    assert_eq!(at(100, -1005).to_text(), "(100,-1005)");
}

#[test]
fn coordinate_parse_accepts_signed_integers() {
    assert_eq!(Coordinate::parse("(1,2)"), Some(at(1, 2)));
    assert_eq!(Coordinate::parse("(-3,+4)"), Some(at(-3, 4)));
    assert_eq!(Coordinate::parse("(007,-0)"), Some(at(7, 0)));
    assert_eq!(Coordinate::parse("(2147483647,-2147483648)"), Some(at(i32::MAX, i32::MIN)));
    assert_eq!("(12,34)".parse::<Coordinate>(), Ok(at(12, 34)));
}

#[test]
fn coordinate_parse_rejects_malformed_text() {
    for text in [
        "",
        "(",
        ")",
        "()",
        "(,)",
        "(1,)",
        "(,2)",
        "1,2",
        "(1,2",
        "1,2)",
        "( 1,2)",
        "(1, 2)",
        "(1,2) ",
        "(1;2)",
        "(1,2,3)",
        "(a,b)",
        "(1.0,2)",
        "(--1,2)",
        "(+,2)",
        "(-,2)",
        "(2147483648,0)",
        "(0,-2147483649)",
        "(99999999999999999999,0)",
        "((1,2))",
        "(١,2)",
    ] {
        assert_eq!(Coordinate::parse(text), None);
        assert_eq!(text.parse::<Coordinate>(), Err(()));
    }
}

#[test]
fn coordinate_text_reads_back() {
    for cell in [at(0, 0), at(4, 4), at(-1, -1), at(-2, -2), at(i32::MAX, i32::MIN), at(10, -10)] {
        assert_eq!(Coordinate::parse(&cell.to_text()), Some(cell));
    }
}

#[test]
fn write_int_appends_decimal_digits() {
    let mut text = String::from("x=");
    write_int(&mut text, -120);
    write_int(&mut text, 7);
    assert_eq!(text, "x=-1207");
}

#[test]
fn events_text_joins_the_raised_flags() {
    assert_eq!(Events::none().to_text(), "");
    let mut events = Events::none();
    events.wumpus = true;
    events.gameover = true;
    assert_eq!(events.to_text(), "wumpus,gameover");
    events.treasure = true;
    events.pit = true;
    events.glitter = true;
    events.stench = true;
    events.breeze = true;
    events.bonked = true;
    events.scream = true;
    assert_eq!(
        events.to_text(),
        "treasure,wumpus,pit,glitter,stench,breeze,bonked,scream,gameover"
    );
    let mut one = Events::none();
    one.breeze = true;
    assert_eq!(one.to_text(), "breeze");
}

#[test]
fn events_parse_raises_the_named_flags() {
    assert_eq!(Events::parse(""), Events::none());
    let parsed = Events::parse("treasure,pit");
    assert!(parsed.treasure && parsed.pit);
    assert!(!parsed.wumpus && !parsed.glitter && !parsed.gameover);
    let parsed = Events::parse("pit,,pit,unknown,scream");
    assert!(parsed.pit && parsed.scream);
    assert!(!parsed.treasure);
    assert_eq!(Events::parse("pits"), Events::none());
    assert_eq!(Events::parse("pit "), Events::none());
    assert_eq!(Events::parse("xpit"), Events::none());
    assert!(Events::parse(",bonked").bonked);
    assert!(Events::parse("bonked,").bonked);
    assert_eq!("glitter".parse::<Events>().map(|e| e.glitter), Ok(true));
}

#[test]
fn events_text_reads_back() {
    for bits in 0..512u32 {
        let events = Events {
            treasure: bits & 1 != 0,
            wumpus: bits & 2 != 0,
            pit: bits & 4 != 0,
            glitter: bits & 8 != 0,
            stench: bits & 16 != 0,
            breeze: bits & 32 != 0,
            bonked: bits & 64 != 0,
            scream: bits & 128 != 0,
            gameover: bits & 256 != 0,
        };
        assert_eq!(Events::parse(&events.to_text()), events);
    }
}

#[test]
fn contains_word_looks_at_whole_pieces() {
    let text = chars_of("ab,c,,abc");
    assert!(contains_word(&text, &chars_of("ab")));
    assert!(contains_word(&text, &chars_of("c")));
    assert!(contains_word(&text, &chars_of("")));
    assert!(contains_word(&text, &chars_of("abc")));
    assert!(!contains_word(&text, &chars_of("a")));
    assert!(!contains_word(&text, &chars_of("b")));
    assert!(!contains_word(&text, &chars_of("ab,c")));
    assert!(!contains_word(&text, &chars_of(",")));
    assert!(contains_word(&chars_of(""), &chars_of("")));
    assert!(!contains_word(&chars_of("a"), &chars_of("")));
}

#[test]
fn chars_and_same_text() {
    assert_eq!(chars_of("héllo"), vec!['h', 'é', 'l', 'l', 'o']);
    assert_eq!(chars_of(""), Vec::<char>::new());
    assert!(same_text("walk", "walk"));
    assert!(!same_text("walk", "walk "));
    assert!(same_text("", ""));
}

#[test]
fn tally_text_leaves_the_empty_slot_out() {
    let tally = ClassField { empty: 9, treasure: 1, wumpus: -2, pit: 30 };
    assert_eq!(tally.to_text(), "(1,-2,30)");
    assert_eq!(ClassField::<i32>::zero().to_text(), "(0,0,0)");
    assert_eq!(*tally.get(wumpusworld::wumpus::Class::Empty), 9);
    assert_eq!(*tally.get(wumpusworld::wumpus::Class::Treasure), 1);
    assert_eq!(*tally.get(wumpusworld::wumpus::Class::Wumpus), -2);
    assert_eq!(*tally.get(wumpusworld::wumpus::Class::Pit), 30);
}
