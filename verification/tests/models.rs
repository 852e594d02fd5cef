use wumpusworld::algorithms::pathfind;
use wumpusworld::collections::CoordMap;
use wumpusworld::models::{decide, Census, Decision, Model, ModelBayes, ModelRandom, Verdict};
use wumpusworld::wumpus::{Action, Class, Coordinate, Direction, Events, Game, WorldMap};

fn at(x: i32, y: i32) -> Coordinate {
    Coordinate { x, y }
}

#[test]
fn random_model_answers_with_some_action() {
    let game = Game::default();
    let mut model = ModelRandom {};
    let mut kinds = [false; 5];
    for _ in 0..1000 {
        match model.run(&game) {
            Action::Walk => kinds[0] = true,
            Action::Left => kinds[1] = true,
            Action::Right => kinds[2] = true,
            Action::Dig => kinds[3] = true,
            Action::Shoot => kinds[4] = true,
        }
    }
    assert_eq!(kinds, [true; 5]);
}

#[test]
fn new_model_remembers_nothing() {
    let model = ModelBayes::new();
    assert_eq!(model.treasures_found, 0);
    assert_eq!(model.wumpuses_killed, 0);
    assert_eq!(model.blacklist.len(), 0);
    assert!(model.action_queue.is_empty());
    let model = ModelBayes::default();
    assert_eq!(model.treasures_found, 0);
    assert!(model.action_queue.is_empty());
}

#[test]
fn remember_counts_treasures_and_screams() {
    let mut model = ModelBayes::new();
    let mut events = Events::none();
    model.remember(&events);
    assert_eq!((model.treasures_found, model.wumpuses_killed), (0, 0));
    events.treasure = true;
    model.remember(&events);
    events.scream = true;
    model.remember(&events);
    events.treasure = false;
    events.gameover = true;
    model.remember(&events);
    assert_eq!((model.treasures_found, model.wumpuses_killed), (2, 2));
}

#[test]
fn queued_actions_come_out_in_order() {
    let mut model = ModelBayes::new();
    assert_eq!(model.next_queued(), None);
    model.action_queue.push_back(Action::Left);
    model.action_queue.push_back(Action::Walk);
    assert_eq!(model.next_queued(), Some(Action::Left));
    assert_eq!(model.next_queued(), Some(Action::Walk));
    assert_eq!(model.next_queued(), None);
}

#[test]
fn treasure_candidates_are_visited_cells_next_to_a_glitter() {
    let mut map = WorldMap::default();
    map.discovered.insert(at(0, 0));
    map.discovered.insert(at(1, 0));
    map.discovered.insert(at(1, 1));
    map.discovered.insert(at(2, 0));
    map.glitters.insert(at(1, 0));
    map.pits.insert(at(1, 1));
    map.wumpuses.insert(at(2, 0));
    let candidates = ModelBayes::possible_treasures(&map);
    assert_eq!(candidates.to_vec(), vec![at(0, 0)]);
    map.glitters.insert(at(0, 0));
    let candidates = ModelBayes::possible_treasures(&map);
    assert_eq!(candidates.len(), 2);
    assert!(candidates.contains(&at(0, 0)));
    assert!(candidates.contains(&at(1, 0)));
}

#[test]
fn census_counts_what_is_left() {
    let mut map = WorldMap::default();
    map.discovered.insert(at(0, 0));
    map.discovered.insert(at(1, 0));
    map.discovered.insert(at(2, 0));
    map.pits.insert(at(2, 0));
    let mut model = ModelBayes::new();
    model.treasures_found = 1;
    assert_eq!(
        model.census(&map),
        Census {
            undiscovered_left: 22,
            empties_left: 22 - 1 - 1 - 2,
            treasures_left: 1,
            wumpuses_left: 1,
            pits_left: 2,
        }
    );
    model.wumpuses_killed = 1;
    map.wumpuses.insert(at(1, 0));
    assert_eq!(model.census(&map).wumpuses_left, -1);
    assert_eq!(model.census(&map).empties_left, 22 - 1 + 1 - 2);
}

fn verdict(cell: Coordinate, treasure_likely: bool, wumpus_certain: bool) -> Verdict {
    Verdict { cell, treasure_likely, wumpus_certain }
}

fn some_costs() -> CoordMap<i32> {
    let mut costs: CoordMap<i32> = CoordMap::new();
    costs.insert(at(0, 0), 5);
    costs.insert(at(1, 0), 3);
    costs.insert(at(2, 0), 3);
    costs.insert(at(3, 0), 9);
    costs
}

#[test]
fn a_likely_treasure_is_dug_up_first_and_the_cheapest_of_them() {
    let costs = some_costs();
    let verdicts = [
        verdict(at(0, 0), true, false),
        verdict(at(2, 0), true, true),
        verdict(at(1, 0), true, false),
        verdict(at(3, 0), false, true),
        verdict(at(7, 7), false, false),
    ];
    assert_eq!(decide(&verdicts, Some(at(7, 7)), &costs), Some(Decision::Dig(at(2, 0))));
    assert!(verdicts[1].calls_for(Class::Treasure));
    assert!(verdicts[1].calls_for(Class::Wumpus));
    assert!(!verdicts[1].calls_for(Class::Pit));
    assert!(!verdicts[1].calls_for(Class::Empty));
}

#[test]
fn a_certain_wumpus_is_shot_when_no_treasure_is_likely() {
    let costs = some_costs();
    let verdicts = [
        verdict(at(3, 0), false, true),
        verdict(at(7, 7), false, false),
        verdict(at(0, 0), false, true),
    ];
    assert_eq!(decide(&verdicts, Some(at(7, 7)), &costs), Some(Decision::Shoot(at(0, 0))));
}

#[test]
fn otherwise_the_most_rewarding_cell_is_explored() {
    let costs = some_costs();
    let verdicts = [verdict(at(3, 0), false, false), verdict(at(7, 7), false, false)];
    assert_eq!(decide(&verdicts, Some(at(7, 7)), &costs), Some(Decision::Explore(at(7, 7))));
    assert_eq!(decide(&verdicts, None, &costs), None);
    assert_eq!(decide(&[], None, &costs), None);
    assert_eq!(decide(&[], Some(at(1, 1)), &costs), Some(Decision::Explore(at(1, 1))));
}

#[test]
fn carrying_out_a_dig_walks_there_and_digs() {
    let mut map = WorldMap::default();
    map.discovered.insert(at(0, 0));
    map.discovered.insert(at(1, 0));
    let (links, _) = pathfind(&at(0, 0), &Direction::East, &map);
    let mut model = ModelBayes::new();
    let first = model.carry_out(Decision::Dig(at(1, 1)), &Direction::East, &links);
    assert_eq!(first, Action::Walk);
    let rest: Vec<Action> = model.action_queue.iter().copied().collect();
    assert_eq!(rest, vec![Action::Left, Action::Walk, Action::Dig]);
    assert_eq!(model.blacklist.get(&at(1, 1)), Some(&Class::Treasure));
    assert_eq!(model.blacklist.len(), 1);
}

#[test]
fn carrying_out_a_dig_on_the_spot_just_digs() {
    let mut map = WorldMap::default();
    map.discovered.insert(at(0, 0));
    let (links, _) = pathfind(&at(0, 0), &Direction::East, &map);
    let mut model = ModelBayes::new();
    assert_eq!(model.carry_out(Decision::Dig(at(0, 0)), &Direction::East, &links), Action::Dig);
    assert!(model.action_queue.is_empty());
}

#[test]
fn carrying_out_a_shot_stops_one_step_short() {
    let mut map = WorldMap::default();
    map.discovered.insert(at(0, 0));
    map.discovered.insert(at(1, 0));
    let (links, _) = pathfind(&at(0, 0), &Direction::East, &map);
    let mut model = ModelBayes::new();
    let first = model.carry_out(Decision::Shoot(at(1, 1)), &Direction::East, &links);
    assert_eq!(first, Action::Walk);
    let rest: Vec<Action> = model.action_queue.iter().copied().collect();
    assert_eq!(rest, vec![Action::Left, Action::Shoot]);
    assert_eq!(model.blacklist.get(&at(1, 1)), Some(&Class::Wumpus));
}

#[test]
fn carrying_out_an_exploration_walks_there() {
    let mut map = WorldMap::default();
    map.discovered.insert(at(0, 0));
    let (links, _) = pathfind(&at(0, 0), &Direction::East, &map);
    let mut model = ModelBayes::new();
    let first = model.carry_out(Decision::Explore(at(0, 1)), &Direction::East, &links);
    assert_eq!(first, Action::Left);
    let rest: Vec<Action> = model.action_queue.iter().copied().collect();
    assert_eq!(rest, vec![Action::Walk]);
    assert_eq!(model.blacklist.len(), 0);
}

#[test]
fn survey_of_a_fresh_game() {
    let mut game = Game::new_with(&[at(4, 4), at(3, 3)], &[at(2, 2)], &[at(1, 0), at(0, 3), at(4, 0)]);
    wumpusworld::algorithms::hide_map(&mut game.map);
    let model = ModelBayes::new();
    let survey = model.survey(&game).unwrap();
    assert_eq!(survey.frontier.len(), 2);
    assert!(survey.frontier.contains(&at(1, 0)));
    assert!(survey.frontier.contains(&at(0, 1)));
    assert!(survey.possible_treasures.is_empty());
    assert_eq!(survey.total_possibilities, 3);
    assert_eq!(survey.class_counts.get(&at(1, 0)).unwrap().pit, 2);
    assert_eq!(survey.class_counts.get(&at(0, 1)).unwrap().pit, 2);
    assert_eq!(survey.path_costs.get(&at(1, 0)), Some(&1));
    assert_eq!(survey.path_costs.get(&at(0, 1)), Some(&2));
    assert_eq!(survey.path_map.get(&at(0, 1)), Some(&at(0, 0)));
    assert_eq!(survey.census.undiscovered_left, 24);
    assert_eq!(survey.census.treasures_left, 2);
    assert_eq!(survey.census.wumpuses_left, 1);
    assert_eq!(survey.census.pits_left, 3);
    assert_eq!(survey.census.empties_left, 18);
}

#[test]
fn survey_counts_candidates_next_to_a_glitter() {
    let mut game = Game::new_with(&[at(1, 1), at(4, 4)], &[], &[]);
    game.do_action(Action::Walk);
    wumpusworld::algorithms::hide_map(&mut game.map);
    let model = ModelBayes::new();
    let survey = model.survey(&game).unwrap();
    assert_eq!(survey.frontier.len(), 3);
    assert_eq!(survey.possible_treasures, vec![at(0, 0)]);
    assert!(survey.total_possibilities > 0);
    assert_eq!(survey.class_counts.len(), 4);
    for cell in [at(0, 1), at(2, 0), at(1, 1), at(0, 0)] {
        let tally = survey.class_counts.get(&cell).unwrap();
        assert_eq!(
            tally.empty + tally.treasure + tally.wumpus + tally.pit,
            survey.total_possibilities
        );
    }
    assert_eq!(survey.class_counts.get(&at(0, 1)).unwrap().treasure, 0);
    assert_eq!(survey.census.undiscovered_left, 23);
}
