use wumpusworld::wumpus::{Action, Coordinate, Direction, Events, Game};

fn at(x: i32, y: i32) -> Coordinate {
    Coordinate { x, y }
}

#[test]
fn turning_left_four_times_comes_back() {
    let mut game = Game::default();
    for _ in 0..4 {
        game.do_action(Action::Left);
    }
    assert_eq!(game.direction, Direction::East);
    assert_eq!(game.score, -4);
    assert_eq!(game.location, at(0, 0));
}

#[test]
fn turning_changes_only_the_facing() {
    let mut game = Game::new_with(&[at(3, 3)], &[at(2, 2)], &[at(4, 4)]);
    game.do_action(Action::Right);
    assert_eq!(game.direction, Direction::South);
    assert_eq!(game.location, at(0, 0));
    assert_eq!(game.score, -1);
    assert_eq!(game.events, Events::none());
    game.do_action(Action::Left);
    game.do_action(Action::Left);
    assert_eq!(game.direction, Direction::North);
    assert_eq!(game.score, -3);
    assert_eq!(game.map.discovered.len(), 1);
}

#[test]
fn walking_into_the_wall_bonks() {
    let mut game = Game::new_with(&[at(3, 3)], &[], &[]);
    game.do_action(Action::Right);
    game.do_action(Action::Walk);
    assert!(game.events.bonked);
    assert_eq!(game.location, at(0, 0));
    assert_eq!(game.score, -2);
    assert!(!game.game_over);
    game.do_action(Action::Left);
    assert!(!game.events.bonked);
}

#[test]
fn walking_off_the_far_edge_bonks() {
    let mut game = Game::new_with(&[at(3, 3)], &[], &[]);
    for _ in 0..4 {
        game.do_action(Action::Walk);
        assert!(!game.events.bonked);
    }
    assert_eq!(game.location, at(4, 0));
    game.do_action(Action::Walk);
    assert!(game.events.bonked);
    assert_eq!(game.location, at(4, 0));
    assert_eq!(game.score, -5);
    assert_eq!(game.map.discovered.len(), 5);
}

#[test]
fn walking_discovers_and_senses() {
    let mut game = Game::new_with(&[at(2, 0)], &[at(1, 1)], &[at(0, 2)]);
    assert!(!game.events.glitter && !game.events.stench && !game.events.breeze);
    game.do_action(Action::Walk);
    assert_eq!(game.location, at(1, 0));
    assert!(game.map.discovered.contains(&at(1, 0)));
    assert!(game.events.glitter);
    assert!(game.events.stench);
    assert!(!game.events.breeze);
    assert_eq!(game.score, -1);
}

#[test]
fn falling_into_a_pit_costs_a_hundred_and_goes_on() {
    let mut game = Game::new_with(&[at(3, 3)], &[], &[at(1, 0)]);
    assert!(game.events.breeze);
    game.do_action(Action::Walk);
    assert!(game.events.pit);
    assert!(!game.events.gameover);
    assert!(!game.game_over);
    assert_eq!(game.score, -101);
    assert_eq!(game.location, at(1, 0));
    game.do_action(Action::Walk);
    assert!(!game.events.pit);
    assert_eq!(game.score, -102);
}

#[test]
fn walking_onto_the_wumpus_ends_the_episode() {
    let mut game = Game::new_with(&[at(3, 3)], &[at(1, 0)], &[]);
    game.do_action(Action::Walk);
    assert!(game.events.wumpus);
    assert!(game.events.gameover);
    assert!(game.game_over);
    assert_eq!(game.score, -201);
    assert_eq!(game.location, at(1, 0));
}

#[test]
fn after_the_end_an_action_only_raises_the_flag() {
    let mut game = Game::new_with(&[at(3, 3)], &[at(1, 0)], &[]);
    game.do_action(Action::Walk);
    let events = game.events;
    for action in [Action::Walk, Action::Left, Action::Right, Action::Dig, Action::Shoot] {
        game.do_action(action);
        assert_eq!(game.score, -201);
        assert_eq!(game.location, at(1, 0));
        assert_eq!(game.direction, Direction::East);
        assert_eq!(game.arrows, 1);
        assert_eq!(game.events, events);
        assert!(game.game_over);
    }
}

#[test]
fn a_finished_game_takes_actions_at_the_ends_of_the_score_range() {
    for score in [i32::MIN, i32::MAX] {
        let mut game = Game::new_with(&[at(3, 3)], &[at(1, 0)], &[]);
        game.do_action(Action::Walk);
        assert!(game.game_over);
        game.score = score;
        game.events = wumpusworld::wumpus::Events::none();
        for action in [Action::Walk, Action::Left, Action::Right, Action::Dig, Action::Shoot] {
            game.do_action(action);
            assert_eq!(game.score, score);
            assert!(game.events.gameover);
            assert!(!game.events.wumpus && !game.events.bonked && !game.events.treasure);
            assert_eq!(game.location, at(1, 0));
            assert_eq!(game.arrows, 1);
        }
    }
}

#[test]
fn digging_without_treasure_costs_the_action_and_the_dig() {
    let mut game = Game::new_with(&[at(3, 3)], &[], &[]);
    game.do_action(Action::Dig);
    assert_eq!(game.score, -51);
    assert!(!game.events.treasure);
    assert!(!game.events.gameover);
    assert!(!game.game_over);
    assert_eq!(game.map.treasures.len(), 1);
}

#[test]
fn digging_up_a_treasure_pays_and_clears_its_glitter() {
    let mut game = Game::new_with(&[at(1, 0), at(3, 3)], &[], &[]);
    assert!(game.events.glitter);
    game.do_action(Action::Walk);
    game.do_action(Action::Dig);
    assert!(game.events.treasure);
    assert!(!game.events.gameover);
    assert!(!game.game_over);
    assert_eq!(game.score, -1 - 1 - 50 + 250);
    assert_eq!(game.map.treasures.to_vec(), vec![at(3, 3)]);
    assert!(!game.map.glitters.contains(&at(0, 0)));
    assert!(!game.map.glitters.contains(&at(2, 0)));
    assert!(game.map.glitters.contains(&at(3, 2)));
    game.do_action(Action::Dig);
    assert!(!game.events.treasure);
    assert_eq!(game.score, 198 - 51);
}

#[test]
fn digging_up_the_last_treasure_ends_the_episode() {
    let mut game = Game::new_with(&[at(1, 0)], &[at(4, 4)], &[at(3, 3)]);
    game.do_action(Action::Walk);
    game.do_action(Action::Dig);
    assert!(game.events.treasure);
    assert!(game.events.gameover);
    assert!(game.game_over);
    assert_eq!(game.score, 198);
    assert!(game.map.treasures.is_empty());
    assert!(game.map.glitters.is_empty());
}

#[test]
fn digging_on_a_map_without_treasure_ends_the_episode() {
    let mut game = Game::new_with(&[], &[at(4, 4)], &[]);
    game.do_action(Action::Dig);
    assert!(!game.events.treasure);
    assert!(game.events.gameover);
    assert!(game.game_over);
    assert_eq!(game.score, -51);
}

#[test]
fn shooting_the_wumpus_ahead_kills_it() {
    let mut game = Game::new_with(&[at(3, 3)], &[at(1, 0)], &[]);
    assert!(game.events.stench);
    game.do_action(Action::Shoot);
    assert!(game.events.scream);
    assert!(!game.events.stench);
    assert_eq!(game.arrows, 0);
    assert_eq!(game.score, -11);
    assert!(game.map.wumpuses.is_empty());
    assert!(game.map.stenches.is_empty());
    assert!(!game.game_over);
    game.do_action(Action::Walk);
    assert_eq!(game.location, at(1, 0));
    assert!(!game.events.wumpus);
    assert!(!game.events.gameover);
    assert!(!game.game_over);
    assert!(!game.events.scream);
    assert_eq!(game.score, -12);
}

#[test]
fn shooting_past_the_wumpus_only_costs() {
    let mut game = Game::new_with(&[at(3, 3)], &[at(2, 0)], &[]);
    game.do_action(Action::Shoot);
    assert!(!game.events.scream);
    assert_eq!(game.arrows, 0);
    assert_eq!(game.score, -11);
    assert_eq!(game.map.wumpuses.to_vec(), vec![at(2, 0)]);
}

#[test]
fn shooting_without_arrows_costs_only_the_action() {
    let mut game = Game::new_with(&[at(3, 3)], &[at(1, 0)], &[]);
    game.do_action(Action::Left);
    game.do_action(Action::Shoot);
    assert_eq!(game.arrows, 0);
    assert_eq!(game.score, -12);
    game.do_action(Action::Right);
    game.do_action(Action::Shoot);
    assert_eq!(game.arrows, 0);
    assert_eq!(game.score, -14);
    assert!(!game.events.scream);
    assert_eq!(game.map.wumpuses.to_vec(), vec![at(1, 0)]);
}

#[test]
fn shooting_at_the_wall_is_harmless() {
    let mut game = Game::new_with(&[at(3, 3)], &[at(1, 0)], &[]);
    game.do_action(Action::Right);
    game.do_action(Action::Shoot);
    assert!(!game.events.scream);
    assert_eq!(game.arrows, 0);
    assert_eq!(game.score, -12);
}

#[test]
fn events_are_cleared_by_the_next_action() {
    let mut game = Game::new_with(&[at(1, 0), at(3, 3)], &[], &[]);
    game.do_action(Action::Walk);
    game.do_action(Action::Dig);
    assert!(game.events.treasure);
    game.do_action(Action::Left);
    assert!(!game.events.treasure);
}

#[test]
fn place_player_and_update_senses() {
    let mut game = Game::new_with(&[at(3, 3)], &[], &[at(2, 2)]);
    game.place_player(&at(2, 1));
    assert_eq!(game.location, at(2, 1));
    assert!(game.map.discovered.contains(&at(2, 1)));
    assert!(!game.events.breeze);
    game.update_senses();
    assert!(game.events.breeze);
    assert_eq!(game.score, 0);
    game.place_player(&at(2, 2));
    assert!(game.events.pit);
    assert_eq!(game.score, -100);
}

#[test]
fn action_from_index_counts_in_order() {
    assert_eq!(Action::from_index(0), Action::Walk);
    assert_eq!(Action::from_index(1), Action::Left);
    assert_eq!(Action::from_index(2), Action::Right);
    assert_eq!(Action::from_index(3), Action::Dig);
    assert_eq!(Action::from_index(4), Action::Shoot);
    assert_eq!(Action::from_index(99), Action::Shoot);
}

#[test]
fn random_action_varies() {
    let mut walk = false;
    let mut other = false;
    for _ in 0..500 {
        match Action::random() {
            Action::Walk => walk = true,
            _ => other = true,
        }
    }
    assert!(walk && other);
}
