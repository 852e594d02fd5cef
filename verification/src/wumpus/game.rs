//! The state of one episode and the rules by which an action changes it.

use vstd::prelude::*;
use crate::algorithms::validator::lemma_consistent_map_is_valid;
use crate::algorithms::validator::valid;
use crate::algorithms::validator::within_quota;
use crate::wumpus::action::Action;
use crate::wumpus::class::Class;
use crate::wumpus::map::lemma_remove_keeps_markers;
use crate::wumpus::events::Events;
use crate::wumpus::geometry::Coordinate;
use crate::wumpus::geometry::Direction;
use crate::wumpus::map::WorldMap;
use crate::wumpus::map::WorldMapView;
use crate::wumpus::rules::SCORE_ACTION;
use crate::wumpus::rules::SCORE_DUG;
use crate::wumpus::rules::SCORE_PIT;
use crate::wumpus::rules::SCORE_SHOT;
use crate::wumpus::rules::SCORE_TREASURE;
use crate::wumpus::rules::SCORE_WUMPUS;
use crate::wumpus::rules::SPAWN_ARROWS;

verus! {

/// One episode: the map, where the player stands and looks, what just
/// happened, the score and the arrows left.
#[derive(Debug)]
pub struct Game {
    pub map: WorldMap,
    pub location: Coordinate,
    pub direction: Direction,
    pub events: Events,
    pub game_over: bool,
    pub score: i32,
    pub arrows: i32,
}

/// The mathematical content of a [`Game`].
#[verifier::ext_equal]
pub struct GameView {
    pub map: WorldMapView,
    pub location: Coordinate,
    pub direction: Direction,
    pub events: Events,
    pub game_over: bool,
    pub score: int,
    pub arrows: int,
}

impl GameView {
    /// The state with the three senses read off the markers of the cell the
    /// player stands on.
    pub open spec fn sensed(self) -> GameView {
        GameView {
            events: Events {
                glitter: self.map.glitters.contains(self.location),
                stench: self.map.stenches.contains(self.location),
                breeze: self.map.breezes.contains(self.location),
                ..self.events
            },
            ..self
        }
    }

    /// The state after the player was put on `new_location`: the cell counts
    /// as visited; a wumpus there ends the episode and a pit there hurts.
    pub open spec fn placed(self, new_location: Coordinate) -> GameView {
        let on_wumpus = self.map.wumpuses.contains(new_location);
        let on_pit = self.map.pits.contains(new_location);
        GameView {
            map: WorldMapView {
                discovered: self.map.discovered.insert(new_location),
                ..self.map
            },
            location: new_location,
            events: Events {
                wumpus: self.events.wumpus || on_wumpus,
                gameover: self.events.gameover || on_wumpus,
                pit: self.events.pit || on_pit,
                ..self.events
            },
            game_over: self.game_over || on_wumpus,
            score: self.score + (if on_wumpus {
                SCORE_WUMPUS as int
            } else {
                0
            }) + (if on_pit {
                SCORE_PIT as int
            } else {
                0
            }),
            ..self
        }
    }

    /// Whether the cell in front of the player lies on the map.
    pub open spec fn front_on_map(self) -> bool {
        self.location.can_step(self.direction) && self.map.encompass(
            self.location.front(self.direction),
        )
    }

    /// Whether a wumpus sits in the cell in front of the player.
    pub open spec fn wumpus_ahead(self) -> bool {
        self.location.can_step(self.direction) && self.map.wumpuses.contains(
            self.location.front(self.direction),
        )
    }

    /// The state in which the action has been paid for and the events of the
    /// last step are forgotten.
    pub open spec fn charged(self) -> GameView {
        GameView { events: Events::spec_none(), score: self.score + SCORE_ACTION, ..self }
    }

    /// What walking does to a charged state.
    pub open spec fn walked(self) -> GameView {
        if self.front_on_map() {
            self.placed(self.location.front(self.direction))
        } else {
            GameView { events: Events { bonked: true, ..self.events }, ..self }
        }
    }

    /// What digging does to a charged state.
    pub open spec fn dug(self) -> GameView {
        let found = self.map.treasures.contains(self.location);
        let map = if found {
            self.map.without_treasure(self.location)
        } else {
            self.map
        };
        let done = map.treasures == Set::<Coordinate>::empty();
        GameView {
            map,
            score: self.score + SCORE_DUG + (if found {
                SCORE_TREASURE as int
            } else {
                0
            }),
            events: Events {
                treasure: self.events.treasure || found,
                gameover: self.events.gameover || done,
                ..self.events
            },
            game_over: self.game_over || done,
            ..self
        }
    }

    /// What shooting does to a charged state.
    pub open spec fn shot(self) -> GameView {
        if self.arrows > 0 {
            let hit = self.wumpus_ahead();
            GameView {
                arrows: self.arrows - 1,
                score: self.score + SCORE_SHOT,
                map: if hit {
                    self.map.without_wumpus(self.location.front(self.direction))
                } else {
                    self.map
                },
                events: Events { scream: self.events.scream || hit, ..self.events },
                ..self
            }
        } else {
            self
        }
    }

    /// The state after `action`. Once the episode is over an action only
    /// raises the game-over flag again.
    pub open spec fn step(self, action: Action) -> GameView {
        if self.game_over {
            GameView { events: Events { gameover: true, ..self.events }, ..self }
        } else {
            let charged = self.charged();
            (match action {
                Action::Walk => charged.walked(),
                Action::Left => GameView { direction: charged.direction.left(), ..charged },
                Action::Right => GameView { direction: charged.direction.right(), ..charged },
                Action::Dig => charged.dug(),
                Action::Shoot => charged.shot(),
            }).sensed()
        }
    }
}

impl View for Game {
    type V = GameView;

    open spec fn view(&self) -> GameView {
        GameView {
            map: self.map@,
            location: self.location,
            direction: self.direction,
            events: self.events,
            game_over: self.game_over,
            score: self.score as int,
            arrows: self.arrows as int,
        }
    }
}

impl Game {
    /// Well-formedness of the sets of the map.
    pub open spec fn wf(&self) -> bool {
        self.map.wf()
    }

    /// Whether the score can take the worst and the best that one action
    /// brings without leaving the range of its machine integer.
    pub open spec fn score_has_room(&self) -> bool {
        i32::MIN - SCORE_ACTION - SCORE_WUMPUS - SCORE_PIT <= self.score <= i32::MAX
            - SCORE_ACTION - SCORE_DUG - SCORE_TREASURE
    }

    /// Reads the three senses off the markers of the cell the player stands
    /// on.
    pub fn update_senses(&mut self)
        requires
            old(self).wf(),
        ensures
            final(self).wf(),
            final(self)@ == old(self)@.sensed(),
    {
        self.events.glitter = self.map.glitters.contains(&self.location);
        self.events.stench = self.map.stenches.contains(&self.location);
        self.events.breeze = self.map.breezes.contains(&self.location);
    }

    /// Puts the player on `new_location`.
    pub fn place_player(&mut self, new_location: &Coordinate)
        requires
            old(self).wf(),
            i32::MIN - SCORE_WUMPUS - SCORE_PIT <= old(self).score,
        ensures
            final(self).wf(),
            final(self)@ == old(self)@.placed(*new_location),
    {
        self.map.discovered.insert(*new_location);
        if self.map.wumpuses.contains(new_location) {
            self.game_over = true;
            self.events.gameover = true;
            self.events.wumpus = true;
            self.score += SCORE_WUMPUS;
        }
        if self.map.pits.contains(new_location) {
            self.events.pit = true;
            self.score += SCORE_PIT;
        }
        self.location = *new_location;
    }

    /// Applies one action of the player.
    pub fn do_action(&mut self, action: Action)
        requires
            old(self).wf(),
            !old(self).game_over ==> old(self).score_has_room(),
        ensures
            final(self).wf(),
            final(self)@ == old(self)@.step(action),
    {
        if self.game_over {
            self.events.gameover = true;
            return ;
        }
        self.events = Events::none();
        self.score += SCORE_ACTION;
        match action {
            Action::Walk => {
                let mut bonked = true;
                if let Some(new_location) = self.location.checked_front(&self.direction) {
                    if self.map.encompass(&new_location) {
                        self.place_player(&new_location);
                        bonked = false;
                    }
                }
                if bonked {
                    self.events.bonked = true;
                }
            },
            Action::Left => {
                self.direction = self.direction.rotate_left();
            },
            Action::Right => {
                self.direction = self.direction.rotate_right();
            },
            Action::Dig => {
                self.score += SCORE_DUG;
                if self.map.treasures.contains(&self.location) {
                    self.map.remove_treasure(self.location);
                    self.score += SCORE_TREASURE;
                    self.events.treasure = true;
                }
                if self.map.treasures.is_empty() {
                    self.events.gameover = true;
                    self.game_over = true;
                }
            },
            Action::Shoot => {
                if self.arrows > 0 {
                    self.arrows -= 1;
                    self.score += SCORE_SHOT;
                    if let Some(front_location) = self.location.checked_front(&self.direction) {
                        if self.map.wumpuses.contains(&front_location) {
                            self.map.remove_wumpus(front_location);
                            self.events.scream = true;
                        }
                    }
                }
            },
        }
        self.update_senses();
    }
}

impl Clone for Game {
    fn clone(&self) -> (r: Self)
        ensures
            r@ == self@,
            self.wf() ==> r.wf(),
    {
        Game {
            map: self.map.clone(),
            location: self.location,
            direction: self.direction,
            events: self.events,
            game_over: self.game_over,
            score: self.score,
            arrows: self.arrows,
        }
    }
}

impl Default for Game {
    /// A game on the empty standard map: the player stands on `(0, 0)`,
    /// looks east and has one arrow.
    fn default() -> (r: Self)
        ensures
            r.wf(),
            r.map@ == WorldMap::spec_standard(),
            r.location == (Coordinate { x: 0, y: 0 }),
            r.direction == Direction::East,
            r.events == Events::spec_none(),
            !r.game_over,
            r.score == 0,
            r.arrows == SPAWN_ARROWS,
    {
        Game {
            map: WorldMap::default(),
            location: Coordinate { x: 0, y: 0 },
            direction: Direction::East,
            events: Events::none(),
            game_over: false,
            score: 0,
            arrows: SPAWN_ARROWS,
        }
    }
}

/// Digging where no treasure lies costs the price of an action and the price
/// of digging, and reports no treasure.
pub proof fn lemma_dig_without_treasure(game: GameView)
    requires
        !game.game_over,
        !game.map.treasures.contains(game.location),
    ensures
        game.step(Action::Dig).score == game.score + SCORE_ACTION + SCORE_DUG,
        game.step(Action::Dig).score == game.score - 1 - 50,
        !game.step(Action::Dig).events.treasure,
        game.step(Action::Dig).map == game.map,
{
}

/// Digging up the last treasure reports the treasure and ends the episode.
pub proof fn lemma_dig_last_treasure(game: GameView)
    requires
        !game.game_over,
        game.map.treasures == set![game.location],
    ensures
        game.step(Action::Dig).events.treasure,
        game.step(Action::Dig).events.gameover,
        game.step(Action::Dig).game_over,
        game.step(Action::Dig).score == game.score + SCORE_ACTION + SCORE_DUG + SCORE_TREASURE,
{
    assert(game.map.treasures.remove(game.location) =~= Set::<Coordinate>::empty());
}

/// Shooting the wumpus straight ahead makes it scream and takes it off the
/// map; walking onto its cell afterwards neither meets a wumpus nor ends the
/// episode.
pub proof fn lemma_shot_wumpus_is_gone(game: GameView)
    requires
        !game.game_over,
        game.arrows > 0,
        game.wumpus_ahead(),
    ensures
        game.step(Action::Shoot).events.scream,
        !game.step(Action::Shoot).map.wumpuses.contains(game.location.front(game.direction)),
        !game.step(Action::Shoot).game_over,
        game.step(Action::Shoot).arrows == game.arrows - 1,
        game.step(Action::Shoot).location == game.location,
        game.step(Action::Shoot).direction == game.direction,
        !game.step(Action::Shoot).step(Action::Walk).events.wumpus,
        !game.step(Action::Shoot).step(Action::Walk).events.gameover,
        !game.step(Action::Shoot).step(Action::Walk).game_over,
{
}

/// Whatever happens in between, a cell that holds no wumpus when the player
/// walks onto it neither raises the wumpus flag nor ends the episode.
pub proof fn lemma_walk_onto_cleared_cell(game: GameView)
    requires
        !game.game_over,
        !game.wumpus_ahead(),
    ensures
        !game.step(Action::Walk).events.wumpus,
        !game.step(Action::Walk).events.gameover,
        !game.step(Action::Walk).game_over,
{
}

/// Removing an occupant never adds one: the wumpuses after a step are among
/// those before it.
pub proof fn lemma_wumpuses_only_leave(game: GameView, action: Action)
    ensures
        game.step(action).map.wumpuses.subset_of(game.map.wumpuses),
{
}

/// What holds of the map of every episode: every element of every set lies
/// within the map, the markers are exact, and the occupants are finitely
/// many and keep to the quotas.
pub open spec fn sound(map: WorldMapView) -> bool {
    &&& map.contained()
    &&& map.markers_consistent()
    &&& map.treasures.finite()
    &&& map.wumpuses.finite()
    &&& map.pits.finite()
    &&& within_quota(map)
}

/// No action spoils the map: a sound map stays sound, and so it stays valid
/// with respect to an empty blacklist.
pub proof fn lemma_step_keeps_sound(game: GameView, action: Action)
    requires
        sound(game.map),
    ensures
        sound(game.step(action).map),
        valid(game.step(action).map, Map::<Coordinate, Class>::empty()),
        valid(game.map, Map::<Coordinate, Class>::empty()),
{
    let before = game.map;
    let after = game.step(action).map;
    lemma_remove_keeps_markers(before.treasures, before.glitters, game.location, before.cells());
    if game.location.can_step(game.direction) {
        lemma_remove_keeps_markers(
            before.wumpuses,
            before.stenches,
            game.location.front(game.direction),
            before.cells(),
        );
    }
    assert(after.size == before.size);
    assert(after.treasures.subset_of(before.treasures));
    assert(after.wumpuses.subset_of(before.wumpuses));
    assert(after.pits == before.pits);
    assert(after.markers_consistent());
    assert(after.contained()) by {
        assert forall|c: Coordinate| after.discovered.contains(c) implies after.cells().contains(
            c,
        ) by {
            if !before.discovered.contains(c) {
                assert(before.encompass(c));
            }
        }
    }
    vstd::set_lib::lemma_len_subset(after.treasures, before.treasures);
    vstd::set_lib::lemma_len_subset(after.wumpuses, before.wumpuses);
    lemma_consistent_map_is_valid(after);
    lemma_consistent_map_is_valid(before);
}

/// Once the episode is over, an action changes nothing but the game-over
/// flag of the events, which it raises.
pub proof fn lemma_finished_game_stays(game: GameView, action: Action)
    requires
        game.game_over,
    ensures
        game.step(action) == (GameView {
            events: Events { gameover: true, ..game.events },
            ..game
        }),
{
}

} // verus!
