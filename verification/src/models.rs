//! The players: what every player must offer, a player that acts at random,
//! and the bookkeeping of a player that reasons about what it has seen.

use vstd::prelude::*;
use std::collections::VecDeque;
use crate::algorithms::enumeration::try_calculate_map_possibilities;
use crate::algorithms::enumeration::hypotheses;
use crate::algorithms::enumeration::lemma_small_enumeration_fits;
use crate::algorithms::enumeration::tally;
use crate::algorithms::pathfinding::costs_fit;
use crate::algorithms::pathfinding::int_costs;
use crate::algorithms::pathfinding::path_to_actions;
use crate::algorithms::pathfinding::try_pathfind;
use crate::algorithms::pathfinding::route;
use crate::algorithms::pathfinding::route_actions;
use crate::algorithms::pathfinding::routes_sound;
use crate::algorithms::pathfinding::search;
use crate::algorithms::pathfinding::walkable;
use crate::collections::coord_map::CoordMap;
use crate::collections::coord_set::lemma_push_to_set;
use crate::collections::coord_set::CoordSet;
use crate::wumpus::action::Action;
use crate::wumpus::class::Class;
use crate::wumpus::class::ClassField;
use crate::wumpus::events::Events;
use crate::wumpus::game::Game;
use crate::wumpus::geometry::Coordinate;
use crate::wumpus::geometry::Direction;
use crate::wumpus::map::marks;
use crate::wumpus::map::WorldMap;
use crate::wumpus::map::WorldMapView;
use crate::wumpus::rules::COUNT_PITS;
use crate::wumpus::rules::COUNT_TREASURES;
use crate::wumpus::rules::COUNT_WUMPUSES;
use crate::wumpus::rules::MAP_CELLS;

verus! {

/// A player: it is shown the game once per step and answers with an action.
pub trait Model {
    fn run(&mut self, game: &Game) -> Action
        requires
            game.wf(),
    ;
}

/// The player that picks each action at random.
pub struct ModelRandom {}

impl Model for ModelRandom {
    fn run(&mut self, _game: &Game) -> Action {
        Action::random()
    }
}

/// What the reasoning player decides to do next.
#[derive(Clone, Copy, Debug, PartialEq, Eq, Structural)]
pub enum Decision {
    /// Go to the cell and dig there.
    Dig(Coordinate),
    /// Go up to the cell and shoot into it.
    Shoot(Coordinate),
    /// Go to the cell.
    Explore(Coordinate),
}

impl Decision {
    /// The cell that the decision is about.
    pub open spec fn target(self) -> Coordinate {
        match self {
            Decision::Dig(cell) => cell,
            Decision::Shoot(cell) => cell,
            Decision::Explore(cell) => cell,
        }
    }
}

/// How many cells are still unvisited and how many occupants of each class
/// are still unaccounted for.
#[derive(Clone, Copy, Debug, PartialEq, Eq, Structural)]
pub struct Census {
    pub undiscovered_left: i64,
    pub empties_left: i64,
    pub treasures_left: i64,
    pub wumpuses_left: i64,
    pub pits_left: i64,
}

/// What the reasoning player remembers from step to step.
pub struct ModelBayes {
    pub treasures_found: i32,
    pub wumpuses_killed: i32,
    pub blacklist: CoordMap<Class>,
    pub action_queue: VecDeque<Action>,
}

/// What the reasoning player works out about a game before it decides.
pub struct Survey {
    /// For each reachable cell, the cell from which to enter it.
    pub path_map: CoordMap<Coordinate>,
    /// For each reachable cell, what getting there costs.
    pub path_costs: CoordMap<i32>,
    /// The unvisited cells next to visited ones.
    pub frontier: Vec<Coordinate>,
    /// The visited cells next to a glitter that hold neither wumpus nor pit.
    pub possible_treasures: Vec<Coordinate>,
    /// How many layouts of those cells are valid.
    pub total_possibilities: i32,
    /// For each of those cells and each class, how many valid layouts give
    /// the cell that class.
    pub class_counts: CoordMap<ClassField<i32>>,
    /// What is still unaccounted for.
    pub census: Census,
}

/// The visited cells next to a glitter that hold neither wumpus nor pit:
/// where a treasure may still lie.
pub open spec fn treasure_candidates(map: WorldMapView) -> Set<Coordinate> {
    marks(map.glitters).intersect(map.discovered).difference(map.wumpuses).difference(map.pits)
}

/// What is unaccounted for on `map` when `treasures_found` treasures were dug
/// up and `wumpuses_killed` wumpuses were shot.
pub open spec fn census_of(map: WorldMapView, treasures_found: int, wumpuses_killed: int) -> Census {
    let undiscovered = MAP_CELLS - map.discovered.len();
    let treasures = COUNT_TREASURES - map.treasures.len() - treasures_found;
    let wumpuses = COUNT_WUMPUSES - map.wumpuses.len() - wumpuses_killed;
    let pits = COUNT_PITS - map.pits.len();
    Census {
        undiscovered_left: undiscovered as i64,
        empties_left: (undiscovered - treasures - wumpuses - pits) as i64,
        treasures_left: treasures as i64,
        wumpuses_left: wumpuses as i64,
        pits_left: pits as i64,
    }
}

/// Whether the sets of `map` are small enough to be counted in machine
/// integers.
pub open spec fn countable(map: WorldMapView) -> bool {
    &&& map.discovered.len() <= i32::MAX
    &&& map.treasures.len() <= i32::MAX
    &&& map.wumpuses.len() <= i32::MAX
    &&& map.pits.len() <= i32::MAX
}

/// Whether a game is small enough to be surveyed whatever it holds: its sets
/// can be counted, the costs of its routes fit, and its unknown cells offer
/// at most thirty binary choices, so that the count of the valid layouts is
/// sure to fit.
pub open spec fn surveyable(map: WorldMapView) -> bool {
    &&& countable(map)
    &&& costs_fit(map)
    &&& 2 * map.frontier().len() + treasure_candidates(map).len() <= 30
}

/// Whether `cells` lists the cells of `set`, each once.
pub open spec fn lists(cells: Seq<Coordinate>, set: Set<Coordinate>) -> bool {
    cells.no_duplicates() && cells.to_set() == set
}

/// Whether more layouts of the unknown cells of `map` are valid than the
/// machine integer of the total can hold, for some listing of those cells.
pub open spec fn too_many_layouts(map: WorldMapView, blacklist: Map<Coordinate, Class>) -> bool {
    exists|frontier: Seq<Coordinate>, candidates: Seq<Coordinate>|
        lists(frontier, map.frontier()) && lists(candidates, treasure_candidates(map))
            && #[trigger] tally(
            map,
            blacklist,
            frontier + candidates,
            hypotheses(frontier.len(), candidates.len()),
            None,
        ) > i32::MAX
}

/// The queue of actions that carries out `decision` when `actions` lead to
/// its cell: to dig, walk there and dig; to shoot, stop one step short and
/// shoot; to explore, walk there.
pub open spec fn plan(queue: Seq<Action>, decision: Decision, actions: Seq<Action>) -> Seq<Action> {
    let walk = queue + actions;
    match decision {
        Decision::Dig(_) => walk.push(Action::Dig),
        Decision::Shoot(_) => (if walk.len() > 0 {
            walk.drop_last()
        } else {
            walk
        }).push(Action::Shoot),
        Decision::Explore(_) => walk,
    }
}

/// The blacklist after `decision`: a cell to dig at is not proposed as a
/// treasure again, a cell to shoot at not as a wumpus.
pub open spec fn noted(blacklist: Map<Coordinate, Class>, decision: Decision) -> Map<
    Coordinate,
    Class,
> {
    match decision {
        Decision::Dig(cell) => blacklist.insert(cell, Class::Treasure),
        Decision::Shoot(cell) => blacklist.insert(cell, Class::Wumpus),
        Decision::Explore(_) => blacklist,
    }
}

/// What the estimates say about one unknown cell.
#[derive(Clone, Copy, Debug, PartialEq, Eq, Structural)]
pub struct Verdict {
    pub cell: Coordinate,
    /// The cell holds a treasure with a chance that makes digging worth it.
    pub treasure_likely: bool,
    /// The cell holds a wumpus for certain.
    pub wumpus_certain: bool,
}

impl Verdict {
    /// Whether the verdict calls for action against `class`: digging for a
    /// treasure, shooting a wumpus.
    pub open spec fn spec_calls_for(&self, class: Class) -> bool {
        match class {
            Class::Treasure => self.treasure_likely,
            Class::Wumpus => self.wumpus_certain,
            _ => false,
        }
    }

    /// Whether the verdict calls for action against `class`.
    #[verifier::when_used_as_spec(spec_calls_for)]
    pub fn calls_for(&self, class: Class) -> (r: bool)
        ensures
            r == self.spec_calls_for(class),
    {
        match class {
            Class::Treasure => self.treasure_likely,
            Class::Wumpus => self.wumpus_certain,
            _ => false,
        }
    }
}

/// Whether some verdict calls for action against `class`.
pub open spec fn any_calls_for(verdicts: Seq<Verdict>, class: Class) -> bool {
    exists|i: int| 0 <= i < verdicts.len() && (#[trigger] verdicts[i]).spec_calls_for(class)
}

/// Whether the `i`-th verdict is the first, among those that call for action
/// against `class`, whose cell is as cheap to reach as any of theirs.
pub open spec fn is_cheapest(
    verdicts: Seq<Verdict>,
    costs: Map<Coordinate, i32>,
    class: Class,
    i: int,
) -> bool {
    &&& 0 <= i < verdicts.len()
    &&& verdicts[i].spec_calls_for(class)
    &&& forall|j: int|
        0 <= j < verdicts.len() && (#[trigger] verdicts[j]).spec_calls_for(class)
            ==> costs[verdicts[i].cell] <= costs[verdicts[j].cell]
    &&& forall|j: int|
        0 <= j < i && (#[trigger] verdicts[j]).spec_calls_for(class) ==> costs[verdicts[i].cell]
            < costs[verdicts[j].cell]
}

/// Whether every cell that calls for action against `class` has a known
/// cost.
pub open spec fn costs_known(
    verdicts: Seq<Verdict>,
    costs: Map<Coordinate, i32>,
    class: Class,
) -> bool {
    forall|i: int|
        0 <= i < verdicts.len() && (#[trigger] verdicts[i]).spec_calls_for(class)
            ==> costs.dom().contains(verdicts[i].cell)
}

/// The place of the first verdict, among those that call for action against
/// `class`, whose cell is as cheap to reach as any of theirs.
fn cheapest(verdicts: &[Verdict], costs: &CoordMap<i32>, class: Class) -> (r: Option<usize>)
    requires
        costs.wf(),
        costs_known(verdicts@, costs@, class),
    ensures
        match r {
            Some(i) => is_cheapest(verdicts@, costs@, class, i as int),
            None => !any_calls_for(verdicts@, class),
        },
{
    let mut best: Option<(usize, i32)> = None;
    let mut i: usize = 0;
    while i < verdicts.len()
        invariant
            costs.wf(),
            costs_known(verdicts@, costs@, class),
            i <= verdicts.len(),
            match best {
                Some((k, cost)) => {
                    &&& k < i
                    &&& verdicts@[k as int].spec_calls_for(class)
                    &&& cost == costs@[verdicts@[k as int].cell]
                    &&& forall|j: int|
                        0 <= j < i && (#[trigger] verdicts@[j]).spec_calls_for(class) ==> cost
                            <= costs@[verdicts@[j].cell]
                    &&& forall|j: int|
                        0 <= j < k && (#[trigger] verdicts@[j]).spec_calls_for(class) ==> cost
                            < costs@[verdicts@[j].cell]
                },
                None => forall|j: int| 0 <= j < i ==> !(#[trigger] verdicts@[j]).spec_calls_for(
                    class,
                ),
            },
        decreases verdicts.len() - i,
    {
        if verdicts[i].calls_for(class) {
            let cost = *costs.get(&verdicts[i].cell).unwrap();
            match best {
                Some((_, least)) => {
                    if cost < least {
                        best = Some((i, cost));
                    }
                },
                None => {
                    best = Some((i, cost));
                },
            }
        }
        i += 1;
    }
    match best {
        Some((k, _)) => Some(k),
        None => None,
    }
}

/// Decides what to do. A cell that is likely to hold a treasure is dug at,
/// the cheapest to reach first. Failing that, a cell that is certain to hold
/// a wumpus is shot at, the cheapest to reach first. Failing that, the
/// unvisited cell that was found most rewarding is explored; if there is
/// none either, nothing can be decided.
pub fn decide(
    verdicts: &[Verdict],
    most_rewarding: Option<Coordinate>,
    costs: &CoordMap<i32>,
) -> (r: Option<Decision>)
    requires
        costs.wf(),
        costs_known(verdicts@, costs@, Class::Treasure),
        !any_calls_for(verdicts@, Class::Treasure) ==> costs_known(
            verdicts@,
            costs@,
            Class::Wumpus,
        ),
    ensures
        any_calls_for(verdicts@, Class::Treasure) ==> exists|i: int|
            is_cheapest(verdicts@, costs@, Class::Treasure, i) && r == Some(
                Decision::Dig((#[trigger] verdicts@[i]).cell),
            ),
        !any_calls_for(verdicts@, Class::Treasure) && any_calls_for(verdicts@, Class::Wumpus)
            ==> exists|i: int|
            is_cheapest(verdicts@, costs@, Class::Wumpus, i) && r == Some(
                Decision::Shoot((#[trigger] verdicts@[i]).cell),
            ),
        !any_calls_for(verdicts@, Class::Treasure) && !any_calls_for(verdicts@, Class::Wumpus)
            ==> r == (match most_rewarding {
            Some(cell) => Some(Decision::Explore(cell)),
            None => None,
        }),
{
    if let Some(i) = cheapest(verdicts, costs, Class::Treasure) {
        return Some(Decision::Dig(verdicts[i].cell));
    }
    if let Some(i) = cheapest(verdicts, costs, Class::Wumpus) {
        return Some(Decision::Shoot(verdicts[i].cell));
    }
    match most_rewarding {
        Some(cell) => Some(Decision::Explore(cell)),
        None => None,
    }
}

/// At most one verdict is the cheapest that calls for action against a
/// class.
pub proof fn lemma_cheapest_is_unique(
    verdicts: Seq<Verdict>,
    costs: Map<Coordinate, i32>,
    class: Class,
    i: int,
    j: int,
)
    requires
        is_cheapest(verdicts, costs, class, i),
        is_cheapest(verdicts, costs, class, j),
    ensures
        i == j,
{
}

impl ModelBayes {
    /// Well-formedness of the blacklist.
    pub open spec fn wf(&self) -> bool {
        self.blacklist.wf()
    }

    /// A player that has seen nothing yet.
    pub fn new() -> (r: Self)
        ensures
            r.wf(),
            r.treasures_found == 0,
            r.wumpuses_killed == 0,
            r.blacklist@ == Map::<Coordinate, Class>::empty(),
            r.action_queue@ == Seq::<Action>::empty(),
    {
        ModelBayes {
            treasures_found: 0,
            wumpuses_killed: 0,
            blacklist: CoordMap::new(),
            action_queue: VecDeque::new(),
        }
    }

    /// Takes note of what the last step brought: a treasure dug up, a wumpus
    /// killed.
    pub fn remember(&mut self, events: &Events)
        requires
            events.treasure ==> old(self).treasures_found < i32::MAX,
            events.scream ==> old(self).wumpuses_killed < i32::MAX,
        ensures
            final(self).treasures_found == old(self).treasures_found + (if events.treasure {
                1int
            } else {
                0int
            }),
            final(self).wumpuses_killed == old(self).wumpuses_killed + (if events.scream {
                1int
            } else {
                0int
            }),
            final(self).blacklist == old(self).blacklist,
            final(self).action_queue == old(self).action_queue,
    {
        if events.treasure {
            self.treasures_found += 1;
        }
        if events.scream {
            self.wumpuses_killed += 1;
        }
    }

    /// The next action of a plan that is under way, if there is one.
    pub fn next_queued(&mut self) -> (r: Option<Action>)
        ensures
            final(self).treasures_found == old(self).treasures_found,
            final(self).wumpuses_killed == old(self).wumpuses_killed,
            final(self).blacklist == old(self).blacklist,
            match r {
                Some(action) => old(self).action_queue@.len() > 0 && action == old(
                    self,
                ).action_queue@[0] && final(self).action_queue@ == old(
                    self,
                ).action_queue@.drop_first(),
                None => old(self).action_queue@.len() == 0 && final(self).action_queue@.len() == 0,
            },
    {
        let r = self.action_queue.pop_front();
        r
    }

    /// The visited cells next to a glitter that hold neither wumpus nor pit.
    pub fn possible_treasures(map: &WorldMap) -> (r: CoordSet)
        requires
            map.wf(),
        ensures
            r.wf(),
            r@ == treasure_candidates(map@),
    {
        let glitters = map.glitters.as_vec();
        let mut candidates = CoordSet::new();
        let mut i: usize = 0;
        while i < glitters.len()
            invariant
                i <= glitters.len(),
                map.wf(),
                candidates.wf(),
                glitters@.to_set() == map.glitters@,
                candidates@ == marks(glitters@.take(i as int).to_set()).intersect(
                    map@.discovered,
                ).difference(map@.wumpuses).difference(map@.pits),
            decreases glitters.len() - i,
        {
            proof {
                let seen = glitters@.take(i as int);
                assert(glitters@.take(i + 1) =~= seen.push(glitters@[i as int]));
                lemma_push_to_set(seen, glitters@[i as int]);
            }
            let around = glitters[i].get_neighbours();
            let list = around.as_vec();
            let ghost before = candidates@;
            let mut j: usize = 0;
            while j < list.len()
                invariant
                    j <= list.len(),
                    map.wf(),
                    candidates.wf(),
                    candidates@ == before.union(
                        list@.take(j as int).to_set().intersect(map@.discovered).difference(
                            map@.wumpuses,
                        ).difference(map@.pits),
                    ),
                decreases list.len() - j,
            {
                let cell = list[j];
                proof {
                    assert(list@.take(j + 1) =~= list@.take(j as int).push(cell));
                    lemma_push_to_set(list@.take(j as int), cell);
                }
                if !map.wumpuses.contains(&cell) && !map.pits.contains(&cell)
                    && map.discovered.contains(&cell) {
                    candidates.insert(cell);
                }
                j += 1;
            }
            assert(list@.take(list.len() as int) =~= list@);
            i += 1;
        }
        assert(glitters@.take(glitters.len() as int) =~= glitters@);
        candidates
    }

    /// What is still unaccounted for on `map`.
    pub fn census(&self, map: &WorldMap) -> (r: Census)
        requires
            map.wf(),
            countable(map@),
        ensures
            r == census_of(map@, self.treasures_found as int, self.wumpuses_killed as int),
    {
        let undiscovered: i64 = MAP_CELLS as i64 - map.discovered.len() as i64;
        let treasures: i64 = COUNT_TREASURES as i64 - map.treasures.len() as i64
            - self.treasures_found as i64;
        let wumpuses: i64 = COUNT_WUMPUSES as i64 - map.wumpuses.len() as i64
            - self.wumpuses_killed as i64;
        let pits: i64 = COUNT_PITS as i64 - map.pits.len() as i64;
        Census {
            undiscovered_left: undiscovered,
            empties_left: undiscovered - treasures - wumpuses - pits,
            treasures_left: treasures,
            wumpuses_left: wumpuses,
            pits_left: pits,
        }
    }

    /// Works out what the player needs to know before it decides: the
    /// routes, the unknown cells, how many layouts of them are valid, and what
    /// is unaccounted for. There is no survey where a machine integer cannot
    /// hold what is counted: the cells of a set, the cost of a route, or the
    /// valid layouts.
    pub fn survey(&self, game: &Game) -> (r: Option<Survey>)
        requires
            self.wf(),
            game.wf(),
        ensures
            surveyable(game.map@) ==> r.is_some(),
            r.is_none() ==> !countable(game.map@) || !costs_fit(game.map@) || too_many_layouts(
                game.map@,
                self.blacklist@,
            ),
            r matches Some(s) ==> {
                let unknown = s.frontier@ + s.possible_treasures@;
                let all = hypotheses(s.frontier@.len(), s.possible_treasures@.len());
                &&& countable(game.map@)
                &&& costs_fit(game.map@)
                &&& s.path_map.wf()
                &&& s.path_costs.wf()
                &&& s.class_counts.wf()
                &&& s.path_map@ == search(game.location, game.direction, game.map@).links
                &&& int_costs(s.path_costs@) == search(
                    game.location,
                    game.direction,
                    game.map@,
                ).costs
                &&& routes_sound(s.path_map@, s.path_costs@, game.map@, game.location)
                &&& unknown.no_duplicates()
                &&& s.frontier@.to_set() == game.map@.frontier()
                &&& s.possible_treasures@.to_set() == treasure_candidates(game.map@)
                &&& s.total_possibilities == tally(
                    game.map@,
                    self.blacklist@,
                    unknown,
                    all,
                    None,
                )
                &&& s.class_counts@.dom() == unknown.to_set()
                &&& forall|i: int, class: Class|
                    0 <= i < unknown.len() ==> #[trigger] s.class_counts@[unknown[i]].slot(class)
                        == tally(game.map@, self.blacklist@, unknown, all, Some((i, class)))
                &&& s.census == census_of(
                    game.map@,
                    self.treasures_found as int,
                    self.wumpuses_killed as int,
                )
            },
    {
        let map = &game.map;
        let frontier_set = map.get_frontier();
        let candidate_set = ModelBayes::possible_treasures(map);
        let frontier = frontier_set.to_vec();
        let possible_treasures = candidate_set.to_vec();
        let visited = map.discovered.len();
        if visited > 0x7fffffff || map.treasures.len() > 0x7fffffff || map.wumpuses.len()
            > 0x7fffffff || map.pits.len() > 0x7fffffff {
            return None;
        }
        let (path_map, path_costs) = match try_pathfind(&game.location, &game.direction, map) {
            Some(routes) => routes,
            None => {
                return None;
            },
        };
        proof {
            if 2 * frontier@.len() + possible_treasures@.len() <= 30 {
                lemma_small_enumeration_fits(
                    map@,
                    self.blacklist@,
                    frontier@ + possible_treasures@,
                    frontier@.len(),
                    possible_treasures@.len(),
                );
            }
        }
        let (total_possibilities, class_counts) = match try_calculate_map_possibilities(
            frontier.as_slice(),
            possible_treasures.as_slice(),
            map,
            &self.blacklist,
        ) {
            Some(counts) => counts,
            None => {
                proof {
                    assert(lists(frontier@, map@.frontier()));
                    assert(lists(possible_treasures@, treasure_candidates(map@)));
                    assert(tally(
                        map@,
                        self.blacklist@,
                        frontier@ + possible_treasures@,
                        hypotheses(frontier@.len(), possible_treasures@.len()),
                        None,
                    ) > i32::MAX);
                }
                return None;
            },
        };
        let census = self.census(map);
        proof {
            let unknown = frontier@ + possible_treasures@;
            assert forall|i: int, j: int|
                0 <= i < unknown.len() && 0 <= j < unknown.len() && i != j implies unknown[i]
                != unknown[j] by {
                if i < frontier@.len() {
                    assert(frontier@.to_set().contains(frontier@[i]));
                } else {
                    assert(possible_treasures@.to_set().contains(
                        possible_treasures@[i - frontier@.len()],
                    ));
                }
                if j < frontier@.len() {
                    assert(frontier@.to_set().contains(frontier@[j]));
                } else {
                    assert(possible_treasures@.to_set().contains(
                        possible_treasures@[j - frontier@.len()],
                    ));
                }
            }
        }
        Some(
            Survey {
                path_map,
                path_costs,
                frontier,
                possible_treasures,
                total_possibilities,
                class_counts,
                census,
            },
        )
    }

    /// Turns a decision into actions: notes it on the blacklist, queues the
    /// actions that carry it out and hands out the first of them.
    pub fn carry_out(
        &mut self,
        decision: Decision,
        facing: &Direction,
        path_map: &CoordMap<Coordinate>,
    ) -> (r: Action)
        requires
            old(self).wf(),
            path_map.wf(),
            path_map@.dom().contains(decision.target()),
            walkable(path_map@, decision.target()),
            plan(
                old(self).action_queue@,
                decision,
                route_actions(route(path_map@, decision.target()), *facing),
            ).len() > 0,
        ensures
            final(self).wf(),
            final(self).treasures_found == old(self).treasures_found,
            final(self).wumpuses_killed == old(self).wumpuses_killed,
            final(self).blacklist@ == noted(old(self).blacklist@, decision),
            r == plan(
                old(self).action_queue@,
                decision,
                route_actions(route(path_map@, decision.target()), *facing),
            )[0],
            final(self).action_queue@ == plan(
                old(self).action_queue@,
                decision,
                route_actions(route(path_map@, decision.target()), *facing),
            ).drop_first(),
    {
        let target = match decision {
            Decision::Dig(cell) => cell,
            Decision::Shoot(cell) => cell,
            Decision::Explore(cell) => cell,
        };
        match decision {
            Decision::Dig(cell) => {
                self.blacklist.insert(cell, Class::Treasure);
            },
            Decision::Shoot(cell) => {
                self.blacklist.insert(cell, Class::Wumpus);
            },
            Decision::Explore(_) => {},
        }
        let actions = path_to_actions(&target, facing, path_map).unwrap();
        let mut i: usize = 0;
        while i < actions.len()
            invariant
                i <= actions.len(),
                self.wf(),
                self.treasures_found == old(self).treasures_found,
                self.wumpuses_killed == old(self).wumpuses_killed,
                self.blacklist@ == noted(old(self).blacklist@, decision),
                self.action_queue@ == old(self).action_queue@ + actions@.take(i as int),
            decreases actions.len() - i,
        {
            self.action_queue.push_back(actions[i]);
            i += 1;
        }
        match decision {
            Decision::Dig(_) => {
                self.action_queue.push_back(Action::Dig);
            },
            Decision::Shoot(_) => {
                self.action_queue.pop_back();
                self.action_queue.push_back(Action::Shoot);
            },
            Decision::Explore(_) => {},
        }
        let first = self.action_queue.pop_front().unwrap();
        first
    }
}

impl Default for ModelBayes {
    fn default() -> (r: Self)
        ensures
            r.wf(),
            r.treasures_found == 0,
            r.wumpuses_killed == 0,
            r.blacklist@ == Map::<Coordinate, Class>::empty(),
            r.action_queue@ == Seq::<Action>::empty(),
    {
        ModelBayes::new()
    }
}

} // verus!
