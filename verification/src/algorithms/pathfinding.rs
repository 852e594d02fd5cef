//! Cheapest known routes from the player's pose to the cells it can reach.
//!
//! The search relaxes costs in breadth-first order: cells are expanded in
//! the order in which they were first reached, and a cell whose cost drops
//! after it was expanded is not expanded again.

use vstd::prelude::*;
use crate::collections::coord_map::CoordMap;
use crate::wumpus::action::Action;
use crate::wumpus::geometry::Coordinate;
use crate::wumpus::geometry::Direction;
use crate::wumpus::geometry::lemma_adjacent_is_a_step;
use crate::wumpus::map::WorldMap;
use crate::wumpus::map::WorldMapView;
use crate::wumpus::rules::SCORE_PIT;
use crate::wumpus::rules::SCORE_WUMPUS;

verus! {

/// What the search knows at some moment.
#[verifier::ext_equal]
pub struct SearchState {
    /// For each cell reached, the cell from which it is entered.
    pub links: Map<Coordinate, Coordinate>,
    /// For each cell reached, the direction in which it is entered.
    pub dirs: Map<Coordinate, Direction>,
    /// For each cell reached, the cost of getting there.
    pub costs: Map<Coordinate, int>,
    /// The cells to expand, in the order in which they were first reached.
    pub queue: Seq<Coordinate>,
}

/// What it costs to turn from `facing` to `heading`: a quarter turn costs 1,
/// a half turn 2.
pub open spec fn turn_cost(facing: Direction, heading: Direction) -> int {
    if heading == facing.right() || heading == facing.left() {
        1
    } else if heading == facing.back() {
        2
    } else {
        0
    }
}

/// What the occupant of `cell` adds to the cost of entering it.
pub open spec fn hazard_cost(map: WorldMapView, cell: Coordinate) -> int {
    (if map.wumpuses.contains(cell) {
        -SCORE_WUMPUS
    } else {
        0
    }) + (if map.pits.contains(cell) {
        -SCORE_PIT
    } else {
        0
    })
}

/// The most that one step can cost.
pub open spec fn max_step_cost() -> int {
    1 + 2 - SCORE_WUMPUS - SCORE_PIT
}

/// The cost of stepping from a cell entered with `facing` into `cell`, which
/// lies in direction `heading`.
pub open spec fn step_cost(
    map: WorldMapView,
    facing: Direction,
    heading: Direction,
    cell: Coordinate,
) -> int {
    1 + turn_cost(facing, heading) + hazard_cost(map, cell)
}

/// The search before anything was expanded: the start is linked to itself
/// at no cost and waits to be expanded.
pub open spec fn initial(start: Coordinate, facing: Direction) -> SearchState {
    SearchState {
        links: map![start => start],
        dirs: map![start => facing],
        costs: map![start => 0int],
        queue: seq![start],
    }
}

/// Looks from `current` in direction `heading`. A neighbour outside the map
/// is ignored. A visited neighbour that was not reached before is queued. The
/// neighbour is linked to `current` if that is cheaper than what was known.
pub open spec fn relax(
    st: SearchState,
    map: WorldMapView,
    current: Coordinate,
    heading: Direction,
) -> SearchState {
    if !current.can_step(heading) || !map.encompass(current.front(heading)) {
        st
    } else {
        let next = current.front(heading);
        let queue = if map.discovered.contains(next) && !st.links.dom().contains(next) {
            st.queue.push(next)
        } else {
            st.queue
        };
        let cost = st.costs[current] + step_cost(map, st.dirs[current], heading, next);
        if !st.costs.dom().contains(next) || cost < st.costs[next] {
            SearchState {
                links: st.links.insert(next, current),
                dirs: st.dirs.insert(next, heading),
                costs: st.costs.insert(next, cost),
                queue,
            }
        } else {
            SearchState { queue, ..st }
        }
    }
}

/// Looks from `current` at its four neighbours: east, south, west, north.
pub open spec fn expand(st: SearchState, map: WorldMapView, current: Coordinate) -> SearchState {
    relax(
        relax(
            relax(relax(st, map, current, Direction::East), map, current, Direction::South),
            map,
            current,
            Direction::West,
        ),
        map,
        current,
        Direction::North,
    )
}

/// Expands the queued cells from position `head` on, at most `fuel` of them.
pub open spec fn run(st: SearchState, map: WorldMapView, head: nat, fuel: nat) -> SearchState
    decreases fuel,
{
    if fuel == 0 || head >= st.queue.len() {
        st
    } else {
        run(expand(st, map, st.queue[head as int]), map, head + 1, (fuel - 1) as nat)
    }
}

/// The finished search from `start`. Only the start and visited cells are
/// expanded, each once, so one more round than there are visited cells
/// exhausts the queue.
pub open spec fn search(start: Coordinate, facing: Direction, map: WorldMapView) -> SearchState {
    run(initial(start, facing), map, 0, map.discovered.len() + 1)
}

/// The costs of a map as mathematical integers.
pub open spec fn int_costs(costs: Map<Coordinate, i32>) -> Map<Coordinate, int> {
    Map::new(|k: Coordinate| costs.dom().contains(k), |k: Coordinate| costs[k] as int)
}

/// The `i`-th cell on the way back from `cell` along the links.
pub open spec fn ancestor(links: Map<Coordinate, Coordinate>, cell: Coordinate, i: nat) -> Coordinate
    decreases i,
{
    if i == 0 {
        cell
    } else {
        links[ancestor(links, cell, (i - 1) as nat)]
    }
}

/// A cell at which the way back ends: it is linked to itself or not at all.
pub open spec fn is_root(links: Map<Coordinate, Coordinate>, cell: Coordinate) -> bool {
    !links.dom().contains(cell) || links[cell] == cell
}

/// The way back from `cell` ends after exactly `n` links, each of which
/// joins two adjacent cells.
pub open spec fn leads_home(links: Map<Coordinate, Coordinate>, cell: Coordinate, n: nat) -> bool {
    &&& forall|i: nat|
        i < n ==> !is_root(links, #[trigger] ancestor(links, cell, i)) && ancestor(
            links,
            cell,
            i + 1,
        ).adjacent(ancestor(links, cell, i))
    &&& is_root(links, ancestor(links, cell, n))
}

/// The way back from `cell` ends, and each of its links joins two adjacent
/// cells.
pub open spec fn walkable(links: Map<Coordinate, Coordinate>, cell: Coordinate) -> bool {
    exists|n: nat| leads_home(links, cell, n)
}

/// The number of links on the way back from `cell`.
pub open spec fn depth(links: Map<Coordinate, Coordinate>, cell: Coordinate) -> nat {
    choose|n: nat| leads_home(links, cell, n)
}

/// The way back from `cell` has one length only.
pub proof fn lemma_depth_unique(
    links: Map<Coordinate, Coordinate>,
    cell: Coordinate,
    n: nat,
    m: nat,
)
    requires
        leads_home(links, cell, n),
        leads_home(links, cell, m),
    ensures
        n == m,
{
}

/// Going back `i + 1` links from a cell is going back `i` links from the
/// cell it is linked to.
pub proof fn lemma_ancestor_shift(links: Map<Coordinate, Coordinate>, cell: Coordinate, i: nat)
    ensures
        ancestor(links, cell, i + 1) == ancestor(links, links[cell], i),
    decreases i,
{
    if i > 0 {
        lemma_ancestor_shift(links, cell, (i - 1) as nat);
    } else {
        assert(ancestor(links, cell, 0) == cell);
    }
}

/// A cell linked to an adjacent cell whose way back ends has a way back that
/// ends, one link longer.
pub proof fn lemma_leads_home_step(links: Map<Coordinate, Coordinate>, cell: Coordinate, n: nat)
    requires
        !is_root(links, cell),
        links[cell].adjacent(cell),
        leads_home(links, links[cell], n),
    ensures
        leads_home(links, cell, n + 1),
{
    assert forall|i: nat| i < n + 1 implies !is_root(links, #[trigger] ancestor(links, cell, i))
        && ancestor(links, cell, i + 1).adjacent(ancestor(links, cell, i)) by {
        lemma_ancestor_shift(links, cell, i);
        if i > 0 {
            lemma_ancestor_shift(links, cell, (i - 1) as nat);
        }
    }
    lemma_ancestor_shift(links, cell, n);
}

/// What holds of the search from a start while the queue is worked off.
/// `head` cells of the queue have been expanded.
#[verifier::opaque]
spec fn search_inv(
    st: SearchState,
    map: WorldMapView,
    start: Coordinate,
    head: int,
) -> bool {
    &&& st.links.dom() == st.costs.dom()
    &&& st.dirs.dom() == st.costs.dom()
    &&& st.costs.dom().contains(start)
    &&& st.links[start] == start
    &&& st.costs[start] == 0
    &&& forall|k: Coordinate| #[trigger] st.costs.dom().contains(k) ==> linked(st, map, start, k)
    &&& st.queue.len() >= 1
    &&& st.queue[0] == start
    &&& st.queue.no_duplicates()
    &&& st.queue.len() <= map.discovered.len() + 1
    &&& forall|i: int| 0 <= i < st.queue.len() ==> queued(st, map, i)
    &&& 0 <= head <= st.queue.len()
    &&& forall|i: int, d: Direction| 0 <= i < head ==> #[trigger] looked(st, map, st.queue[i], d)
}

/// What holds of a reached cell.
spec fn linked(st: SearchState, map: WorldMapView, start: Coordinate, k: Coordinate) -> bool {
    &&& 0 <= st.costs[k] <= max_step_cost() * st.queue.len()
    &&& map.discovered.contains(k) ==> st.queue.contains(k)
    &&& k != start ==> {
        &&& st.links.dom().contains(st.links[k])
        &&& st.links[k].direction_to(k) == Some(st.dirs[k])
        &&& st.costs[k] >= st.costs[st.links[k]] + 1
        &&& map.encompass(k)
        &&& st.queue.contains(st.links[k])
    }
}

/// What holds of the `i`-th queued cell.
spec fn queued(st: SearchState, map: WorldMapView, i: int) -> bool {
    &&& st.costs.dom().contains(st.queue[i])
    &&& st.costs[st.queue[i]] <= max_step_cost() * i
    &&& i >= 1 ==> map.discovered.contains(st.queue[i])
}

/// The neighbour of `cell` in direction `d` was reached, if it lies on the
/// map.
spec fn looked(st: SearchState, map: WorldMapView, cell: Coordinate, d: Direction) -> bool {
    cell.can_step(d) && map.encompass(cell.front(d)) ==> st.costs.dom().contains(cell.front(d))
}

/// Whether the costs of a search on `map` fit the machine integers that hold
/// them.
pub open spec fn costs_fit(map: WorldMapView) -> bool {
    (map.discovered.len() + 1) * max_step_cost() <= i32::MAX
}

/// A list of distinct cells taken from a finite set is no longer than the
/// set is large.
proof fn lemma_distinct_within(s: Seq<Coordinate>, set: Set<Coordinate>)
    requires
        s.no_duplicates(),
        set.finite(),
        forall|i: int| 0 <= i < s.len() ==> set.contains(#[trigger] s[i]),
    ensures
        s.len() <= set.len(),
{
    s.unique_seq_to_set();
    assert(s.to_set().subset_of(set)) by {
        assert forall|c: Coordinate| s.to_set().contains(c) implies set.contains(c) by {
        }
    }
    vstd::set_lib::lemma_len_subset(s.to_set(), set);
}

/// The working state of a search.
struct Search {
    links: CoordMap<Coordinate>,
    dirs: CoordMap<Direction>,
    costs: CoordMap<i32>,
    queue: Vec<Coordinate>,
}

impl View for Search {
    type V = SearchState;

    closed spec fn view(&self) -> SearchState {
        SearchState {
            links: self.links@,
            dirs: self.dirs@,
            costs: int_costs(self.costs@),
            queue: self.queue@,
        }
    }
}

impl Search {
    spec fn wf(&self) -> bool {
        &&& self.links.wf()
        &&& self.dirs.wf()
        &&& self.costs.wf()
    }

    fn begin(start: Coordinate, facing: Direction, Ghost(map): Ghost<WorldMapView>) -> (r: Self)
        requires
            map.discovered.finite(),
        ensures
            r.wf(),
            r@ == initial(start, facing),
            search_inv(r@, map, start, 0),
    {
        let mut links: CoordMap<Coordinate> = CoordMap::new();
        let mut dirs: CoordMap<Direction> = CoordMap::new();
        let mut costs: CoordMap<i32> = CoordMap::new();
        let mut queue: Vec<Coordinate> = Vec::new();
        links.insert(start, start);
        dirs.insert(start, facing);
        costs.insert(start, 0);
        queue.push(start);
        let r = Search { links, dirs, costs, queue };
        proof {
            reveal(search_inv);
            assert(r@.queue[0] == start);
        }
        r
    }

    #[verifier::rlimit(50)]
    fn relax(
        &mut self,
        map: &WorldMap,
        current: Coordinate,
        heading: Direction,
        Ghost(start): Ghost<Coordinate>,
        Ghost(head): Ghost<int>,
    )
        requires
            old(self).wf(),
            map.wf(),
            costs_fit(map@),
            search_inv(old(self)@, map@, start, head),
            0 <= head < old(self)@.queue.len(),
            old(self)@.queue[head] == current,
        ensures
            final(self).wf(),
            final(self)@ == relax(old(self)@, map@, current, heading),
            search_inv(final(self)@, map@, start, head),
            head < final(self)@.queue.len(),
            final(self)@.queue[head] == current,
            old(self)@.costs.dom().subset_of(final(self)@.costs.dom()),
            looked(final(self)@, map@, current, heading),
    {
        let ghost before = self@;
        proof {
            reveal(search_inv);
            map.discovered.lemma_finite();
            assert(queued(before, map@, head));
        }
        let next = match current.checked_front(&heading) {
            Some(cell) => cell,
            None => {
                return ;
            },
        };
        if !map.encompass(&next) {
            return ;
        }
        proof {
            lemma_adjacent_is_a_step(current, next);
        }
        let fresh = !self.links.contains_key(&next);
        let enqueue = map.discovered.contains(&next) && fresh;
        if enqueue {
            proof {
                let tail = before.queue.skip(1).push(next);
                assert forall|i: int| 0 <= i < tail.len() implies map@.discovered.contains(
                    #[trigger] tail[i],
                ) by {
                    if i < tail.len() - 1 {
                        assert(queued(before, map@, i + 1));
                    }
                }
                assert forall|i: int, j: int|
                    0 <= i < tail.len() && 0 <= j < tail.len() && i != j implies tail[i]
                    != tail[j] by {
                    if i < tail.len() - 1 {
                        assert(queued(before, map@, i + 1));
                    }
                    if j < tail.len() - 1 {
                        assert(queued(before, map@, j + 1));
                    }
                }
                lemma_distinct_within(tail, map@.discovered);
            }
            self.queue.push(next);
        }
        let facing = *self.dirs.get(&current).unwrap();
        let mut cost: i32 = *self.costs.get(&current).unwrap();
        assert(max_step_cost() * head + max_step_cost() <= max_step_cost() * before.queue.len())
            by (nonlinear_arith)
            requires
                head < before.queue.len(),
                max_step_cost() > 0,
        ;
        assert(max_step_cost() * before.queue.len() <= i32::MAX) by (nonlinear_arith)
            requires
                before.queue.len() <= map@.discovered.len() + 1,
                (map@.discovered.len() + 1) * max_step_cost() <= i32::MAX,
                max_step_cost() > 0,
        ;
        if map.wumpuses.contains(&next) {
            cost -= SCORE_WUMPUS;
        }
        if map.pits.contains(&next) {
            cost -= SCORE_PIT;
        }
        if heading == facing.rotate_right() {
            cost += 1;
        }
        if heading == facing.rotate_left() {
            cost += 1;
        }
        if heading == facing.rotate_back() {
            cost += 2;
        }
        cost += 1;
        let better = match self.costs.get(&next) {
            Some(known) => cost < *known,
            None => true,
        };
        if better {
            self.links.insert(next, current);
            self.dirs.insert(next, heading);
            self.costs.insert(next, cost);
        }
        proof {
            let after = self@;
            assert(after.costs =~= relax(before, map@, current, heading).costs);
            assert(max_step_cost() * before.queue.len() <= max_step_cost() * after.queue.len())
                by (nonlinear_arith)
                requires
                    before.queue.len() <= after.queue.len(),
                    max_step_cost() > 0,
            ;
            assert forall|c: Coordinate| before.queue.contains(c) implies after.queue.contains(
                c,
            ) by {
                let i = choose|i: int| 0 <= i < before.queue.len() && before.queue[i] == c;
                assert(after.queue[i] == c);
            }
            if enqueue {
                assert(after.queue[before.queue.len() as int] == next);
            }
            assert forall|k: Coordinate| #[trigger] after.costs.dom().contains(k) implies linked(
                after,
                map@,
                start,
                k,
            ) by {
            }
            assert forall|i: int| 0 <= i < after.queue.len() implies queued(after, map@, i) by {
                if i < before.queue.len() {
                    assert(queued(before, map@, i));
                } else {
                    assert(max_step_cost() * (head + 1) <= max_step_cost() * i)
                        by (nonlinear_arith)
                        requires
                            head + 1 <= i,
                            max_step_cost() > 0,
                    ;
                }
            }
            assert forall|i: int, j: int|
                0 <= i < after.queue.len() && 0 <= j < after.queue.len() && i
                    != j implies after.queue[i] != after.queue[j] by {
                if i < before.queue.len() {
                    assert(queued(before, map@, i));
                }
                if j < before.queue.len() {
                    assert(queued(before, map@, j));
                }
            }
            assert forall|i: int, d: Direction| 0 <= i < head implies #[trigger] looked(
                after,
                map@,
                after.queue[i],
                d,
            ) by {
                assert(looked(before, map@, before.queue[i], d));
            }
        }
    }

    fn expand(
        &mut self,
        map: &WorldMap,
        current: Coordinate,
        Ghost(start): Ghost<Coordinate>,
        Ghost(head): Ghost<int>,
    )
        requires
            old(self).wf(),
            map.wf(),
            costs_fit(map@),
            search_inv(old(self)@, map@, start, head),
            0 <= head < old(self)@.queue.len(),
            old(self)@.queue[head] == current,
        ensures
            final(self).wf(),
            final(self)@ == expand(old(self)@, map@, current),
            search_inv(final(self)@, map@, start, head + 1),
            head < final(self)@.queue.len() <= map@.discovered.len() + 1,
    {
        self.relax(map, current, Direction::East, Ghost(start), Ghost(head));
        self.relax(map, current, Direction::South, Ghost(start), Ghost(head));
        self.relax(map, current, Direction::West, Ghost(start), Ghost(head));
        self.relax(map, current, Direction::North, Ghost(start), Ghost(head));
        proof {
            reveal(search_inv);
            assert forall|i: int, d: Direction| 0 <= i < head + 1 implies #[trigger] looked(
                self@,
                map@,
                self@.queue[i],
                d,
            ) by {
                if i == head {
                    match d {
                        Direction::East => {},
                        Direction::South => {},
                        Direction::West => {},
                        Direction::North => {},
                    }
                }
            }
        }
    }
}

/// What holds of the links and costs of a finished search from `start`.
pub open spec fn routes_sound(
    links: Map<Coordinate, Coordinate>,
    costs: Map<Coordinate, i32>,
    map: WorldMapView,
    start: Coordinate,
) -> bool {
    &&& links.dom() == costs.dom()
    &&& links.dom().contains(start)
    &&& links[start] == start
    &&& costs[start] == 0
    &&& forall|k: Coordinate| #[trigger]
        links.dom().contains(k) ==> walkable(links, k) && costs[k] >= 0
    &&& forall|k: Coordinate| #[trigger]
        links.dom().contains(k) && k != start ==> {
            &&& map.encompass(k)
            &&& links.dom().contains(links[k])
            &&& links[k].adjacent(k)
            &&& links[k] == start || map.discovered.contains(links[k])
            &&& costs[k] > costs[links[k]]
        }
    &&& forall|k: Coordinate, d: Direction|
        links.dom().contains(k) && (k == start || map.discovered.contains(k)) && #[trigger] k.can_step(
            d,
        ) && map.encompass(k.front(d)) ==> links.dom().contains(k.front(d))
}

/// Every cell that a search has reached has a way back to the start.
proof fn lemma_reached_is_walkable(
    st: SearchState,
    map: WorldMapView,
    start: Coordinate,
    head: int,
    k: Coordinate,
)
    requires
        search_inv(st, map, start, head),
        st.costs.dom().contains(k),
    ensures
        walkable(st.links, k),
    decreases st.costs[k],
{
    reveal(search_inv);
    assert(linked(st, map, start, k));
    if k == start {
        assert(leads_home(st.links, k, 0));
    } else {
        let parent = st.links[k];
        lemma_reached_is_walkable(st, map, start, head, parent);
        let n = choose|n: nat| leads_home(st.links, parent, n);
        lemma_leads_home_step(st.links, k, n);
    }
}

/// When the queue is worked off, the links and costs are sound.
proof fn lemma_finished_is_sound(
    st: SearchState,
    costs: Map<Coordinate, i32>,
    map: WorldMapView,
    start: Coordinate,
)
    requires
        search_inv(st, map, start, st.queue.len() as int),
        int_costs(costs) == st.costs,
    ensures
        routes_sound(st.links, costs, map, start),
{
    reveal(search_inv);
    assert(st.links.dom() =~= costs.dom());
    assert forall|k: Coordinate| #[trigger] st.links.dom().contains(k) implies walkable(
        st.links,
        k,
    ) && costs[k] >= 0 by {
        lemma_reached_is_walkable(st, map, start, st.queue.len() as int, k);
    }
    assert forall|k: Coordinate| #[trigger] st.links.dom().contains(k) && k != start implies {
        &&& map.encompass(k)
        &&& st.links.dom().contains(st.links[k])
        &&& st.links[k].adjacent(k)
        &&& st.links[k] == start || map.discovered.contains(st.links[k])
        &&& costs[k] > costs[st.links[k]]
    } by {
        let i = choose|i: int| 0 <= i < st.queue.len() && st.queue[i] == st.links[k];
        assert(queued(st, map, i));
    }
    assert forall|k: Coordinate, d: Direction|
        st.links.dom().contains(k) && (k == start || map.discovered.contains(k))
            && #[trigger] k.can_step(d) && map.encompass(k.front(d)) implies st.links.dom().contains(
        k.front(d),
    ) by {
        if k == start {
            assert(looked(st, map, st.queue[0], d));
        } else {
            let i = choose|i: int| 0 <= i < st.queue.len() && st.queue[i] == k;
            assert(looked(st, map, st.queue[i], d));
        }
    }
}

/// Finds, for every cell that can be reached from the start through visited
/// cells, the cell from which to enter it and what getting there costs.
pub fn pathfind(initial_location: &Coordinate, initial_direction: &Direction, map: &WorldMap) -> (r:
    (CoordMap<Coordinate>, CoordMap<i32>))
    requires
        map.wf(),
        costs_fit(map@),
    ensures
        r.0.wf(),
        r.1.wf(),
        r.0@ == search(*initial_location, *initial_direction, map@).links,
        int_costs(r.1@) == search(*initial_location, *initial_direction, map@).costs,
        routes_sound(r.0@, r.1@, map@, *initial_location),
{
    proof {
        map.discovered.lemma_finite();
    }
    let ghost rounds = map@.discovered.len() + 1;
    let ghost goal = search(*initial_location, *initial_direction, map@);
    let mut state = Search::begin(*initial_location, *initial_direction, Ghost(map@));
    let mut head: usize = 0;
    while head < state.queue.len()
        invariant
            map.wf(),
            costs_fit(map@),
            state.wf(),
            rounds == map@.discovered.len() + 1,
            head <= state@.queue.len() <= rounds,
            state@.queue == state.queue@,
            search_inv(state@, map@, *initial_location, head as int),
            run(state@, map@, head as nat, (rounds - head) as nat) == goal,
        decreases rounds - head,
    {
        let current = state.queue[head];
        state.expand(map, current, Ghost(*initial_location), Ghost(head as int));
        head += 1;
    }
    proof {
        lemma_finished_is_sound(state@, state.costs@, map@, *initial_location);
    }
    (state.links, state.costs)
}

/// Finds the routes as `pathfind` does, for every map: where the costs of
/// the search may not fit the machine integers that hold them, there are no
/// routes.
pub fn try_pathfind(initial_location: &Coordinate, initial_direction: &Direction, map: &WorldMap) -> (r:
    Option<(CoordMap<Coordinate>, CoordMap<i32>)>)
    requires
        map.wf(),
    ensures
        r.is_some() <==> costs_fit(map@),
        r matches Some(routes) ==> {
            &&& routes.0.wf()
            &&& routes.1.wf()
            &&& routes.0@ == search(*initial_location, *initial_direction, map@).links
            &&& int_costs(routes.1@) == search(*initial_location, *initial_direction, map@).costs
            &&& routes_sound(routes.0@, routes.1@, map@, *initial_location)
        },
{
    let visited = map.discovered.len();
    if visited > 8000000 {
        assert((visited + 1) * max_step_cost() > i32::MAX) by (nonlinear_arith)
            requires
                visited > 8000000,
                max_step_cost() == 303,
        ;
        return None;
    }
    if (visited + 1) * 303 > 0x7fffffff {
        return None;
    }
    Some(pathfind(initial_location, initial_direction, map))
}

/// The turns that bring a player who faces `facing` to face `heading`.
pub open spec fn turn_actions(facing: Direction, heading: Direction) -> Seq<Action> {
    if heading == facing.back() {
        seq![Action::Right, Action::Right]
    } else if heading == facing.right() {
        seq![Action::Right]
    } else if heading == facing.left() {
        seq![Action::Left]
    } else {
        Seq::empty()
    }
}

/// The cells from the end of the way back from `target` to `target` itself.
pub open spec fn route(links: Map<Coordinate, Coordinate>, target: Coordinate) -> Seq<Coordinate> {
    let n = depth(links, target);
    Seq::new(n + 1, |j: int| ancestor(links, target, (n - j) as nat))
}

/// The direction of the step from `from` to the adjacent cell `to`.
pub open spec fn heading_between(from: Coordinate, to: Coordinate) -> Direction {
    match from.direction_to(to) {
        Some(d) => d,
        None => Direction::East,
    }
}

/// The actions that take a player who faces `facing` along `path`, from its
/// first cell to its last: for each step the turns it needs, then a walk.
pub open spec fn route_actions(path: Seq<Coordinate>, facing: Direction) -> Seq<Action>
    decreases path.len(),
{
    if path.len() <= 1 {
        Seq::empty()
    } else {
        let heading = heading_between(path[0], path[1]);
        turn_actions(facing, heading) + seq![Action::Walk] + route_actions(
            path.drop_first(),
            heading,
        )
    }
}

/// Turns the way to `target` into actions. There is none if `target` has no
/// link.
pub fn path_to_actions(
    target: &Coordinate,
    initial_direction: &Direction,
    pathmap: &CoordMap<Coordinate>,
) -> (r: Option<Vec<Action>>)
    requires
        pathmap.wf(),
        pathmap@.dom().contains(*target) ==> walkable(pathmap@, *target),
    ensures
        match r {
            Some(actions) => pathmap@.dom().contains(*target) && actions@ == route_actions(
                route(pathmap@, *target),
                *initial_direction,
            ),
            None => !pathmap@.dom().contains(*target),
        },
{
    if !pathmap.contains_key(target) {
        return None;
    }
    let ghost links = pathmap@;
    let ghost n = depth(links, *target);
    assert(leads_home(links, *target, n));
    let mut chain: Vec<Coordinate> = Vec::new();
    chain.push(*target);
    let mut location = *target;
    let mut done = false;
    assert(ancestor(links, *target, 0) == *target);
    while !done
        invariant
            pathmap.wf(),
            links == pathmap@,
            leads_home(links, *target, n),
            1 <= chain.len() <= n + 1,
            location == chain@[chain.len() - 1],
            forall|i: int|
                0 <= i < chain.len() ==> #[trigger] chain@[i] == ancestor(links, *target, i as nat),
            done ==> is_root(links, location),
        decreases
                n + 1 - chain.len() + (if done {
                    0int
                } else {
                    1int
                }),
    {
        let ghost i = (chain.len() - 1) as nat;
        assert(location == ancestor(links, *target, i));
        match pathmap.get(&location) {
            Some(new_location) => {
                if *new_location != location {
                    assert(!is_root(links, location));
                    assert(i < n);
                    assert(ancestor(links, *target, i + 1) == links[ancestor(links, *target, i)]);
                    chain.push(*new_location);
                    location = *new_location;
                } else {
                    done = true;
                }
            },
            None => {
                done = true;
            },
        }
    }
    assert(chain.len() == n + 1) by {
        if chain.len() - 1 < n {
            assert(!is_root(links, ancestor(links, *target, (chain.len() - 1) as nat)));
        }
    }
    let ghost path = route(links, *target);
    assert(path.len() == n + 1);
    let steps = chain.len() - 1;
    let mut actions: Vec<Action> = Vec::new();
    let mut facing = *initial_direction;
    let mut j: usize = 0;
    assert(path.skip(0) =~= path);
    while j < steps
        invariant
            j <= steps,
            steps == n,
            chain.len() == n + 1,
            path == route(links, *target),
            path.len() == n + 1,
            leads_home(links, *target, n),
            forall|i: int|
                0 <= i < chain.len() ==> #[trigger] chain@[i] == ancestor(links, *target, i as nat),
            actions@ + route_actions(path.skip(j as int), facing) == route_actions(
                path,
                *initial_direction,
            ),
        decreases steps - j,
    {
        let from = chain[steps - j];
        let to = chain[steps - j - 1];
        proof {
            let i = (n - 1 - j) as nat;
            assert(!is_root(links, ancestor(links, *target, i)) && ancestor(
                links,
                *target,
                i + 1,
            ).adjacent(ancestor(links, *target, i)));
            assert(chain@[steps - j] == ancestor(links, *target, (steps - j) as nat));
            assert(chain@[steps - j - 1] == ancestor(links, *target, (steps - j - 1) as nat));
            assert(from.adjacent(to));
            lemma_adjacent_is_a_step(from, to);
            let rest = path.skip(j as int);
            assert(rest[0] == from);
            assert(rest[1] == to);
            assert(rest.drop_first() =~= path.skip(j + 1));
        }
        let heading = from.get_relative_direction(&to).unwrap();
        let ghost before = actions@;
        if heading == facing.rotate_back() {
            actions.push(Action::Right);
            actions.push(Action::Right);
        }
        if heading == facing.rotate_right() {
            actions.push(Action::Right);
        }
        if heading == facing.rotate_left() {
            actions.push(Action::Left);
        }
        actions.push(Action::Walk);
        proof {
            crate::wumpus::geometry::lemma_rotations(facing);
            assert(actions@ =~= before + turn_actions(facing, heading) + seq![Action::Walk]);
            assert(actions@ + route_actions(path.skip(j + 1), heading) =~= before + route_actions(
                path.skip(j as int),
                facing,
            ));
        }
        facing = heading;
        j += 1;
    }
    Some(actions)
}

/// The way from a cell that is linked to itself to that same cell needs no
/// action.
pub proof fn lemma_route_to_self(
    links: Map<Coordinate, Coordinate>,
    start: Coordinate,
    facing: Direction,
)
    requires
        links.dom().contains(start),
        links[start] == start,
    ensures
        walkable(links, start),
        depth(links, start) == 0,
        route(links, start) == seq![start],
        route_actions(route(links, start), facing) == Seq::<Action>::empty(),
{
    assert(ancestor(links, start, 0) == start);
    lemma_depth_unique(links, start, 0, depth(links, start));
}

/// A search reaches its start at no cost, and the way from the start to
/// itself needs no action.
pub proof fn lemma_search_start(start: Coordinate, facing: Direction, map: WorldMapView)
    ensures
        search(start, facing, map).costs.dom().contains(start),
        search(start, facing, map).costs[start] == 0,
        search(start, facing, map).links[start] == start,
        route_actions(route(search(start, facing, map).links, start), facing) == Seq::<
            Action,
        >::empty(),
{
    lemma_run_keeps_start(initial(start, facing), map, start, 0, map.discovered.len() + 1);
    lemma_route_to_self(search(start, facing, map).links, start, facing);
}

/// What a search never changes about its start.
spec fn start_kept(st: SearchState, start: Coordinate) -> bool {
    &&& st.links.dom().contains(start)
    &&& st.costs.dom().contains(start)
    &&& st.links[start] == start
    &&& st.costs[start] == 0
    &&& forall|k: Coordinate| st.costs.dom().contains(k) ==> #[trigger] st.costs[k] >= 0
}

proof fn lemma_run_keeps_start(
    st: SearchState,
    map: WorldMapView,
    start: Coordinate,
    head: nat,
    fuel: nat,
)
    requires
        start_kept(st, start),
        forall|i: int| 0 <= i < st.queue.len() ==> st.costs.dom().contains(#[trigger] st.queue[i]),
    ensures
        start_kept(run(st, map, head, fuel), start),
    decreases fuel,
{
    if fuel > 0 && head < st.queue.len() {
        let current = st.queue[head as int];
        let s1 = relax(st, map, current, Direction::East);
        let s2 = relax(s1, map, current, Direction::South);
        let s3 = relax(s2, map, current, Direction::West);
        let s4 = relax(s3, map, current, Direction::North);
        lemma_run_keeps_start(s4, map, start, head + 1, (fuel - 1) as nat);
    }
}

} // verus!
