//! Counts the layouts of the unknown cells that agree with what was observed.
//!
//! The unknown cells are the frontier, whose cells may hold any of the four
//! classes, and the candidate cells for a treasure, which are empty or hold
//! a treasure. Every combination of choices is written onto a scratch copy
//! of the map and checked; the valid ones are counted, in total and for each
//! cell and class.

use vstd::prelude::*;
use itertools::Itertools;
use itertools::structs::MultiProduct;
use itertools::structs::RepeatN;
use std::ops::Range;
use vstd::arithmetic::power2::pow2;
use vstd::arithmetic::power2::lemma_pow2_unfold;
use vstd::arithmetic::power2::lemma_pow2_adds;
use vstd::arithmetic::power2::lemma2_to64;
use crate::algorithms::validator::is_map_valid;
use crate::algorithms::validator::valid;
use crate::collections::coord_map::CoordMap;
use crate::collections::coord_set::lemma_push_to_set;
use crate::wumpus::class::Class;
use crate::wumpus::class::ClassField;
use crate::wumpus::geometry::Coordinate;
use crate::wumpus::map::WorldMap;
use crate::wumpus::map::WorldMapView;

verus! {

/// The iterator over repetitions of one value that `itertools` provides.
#[verifier::external_type_specification]
#[verifier::external_body]
#[verifier::reject_recursive_types(A)]
pub struct ExRepeatN<A>(RepeatN<A>);

/// The iterator over a cartesian product that `itertools` provides.
#[verifier::external_type_specification]
#[verifier::external_body]
#[verifier::reject_recursive_types(I)]
pub struct ExMultiProduct<I>(MultiProduct<I>) where I: Iterator + Clone, I::Item: Clone;

/// The ranges that a repetition has yet to yield, in order, each as the list
/// of the numbers in it.
pub uninterp spec fn repeated(copies: RepeatN<Range<usize>>) -> Seq<Seq<usize>>;

/// What a product iterator has yet to yield, in order.
pub uninterp spec fn remaining(products: MultiProduct<Range<usize>>) -> Seq<Seq<usize>>;

/// The digits below `arity`, in rising order.
pub open spec fn digits_below(arity: nat) -> Seq<usize> {
    Seq::new(arity, |d: int| d as usize)
}

/// The continuations of `prefix` by each of `choices`, in their order.
pub open spec fn suffixes(prefix: Seq<usize>, choices: Seq<usize>) -> Seq<Seq<usize>> {
    Seq::new(choices.len(), |d: int| prefix.push(choices[d]))
}

/// Each of `prefixes`, in order, continued by each of `choices`.
pub open spec fn extend_each(prefixes: Seq<Seq<usize>>, choices: Seq<usize>) -> Seq<Seq<usize>>
    decreases prefixes.len(),
{
    if prefixes.len() == 0 {
        Seq::empty()
    } else {
        extend_each(prefixes.drop_last(), choices) + suffixes(prefixes.last(), choices)
    }
}

/// The cartesian product of `lists`: every way of taking one number from
/// each list, in lexicographic order, so that the choice from the last list
/// changes fastest. The product of no lists is the one empty choice.
pub open spec fn product(lists: Seq<Seq<usize>>) -> Seq<Seq<usize>>
    decreases lists.len(),
{
    if lists.len() == 0 {
        seq![Seq::empty()]
    } else {
        extend_each(product(lists.drop_last()), lists.last())
    }
}

/// All lists of `n` digits below `arity`, in lexicographic order: the last
/// digit changes fastest. There is one list of no digits.
pub open spec fn digit_power(arity: nat, n: nat) -> Seq<Seq<usize>> {
    product(Seq::new(n, |i: int| digits_below(arity)))
}

/// The range of the digits below `arity`, `n` times.
///
/// Calls `itertools::repeat_n`. The contract claims that the iterator yields
/// the range from zero up to `arity` exactly `n` times.
#[verifier::external_body]
fn repeat_range(arity: usize, n: usize) -> (r: RepeatN<Range<usize>>)
    ensures
        repeated(r) == Seq::new(n as nat, |i: int| digits_below(arity as nat)),
{
    itertools::repeat_n(0..arity, n)
}

/// Starts the iteration over the cartesian product of the ranges that
/// `copies` yields.
///
/// Calls `Itertools::multi_cartesian_product`. The contract claims what its
/// documentation shows: the product comes in lexicographic order with the
/// choice from the last range changing fastest, and the product of no ranges
/// is the one empty list.
#[verifier::external_body]
fn products_of(copies: RepeatN<Range<usize>>) -> (r: MultiProduct<Range<usize>>)
    ensures
        remaining(r) == product(repeated(copies)),
{
    copies.multi_cartesian_product()
}

/// Starts the iteration over all lists of `n` digits below `arity`.
fn digit_products(arity: usize, n: usize) -> (r: MultiProduct<Range<usize>>)
    ensures
        remaining(r) == digit_power(arity as nat, n as nat),
{
    products_of(repeat_range(arity, n))
}

/// Takes the next list of digits from the iteration.
///
/// Calls `Iterator::next` of `itertools::structs::MultiProduct`. The contract
/// claims that it hands out what the iteration has yet to yield, one list at
/// a time and in order, and that it yields nothing once that is used up.
#[verifier::external_body]
fn next_product(products: &mut MultiProduct<Range<usize>>) -> (r: Option<Vec<usize>>)
    ensures
        match r {
            Some(digits) => remaining(*old(products)).len() > 0 && digits@ == remaining(
                *old(products),
            )[0] && remaining(*final(products)) == remaining(*old(products)).drop_first(),
            None => remaining(*old(products)).len() == 0 && remaining(*final(products)).len()
                == 0,
        },
{
    products.next()
}

/// The class that a digit stands for on a frontier cell.
pub open spec fn frontier_choice(digit: usize) -> Class {
    if digit == 0 {
        Class::Empty
    } else if digit == 1 {
        Class::Treasure
    } else if digit == 2 {
        Class::Wumpus
    } else {
        Class::Pit
    }
}

/// The class that a digit stands for on a candidate cell for a treasure.
pub open spec fn candidate_choice(digit: usize) -> Class {
    if digit == 0 {
        Class::Empty
    } else {
        Class::Treasure
    }
}

/// The layout that two lists of digits stand for: first the classes of the
/// frontier cells, then those of the candidate cells.
pub open spec fn layout(frontier_digits: Seq<usize>, candidate_digits: Seq<usize>) -> Seq<Class> {
    Seq::new(
        frontier_digits.len() + candidate_digits.len(),
        |i: int|
            if i < frontier_digits.len() {
                frontier_choice(frontier_digits[i])
            } else {
                candidate_choice(candidate_digits[i - frontier_digits.len()])
            },
    )
}

/// The layouts that share the choices `candidate_digits`, one for each of
/// `frontier_products`, in order.
pub open spec fn layouts_with(
    frontier_products: Seq<Seq<usize>>,
    candidate_digits: Seq<usize>,
) -> Seq<Seq<Class>> {
    Seq::new(frontier_products.len(), |b: int| layout(frontier_products[b], candidate_digits))
}

/// The layouts for every pairing of `candidate_products` with
/// `frontier_products`; the frontier choices change fastest.
pub open spec fn all_layouts(
    frontier_products: Seq<Seq<usize>>,
    candidate_products: Seq<Seq<usize>>,
) -> Seq<Seq<Class>>
    decreases candidate_products.len(),
{
    if candidate_products.len() == 0 {
        Seq::empty()
    } else {
        all_layouts(frontier_products, candidate_products.drop_last()) + layouts_with(
            frontier_products,
            candidate_products.last(),
        )
    }
}

/// Every layout for `f` frontier cells and `c` candidate cells.
pub open spec fn hypotheses(f: nat, c: nat) -> Seq<Seq<Class>> {
    all_layouts(digit_power(4, f), digit_power(2, c))
}

/// Whether `layout`, written onto `map` at `locations`, is valid.
pub open spec fn fits(
    map: WorldMapView,
    blacklist: Map<Coordinate, Class>,
    locations: Seq<Coordinate>,
    layout: Seq<Class>,
) -> bool {
    valid(map.apply_classes(locations, layout), blacklist)
}

/// Whether `layout` is counted: it must fit, and where a position and a
/// class are selected it must have that class at that position.
pub open spec fn hit(
    map: WorldMapView,
    blacklist: Map<Coordinate, Class>,
    locations: Seq<Coordinate>,
    layout: Seq<Class>,
    selected: Option<(int, Class)>,
) -> bool {
    fits(map, blacklist, locations, layout) && match selected {
        Some((i, class)) => layout[i] == class,
        None => true,
    }
}

/// How many of `layouts` are counted.
pub open spec fn tally(
    map: WorldMapView,
    blacklist: Map<Coordinate, Class>,
    locations: Seq<Coordinate>,
    layouts: Seq<Seq<Class>>,
    selected: Option<(int, Class)>,
) -> nat
    decreases layouts.len(),
{
    if layouts.len() == 0 {
        0
    } else {
        tally(map, blacklist, locations, layouts.drop_last(), selected) + (if hit(
            map,
            blacklist,
            locations,
            layouts.last(),
            selected,
        ) {
            1nat
        } else {
            0nat
        })
    }
}

/// Whether position `i` is the last among the first `n` at which its cell
/// occurs in `locations`.
pub open spec fn is_last_among(locations: Seq<Coordinate>, i: int, n: int) -> bool {
    &&& 0 <= i < n
    &&& forall|j: int| i < j < n ==> locations[j] != locations[i]
}

/// Whether position `i` is the last at which its cell occurs in `locations`.
pub open spec fn is_last_occurrence(locations: Seq<Coordinate>, i: int) -> bool {
    is_last_among(locations, i, locations.len() as int)
}

/// A tally with a selection is no more than the tally without, which is no
/// more than the number of layouts.
pub proof fn lemma_tally_bounds(
    map: WorldMapView,
    blacklist: Map<Coordinate, Class>,
    locations: Seq<Coordinate>,
    layouts: Seq<Seq<Class>>,
    selected: Option<(int, Class)>,
)
    ensures
        tally(map, blacklist, locations, layouts, selected) <= tally(
            map,
            blacklist,
            locations,
            layouts,
            None,
        ) <= layouts.len(),
    decreases layouts.len(),
{
    if layouts.len() > 0 {
        lemma_tally_bounds(map, blacklist, locations, layouts.drop_last(), selected);
    }
}

/// Every list of `digit_power(arity, n)` has `n` digits, all below `arity`.
pub open spec fn digits_ok(digits: Seq<usize>, arity: nat, n: nat) -> bool {
    &&& digits.len() == n
    &&& forall|j: int| 0 <= j < n ==> #[trigger] digits[j] < arity
}

proof fn lemma_extend_each(prefixes: Seq<Seq<usize>>, arity: nat, n: nat)
    requires
        arity <= usize::MAX,
        forall|k: int| 0 <= k < prefixes.len() ==> digits_ok(#[trigger] prefixes[k], arity, n),
    ensures
        extend_each(prefixes, digits_below(arity)).len() == prefixes.len() * arity,
        forall|k: int|
            0 <= k < extend_each(prefixes, digits_below(arity)).len() ==> digits_ok(
                #[trigger] extend_each(prefixes, digits_below(arity))[k],
                arity,
                n + 1,
            ),
    decreases prefixes.len(),
{
    if prefixes.len() > 0 {
        let front = prefixes.drop_last();
        lemma_extend_each(front, arity, n);
        assert(digits_ok(prefixes[prefixes.len() - 1], arity, n));
        assert((prefixes.len() - 1) * arity + arity == prefixes.len() * arity)
            by (nonlinear_arith);
        assert forall|k: int|
            0 <= k < extend_each(prefixes, digits_below(arity)).len() implies digits_ok(
            #[trigger] extend_each(prefixes, digits_below(arity))[k],
            arity,
            n + 1,
        ) by {
            let head = extend_each(front, digits_below(arity));
            if k < head.len() {
                assert(extend_each(prefixes, digits_below(arity))[k] == head[k]);
            } else {
                let d = k - head.len();
                assert(extend_each(prefixes, digits_below(arity))[k] == prefixes.last().push(
                    digits_below(arity)[d],
                ));
            }
        }
    } else {
        assert(prefixes.len() * arity == 0) by (nonlinear_arith)
            requires
                prefixes.len() == 0,
        ;
    }
}

/// The lists of `n + 1` digits are the lists of `n` digits, each continued by
/// every digit.
pub proof fn lemma_digit_power_unfold(arity: nat, n: nat)
    ensures
        digit_power(arity, n + 1) == extend_each(digit_power(arity, n), digits_below(arity)),
        digit_power(arity, 0) == seq![Seq::<usize>::empty()],
{
    let more = Seq::new(n + 1, |i: int| digits_below(arity));
    let fewer = Seq::new(n, |i: int| digits_below(arity));
    assert(more.drop_last() =~= fewer);
    assert(more.last() == digits_below(arity));
}

/// The lists of `digit_power(arity, n)` have `n` digits, all below `arity`.
pub proof fn lemma_digit_power(arity: nat, n: nat)
    requires
        arity <= usize::MAX,
    ensures
        forall|k: int|
            0 <= k < digit_power(arity, n).len() ==> digits_ok(
                #[trigger] digit_power(arity, n)[k],
                arity,
                n,
            ),
        n > 0 ==> digit_power(arity, n).len() == digit_power(arity, (n - 1) as nat).len() * arity,
        n == 0 ==> digit_power(arity, n).len() == 1,
    decreases n,
{
    if n > 0 {
        lemma_digit_power(arity, (n - 1) as nat);
        lemma_digit_power_unfold(arity, (n - 1) as nat);
        lemma_extend_each(digit_power(arity, (n - 1) as nat), arity, (n - 1) as nat);
    } else {
        lemma_digit_power_unfold(arity, 0);
    }
}

/// There are `2^n` lists of `n` binary digits and `4^n` lists of `n` digits
/// below four.
pub proof fn lemma_digit_power_len(n: nat)
    ensures
        digit_power(2, n).len() == pow2(n),
        digit_power(4, n).len() == pow2(2 * n),
    decreases n,
{
    lemma2_to64();
    lemma_digit_power(2, n);
    lemma_digit_power(4, n);
    if n > 0 {
        lemma_digit_power_len((n - 1) as nat);
        lemma_pow2_unfold(n);
        lemma_pow2_unfold(2 * n);
        lemma_pow2_unfold((2 * n - 1) as nat);
    }
}

/// The number of layouts for `f` frontier cells and `c` candidate cells.
pub proof fn lemma_all_layouts_len(
    frontier_products: Seq<Seq<usize>>,
    candidate_products: Seq<Seq<usize>>,
)
    ensures
        all_layouts(frontier_products, candidate_products).len() == candidate_products.len()
            * frontier_products.len(),
    decreases candidate_products.len(),
{
    if candidate_products.len() > 0 {
        lemma_all_layouts_len(frontier_products, candidate_products.drop_last());
        assert((candidate_products.len() - 1) * frontier_products.len() + frontier_products.len()
            == candidate_products.len() * frontier_products.len()) by (nonlinear_arith);
    } else {
        assert(candidate_products.len() * frontier_products.len() == 0) by (nonlinear_arith)
            requires
                candidate_products.len() == 0,
        ;
    }
}

/// With at most thirty binary choices in all there are at most `2^30`
/// layouts.
pub proof fn lemma_hypotheses_len(f: nat, c: nat)
    requires
        2 * f + c <= 30,
    ensures
        hypotheses(f, c).len() == pow2(c) * pow2(2 * f),
        hypotheses(f, c).len() == pow2(2 * f + c),
        hypotheses(f, c).len() <= 0x40000000,
{
    lemma_digit_power_len(f);
    lemma_digit_power_len(c);
    lemma_all_layouts_len(digit_power(4, f), digit_power(2, c));
    lemma_pow2_adds(c, 2 * f);
    lemma2_to64();
}

/// No beginning of a list of layouts counts more than the whole list.
pub proof fn lemma_tally_take(
    map: WorldMapView,
    blacklist: Map<Coordinate, Class>,
    locations: Seq<Coordinate>,
    layouts: Seq<Seq<Class>>,
    k: int,
    selected: Option<(int, Class)>,
)
    requires
        0 <= k <= layouts.len(),
    ensures
        tally(map, blacklist, locations, layouts.take(k), selected) <= tally(
            map,
            blacklist,
            locations,
            layouts,
            selected,
        ),
    decreases layouts.len(),
{
    if k == layouts.len() {
        assert(layouts.take(k) =~= layouts);
    } else {
        assert(layouts.drop_last().take(k) =~= layouts.take(k));
        lemma_tally_take(map, blacklist, locations, layouts.drop_last(), k, selected);
    }
}

/// The layouts for the first `a` candidate choices are the beginning of the
/// layouts for all of them.
pub proof fn lemma_all_layouts_take(
    frontier_products: Seq<Seq<usize>>,
    candidate_products: Seq<Seq<usize>>,
    a: int,
)
    requires
        0 <= a <= candidate_products.len(),
    ensures
        a * frontier_products.len() <= all_layouts(frontier_products, candidate_products).len(),
        all_layouts(frontier_products, candidate_products.take(a)) == all_layouts(
            frontier_products,
            candidate_products,
        ).take(a * frontier_products.len()),
    decreases candidate_products.len(),
{
    let all = all_layouts(frontier_products, candidate_products);
    lemma_all_layouts_len(frontier_products, candidate_products);
    if a == candidate_products.len() {
        assert(candidate_products.take(a) =~= candidate_products);
        assert(all.take(all.len() as int) =~= all);
    } else {
        let front = candidate_products.drop_last();
        assert(front.take(a) =~= candidate_products.take(a));
        lemma_all_layouts_take(frontier_products, front, a);
        lemma_all_layouts_len(frontier_products, front);
        assert(a * frontier_products.len() <= front.len() * frontier_products.len())
            by (nonlinear_arith)
            requires
                0 <= a <= front.len(),
        ;
        assert(front.len() * frontier_products.len() <= candidate_products.len()
            * frontier_products.len()) by (nonlinear_arith)
            requires
                front.len() <= candidate_products.len(),
        ;
        assert(all.take(a * frontier_products.len()) =~= all_layouts(
            frontier_products,
            front,
        ).take(a * frontier_products.len()));
    }
}

/// With at most thirty binary choices in all the total fits the machine
/// integer that holds it, whatever the map.
pub proof fn lemma_small_enumeration_fits(
    map: WorldMapView,
    blacklist: Map<Coordinate, Class>,
    locations: Seq<Coordinate>,
    f: nat,
    c: nat,
)
    requires
        2 * f + c <= 30,
    ensures
        tally(map, blacklist, locations, hypotheses(f, c), None) <= i32::MAX,
{
    lemma_hypotheses_len(f, c);
    lemma_tally_bounds(map, blacklist, locations, hypotheses(f, c), None);
}

/// Two maps agree off `locations` when they differ at most in what the cells
/// of `locations` hold.
pub open spec fn agree_off(a: WorldMapView, b: WorldMapView, locations: Seq<Coordinate>) -> bool {
    &&& a.size == b.size
    &&& a.glitters == b.glitters
    &&& a.stenches == b.stenches
    &&& a.breezes == b.breezes
    &&& a.discovered == b.discovered
    &&& forall|cell: Coordinate|
        !locations.contains(cell) ==> {
            &&& a.treasures.contains(cell) == b.treasures.contains(cell)
            &&& a.wumpuses.contains(cell) == b.wumpuses.contains(cell)
            &&& a.pits.contains(cell) == b.pits.contains(cell)
        }
}

proof fn lemma_assign_first(
    a: WorldMapView,
    b: WorldMapView,
    locations: Seq<Coordinate>,
    classes: Seq<Class>,
    n: nat,
)
    requires
        agree_off(a, b, locations),
        n <= locations.len(),
        n <= classes.len(),
    ensures
        agree_off(a.assign_first(locations, classes, n), b, locations),
        agree_off(
            a.assign_first(locations, classes, n),
            b.assign_first(locations, classes, n),
            locations,
        ),
        forall|i: int|
            0 <= i < n ==> {
                let cell = #[trigger] locations[i];
                let ra = a.assign_first(locations, classes, n);
                let rb = b.assign_first(locations, classes, n);
                &&& ra.treasures.contains(cell) == rb.treasures.contains(cell)
                &&& ra.wumpuses.contains(cell) == rb.wumpuses.contains(cell)
                &&& ra.pits.contains(cell) == rb.pits.contains(cell)
            },
    decreases n,
{
    if n > 0 {
        lemma_assign_first(a, b, locations, classes, (n - 1) as nat);
        let ra = a.assign_first(locations, classes, n);
        let rb = b.assign_first(locations, classes, n);
        assert forall|i: int| 0 <= i < n implies {
            let cell = #[trigger] locations[i];
            &&& ra.treasures.contains(cell) == rb.treasures.contains(cell)
            &&& ra.wumpuses.contains(cell) == rb.wumpuses.contains(cell)
            &&& ra.pits.contains(cell) == rb.pits.contains(cell)
        } by {
        }
    }
}

/// Writing a layout for all of `locations` onto two maps that agree off
/// `locations` gives the same map, and that map still agrees with both off
/// `locations`.
pub proof fn lemma_apply_classes_overwrites(
    a: WorldMapView,
    b: WorldMapView,
    locations: Seq<Coordinate>,
    classes: Seq<Class>,
)
    requires
        agree_off(a, b, locations),
        locations.len() == classes.len(),
    ensures
        a.apply_classes(locations, classes) == b.apply_classes(locations, classes),
        agree_off(a.apply_classes(locations, classes), b, locations),
{
    let n = locations.len();
    lemma_assign_first(a, b, locations, classes, n);
    let ra = a.apply_classes(locations, classes);
    let rb = b.apply_classes(locations, classes);
    assert forall|cell: Coordinate|
        ra.treasures.contains(cell) == rb.treasures.contains(cell) && ra.wumpuses.contains(cell)
            == rb.wumpuses.contains(cell) && ra.pits.contains(cell) == rb.pits.contains(cell) by {
        if locations.contains(cell) {
            let i = choose|i: int| 0 <= i < locations.len() && locations[i] == cell;
            assert(locations[i] == cell);
        }
    }
    assert(ra.treasures =~= rb.treasures);
    assert(ra.wumpuses =~= rb.wumpuses);
    assert(ra.pits =~= rb.pits);
    assert(ra =~= rb);
}

/// The four classes a frontier cell may hold, by digit.
fn frontier_class(digit: usize) -> (r: Class)
    ensures
        r == frontier_choice(digit),
{
    if digit == 0 {
        Class::Empty
    } else if digit == 1 {
        Class::Treasure
    } else if digit == 2 {
        Class::Wumpus
    } else {
        Class::Pit
    }
}

/// The two classes a candidate cell may hold, by digit.
fn candidate_class(digit: usize) -> (r: Class)
    ensures
        r == candidate_choice(digit),
{
    if digit == 0 {
        Class::Empty
    } else {
        Class::Treasure
    }
}

/// The layout that two lists of digits stand for.
fn build_layout(frontier_digits: &Vec<usize>, candidate_digits: &Vec<usize>) -> (r: Vec<Class>)
    requires
        frontier_digits@.len() + candidate_digits@.len() <= usize::MAX,
    ensures
        r@ == layout(frontier_digits@, candidate_digits@),
{
    let mut classes: Vec<Class> = Vec::new();
    let mut i: usize = 0;
    while i < frontier_digits.len()
        invariant
            i <= frontier_digits.len(),
            classes@.len() == i,
            forall|k: int|
                0 <= k < i ==> #[trigger] classes@[k] == frontier_choice(frontier_digits@[k]),
        decreases frontier_digits.len() - i,
    {
        classes.push(frontier_class(frontier_digits[i]));
        i += 1;
    }
    let mut j: usize = 0;
    while j < candidate_digits.len()
        invariant
            j <= candidate_digits.len(),
            classes@.len() == frontier_digits@.len() + j,
            forall|k: int|
                0 <= k < frontier_digits@.len() ==> #[trigger] classes@[k] == frontier_choice(
                    frontier_digits@[k],
                ),
            forall|k: int|
                0 <= k < j ==> #[trigger] classes@[frontier_digits@.len() + k] == candidate_choice(
                    candidate_digits@[k],
                ),
        decreases candidate_digits.len() - j,
    {
        classes.push(candidate_class(candidate_digits[j]));
        j += 1;
    }
    proof {
        let expected = layout(frontier_digits@, candidate_digits@);
        assert forall|k: int| 0 <= k < expected.len() implies classes@[k] == expected[k] by {
            if k >= frontier_digits@.len() {
                let k2 = k - frontier_digits@.len();
                assert(classes@[frontier_digits@.len() + k2] == candidate_choice(
                    candidate_digits@[k2],
                ));
            }
        }
    }
    classes
}

/// The tallies of one cell after `layout` was looked at.
fn count_class(tallies: &mut Vec<ClassField<i32>>, i: usize, class: Class)
    requires
        i < old(tallies)@.len(),
        old(tallies)@[i as int].slot(class) < i32::MAX,
    ensures
        final(tallies)@.len() == old(tallies)@.len(),
        forall|k: int|
            0 <= k < old(tallies)@.len() && k != i ==> final(tallies)@[k] == old(tallies)@[k],
        forall|cl: Class|
            #[trigger] final(tallies)@[i as int].slot(cl) == old(tallies)@[i as int].slot(cl) + (
            if cl == class {
                1int
            } else {
                0int
            }),
{
    let mut field = tallies[i];
    match class {
        Class::Empty => {
            field.empty += 1;
        },
        Class::Treasure => {
            field.treasure += 1;
        },
        Class::Wumpus => {
            field.wumpus += 1;
        },
        Class::Pit => {
            field.pit += 1;
        },
    }
    tallies.set(i, field);
}

/// The counters hold the tallies of the layouts looked at so far.
spec fn counted(
    map: WorldMapView,
    blacklist: Map<Coordinate, Class>,
    locations: Seq<Coordinate>,
    seen: Seq<Seq<Class>>,
    total: i32,
    tallies: Seq<ClassField<i32>>,
) -> bool {
    &&& total == tally(map, blacklist, locations, seen, None)
    &&& tallies.len() == locations.len()
    &&& forall|i: int, class: Class|
        0 <= i < locations.len() ==> #[trigger] tallies[i].slot(class) == tally(
            map,
            blacklist,
            locations,
            seen,
            Some((i, class)),
        )
}

/// Looks at one layout: writes it onto the scratch map, checks it and counts
/// it if it is valid. Says whether the total still fits its machine integer;
/// where it does not, nothing is counted.
fn examine(
    classes: &Vec<Class>,
    locations: &Vec<Coordinate>,
    map: &WorldMap,
    blacklist: &CoordMap<Class>,
    scratch: &mut WorldMap,
    total: &mut i32,
    tallies: &mut Vec<ClassField<i32>>,
    Ghost(seen): Ghost<Seq<Seq<Class>>>,
) -> (fitting: bool)
    requires
        map.wf(),
        blacklist.wf(),
        old(scratch).wf(),
        agree_off(old(scratch)@, map@, locations@),
        classes@.len() == locations@.len(),
        counted(map@, blacklist@, locations@, seen, *old(total), old(tallies)@),
    ensures
        final(scratch).wf(),
        agree_off(final(scratch)@, map@, locations@),
        fitting == (tally(map@, blacklist@, locations@, seen.push(classes@), None) <= i32::MAX),
        fitting ==> counted(
            map@,
            blacklist@,
            locations@,
            seen.push(classes@),
            *final(total),
            final(tallies)@,
        ),
{
    proof {
        lemma_apply_classes_overwrites(scratch@, map@, locations@, classes@);
        assert(seen.push(classes@).drop_last() =~= seen);
    }
    scratch.apply_classes(locations.as_slice(), classes.as_slice());
    if is_map_valid(scratch, blacklist) {
        if *total == i32::MAX {
            return false;
        }
        *total = *total + 1;
        let mut i: usize = 0;
        while i < locations.len()
            invariant
                i <= locations.len(),
                classes@.len() == locations@.len(),
                tallies@.len() == locations@.len(),
                seen.push(classes@).drop_last() == seen,
                tally(map@, blacklist@, locations@, seen.push(classes@), None) <= i32::MAX,
                fits(map@, blacklist@, locations@, classes@),
                forall|k: int, class: Class|
                    0 <= k < i ==> #[trigger] tallies@[k].slot(class) == tally(
                        map@,
                        blacklist@,
                        locations@,
                        seen,
                        Some((k, class)),
                    ) + (if classes@[k] == class {
                        1int
                    } else {
                        0int
                    }),
                forall|k: int, class: Class|
                    i <= k < locations@.len() ==> #[trigger] tallies@[k].slot(class) == tally(
                        map@,
                        blacklist@,
                        locations@,
                        seen,
                        Some((k, class)),
                    ),
            decreases locations.len() - i,
        {
            proof {
                lemma_tally_bounds(
                    map@,
                    blacklist@,
                    locations@,
                    seen.push(classes@),
                    Some((i as int, classes@[i as int])),
                );
            }
            count_class(tallies, i, classes[i]);
            i += 1;
        }
    }
    true
}

/// The list of the cells of `first` followed by those of `second`.
fn concat(first: &[Coordinate], second: &[Coordinate]) -> (r: Vec<Coordinate>)
    ensures
        r@ == first@ + second@,
{
    let mut all: Vec<Coordinate> = Vec::new();
    let mut i: usize = 0;
    while i < first.len()
        invariant
            i <= first.len(),
            all@ == first@.take(i as int),
        decreases first.len() - i,
    {
        all.push(first[i]);
        i += 1;
    }
    let mut j: usize = 0;
    while j < second.len()
        invariant
            j <= second.len(),
            all@ == first@ + second@.take(j as int),
        decreases second.len() - j,
    {
        all.push(second[j]);
        j += 1;
    }
    all
}

/// A tally of zeros for each of `n` cells.
fn zero_tallies(n: usize) -> (r: Vec<ClassField<i32>>)
    ensures
        r@.len() == n,
        forall|i: int, class: Class| 0 <= i < n ==> #[trigger] r@[i].slot(class) == 0,
{
    let mut tallies: Vec<ClassField<i32>> = Vec::new();
    let mut i: usize = 0;
    while i < n
        invariant
            i <= n,
            tallies@.len() == i,
            forall|k: int, class: Class| 0 <= k < i ==> #[trigger] tallies@[k].slot(class) == 0,
        decreases n - i,
    {
        tallies.push(ClassField::<i32>::zero());
        i += 1;
    }
    tallies
}

/// Files each tally under its cell. Where a cell occurs more than once, the
/// tally of its last occurrence stays.
fn collect_tallies(locations: &Vec<Coordinate>, tallies: &Vec<ClassField<i32>>) -> (r: CoordMap<
    ClassField<i32>,
>)
    requires
        tallies@.len() == locations@.len(),
    ensures
        r.wf(),
        r@.dom() == locations@.to_set(),
        forall|i: int|
            is_last_occurrence(locations@, i) ==> r@[#[trigger] locations@[i]] == tallies@[i],
{
    let mut counts: CoordMap<ClassField<i32>> = CoordMap::new();
    let mut i: usize = 0;
    while i < locations.len()
        invariant
            i <= locations.len(),
            tallies@.len() == locations@.len(),
            counts.wf(),
            counts@.dom() == locations@.take(i as int).to_set(),
            forall|k: int| #[trigger]
                is_last_among(locations@, k, i as int) ==> counts@[locations@[k]] == tallies@[k],
        decreases locations.len() - i,
    {
        proof {
            let before = locations@.take(i as int);
            assert(locations@.take(i + 1) =~= before.push(locations@[i as int]));
            lemma_push_to_set(before, locations@[i as int]);
        }
        counts.insert(locations[i], tallies[i]);
        proof {
            assert forall|k: int| #[trigger]
                is_last_among(locations@, k, i + 1) implies counts@[locations@[k]] == tallies@[k] by {
                if k < i {
                    assert(is_last_among(locations@, k, i as int));
                }
            }
        }
        i += 1;
    }
    assert(locations@.take(locations.len() as int) =~= locations@);
    counts
}

/// Counts the layouts of the unknown cells that are valid on `map` with
/// respect to `blacklist`: how many there are in all and, for each unknown
/// cell and each class, how many give the cell that class.
pub fn calculate_map_possibilities(
    frontier: &[Coordinate],
    possible_treasures: &[Coordinate],
    map: &WorldMap,
    blacklist: &CoordMap<Class>,
) -> (r: (i32, CoordMap<ClassField<i32>>))
    requires
        map.wf(),
        blacklist.wf(),
        tally(
            map@,
            blacklist@,
            frontier@ + possible_treasures@,
            hypotheses(frontier@.len(), possible_treasures@.len()),
            None,
        ) <= i32::MAX,
    ensures
        r.1.wf(),
        r.0 == tally(
            map@,
            blacklist@,
            frontier@ + possible_treasures@,
            hypotheses(frontier@.len(), possible_treasures@.len()),
            None,
        ),
        r.1@.dom() == (frontier@ + possible_treasures@).to_set(),
        forall|i: int, class: Class|
            is_last_occurrence(frontier@ + possible_treasures@, i) ==> #[trigger] r.1@[(frontier@
                + possible_treasures@)[i]].slot(class) == tally(
                map@,
                blacklist@,
                frontier@ + possible_treasures@,
                hypotheses(frontier@.len(), possible_treasures@.len()),
                Some((i, class)),
            ),
{
    try_calculate_map_possibilities(frontier, possible_treasures, map, blacklist).unwrap()
}

/// Counts as `calculate_map_possibilities` does, for every input: where more
/// layouts are valid than the machine integer of the total can hold, there
/// is no count.
pub fn try_calculate_map_possibilities(
    frontier: &[Coordinate],
    possible_treasures: &[Coordinate],
    map: &WorldMap,
    blacklist: &CoordMap<Class>,
) -> (r: Option<(i32, CoordMap<ClassField<i32>>)>)
    requires
        map.wf(),
        blacklist.wf(),
    ensures
        r.is_some() <==> tally(
            map@,
            blacklist@,
            frontier@ + possible_treasures@,
            hypotheses(frontier@.len(), possible_treasures@.len()),
            None,
        ) <= i32::MAX,
        r matches Some(counts) ==> {
            &&& counts.1.wf()
            &&& counts.0 == tally(
                map@,
                blacklist@,
                frontier@ + possible_treasures@,
                hypotheses(frontier@.len(), possible_treasures@.len()),
                None,
            )
            &&& counts.1@.dom() == (frontier@ + possible_treasures@).to_set()
            &&& forall|i: int, class: Class|
                is_last_occurrence(frontier@ + possible_treasures@, i)
                    ==> #[trigger] counts.1@[(frontier@ + possible_treasures@)[i]].slot(class)
                    == tally(
                    map@,
                    blacklist@,
                    frontier@ + possible_treasures@,
                    hypotheses(frontier@.len(), possible_treasures@.len()),
                    Some((i, class)),
                )
        },
{
    let f = frontier.len();
    let c = possible_treasures.len();
    let locations = concat(frontier, possible_treasures);
    let length = locations.len();
    let mut tallies = zero_tallies(length);
    let mut scratch = map.clone();
    let mut total: i32 = 0;
    let ghost all_f = digit_power(4, f as nat);
    let ghost all_t = digit_power(2, c as nat);
    let ghost all = all_layouts(all_f, all_t);
    let ghost mut seen: Seq<Seq<Class>> = Seq::empty();
    let ghost mut a: int = 0;
    proof {
        lemma_digit_power(4, f as nat);
        lemma_digit_power(2, c as nat);
    }
    let mut candidates = digit_products(2, c);
    let mut outer_done = false;
    while !outer_done
        invariant
            map.wf(),
            blacklist.wf(),
            scratch.wf(),
            f == frontier@.len(),
            c == possible_treasures@.len(),
            length == f + c,
            locations@ == frontier@ + possible_treasures@,
            all_f == digit_power(4, f as nat),
            all_t == digit_power(2, c as nat),
            all == all_layouts(all_f, all_t),
            forall|k: int| 0 <= k < all_f.len() ==> digits_ok(#[trigger] all_f[k], 4, f as nat),
            forall|k: int| 0 <= k < all_t.len() ==> digits_ok(#[trigger] all_t[k], 2, c as nat),
            0 <= a <= all_t.len(),
            outer_done ==> a == all_t.len(),
            remaining(candidates) == all_t.skip(a),
            seen == all_layouts(all_f, all_t.take(a)),
            agree_off(scratch@, map@, locations@),
            counted(map@, blacklist@, locations@, seen, total, tallies@),
        decreases
                all_t.len() - a + (if outer_done {
                    0int
                } else {
                    1int
                }),
    {
        match next_product(&mut candidates) {
            None => {
                outer_done = true;
            },
            Some(candidate_digits) => {
                let ghost row = layouts_with(all_f, candidate_digits@);
                let ghost base = seen;
                let ghost mut b: int = 0;
                let mut frontiers = digit_products(4, f);
                let mut inner_done = false;
                proof {
                    lemma_all_layouts_len(all_f, all_t.take(a));
                    lemma_all_layouts_take(all_f, all_t, a + 1);
                    let next = all_t.take(a + 1);
                    assert(next.drop_last() =~= all_t.take(a));
                    assert(next.last() == all_t[a]);
                    assert((a + 1) * all_f.len() == a * all_f.len() + all_f.len())
                        by (nonlinear_arith);
                }
                while !inner_done
                    invariant
                        map.wf(),
                        blacklist.wf(),
                        scratch.wf(),
                        f == frontier@.len(),
                        c == possible_treasures@.len(),
                        locations@ == frontier@ + possible_treasures@,
                        locations@.len() == f + c,
                        length == f + c,
                        all_f == digit_power(4, f as nat),
                        all_t == digit_power(2, c as nat),
                        all == all_layouts(all_f, all_t),
                        forall|k: int|
                            0 <= k < all_f.len() ==> digits_ok(#[trigger] all_f[k], 4, f as nat),
                        digits_ok(candidate_digits@, 2, c as nat),
                        row == layouts_with(all_f, candidate_digits@),
                        base.len() == a * all_f.len(),
                        0 <= a < all_t.len(),
                        a * all_f.len() + all_f.len() <= all.len(),
                        base + row == all.take(a * all_f.len() + all_f.len()),
                        0 <= b <= all_f.len(),
                        inner_done ==> b == all_f.len(),
                        remaining(frontiers) == all_f.skip(b),
                        seen == base + row.take(b),
                        agree_off(scratch@, map@, locations@),
                        counted(map@, blacklist@, locations@, seen, total, tallies@),
                    decreases
                            all_f.len() - b + (if inner_done {
                                0int
                            } else {
                                1int
                            }),
                {
                    match next_product(&mut frontiers) {
                        None => {
                            inner_done = true;
                        },
                        Some(frontier_digits) => {
                            let classes = build_layout(&frontier_digits, &candidate_digits);
                            proof {
                                let k = a * all_f.len() + b;
                                assert(classes@ == row[b]);
                                assert(seen.push(classes@) =~= (base + row).take(k + 1));
                                assert((base + row).take(k + 1) =~= all.take(k + 1));
                                lemma_tally_take(map@, blacklist@, locations@, all, k + 1, None);
                            }
                            let fitting = examine(
                                &classes,
                                &locations,
                                map,
                                blacklist,
                                &mut scratch,
                                &mut total,
                                &mut tallies,
                                Ghost(seen),
                            );
                            if !fitting {
                                return None;
                            }
                            proof {
                                seen = seen.push(classes@);
                                b = b + 1;
                            }
                        },
                    }
                }
                proof {
                    let next = all_t.take(a + 1);
                    assert(next.drop_last() =~= all_t.take(a));
                    a = a + 1;
                }
            },
        }
    }
    assert(all_t.take(a) =~= all_t);
    let counts = collect_tallies(&locations, &tallies);
    Some((total, counts))
}

/// With no unknown cell there is one layout to look at, the map as it is:
/// the total is one if the map is valid and zero if it is not.
pub proof fn lemma_nothing_unknown(
    map: WorldMapView,
    blacklist: Map<Coordinate, Class>,
    frontier: Seq<Coordinate>,
    possible_treasures: Seq<Coordinate>,
)
    requires
        frontier.len() == 0,
        possible_treasures.len() == 0,
    ensures
        hypotheses(frontier.len(), possible_treasures.len()) == seq![Seq::<Class>::empty()],
        map.apply_classes(frontier + possible_treasures, Seq::empty()) == map,
        (frontier + possible_treasures).to_set() == Set::<Coordinate>::empty(),
        tally(
            map,
            blacklist,
            frontier + possible_treasures,
            hypotheses(frontier.len(), possible_treasures.len()),
            None,
        ) == (if valid(map, blacklist) {
            1nat
        } else {
            0nat
        }),
{
    let locations = frontier + possible_treasures;
    let one = seq![Seq::<usize>::empty()];
    assert(all_layouts(one, one.drop_last()) == Seq::<Seq<Class>>::empty());
    assert(layout(Seq::empty(), Seq::empty()) =~= Seq::<Class>::empty());
    assert(layouts_with(one, one.last()) =~= seq![Seq::<Class>::empty()]);
    let only = seq![Seq::<Class>::empty()];
    assert(tally(map, blacklist, locations, only.drop_last(), None) == 0);
}

/// Every layout gives each cell exactly one class, so the four tallies of a
/// cell add up to the total.
pub proof fn lemma_tallies_add_up(
    map: WorldMapView,
    blacklist: Map<Coordinate, Class>,
    locations: Seq<Coordinate>,
    layouts: Seq<Seq<Class>>,
    i: int,
)
    ensures
        tally(map, blacklist, locations, layouts, Some((i, Class::Empty))) + tally(
            map,
            blacklist,
            locations,
            layouts,
            Some((i, Class::Treasure)),
        ) + tally(map, blacklist, locations, layouts, Some((i, Class::Wumpus))) + tally(
            map,
            blacklist,
            locations,
            layouts,
            Some((i, Class::Pit)),
        ) == tally(map, blacklist, locations, layouts, None),
    decreases layouts.len(),
{
    if layouts.len() > 0 {
        lemma_tallies_add_up(map, blacklist, locations, layouts.drop_last(), i);
    }
}

} // verus!
