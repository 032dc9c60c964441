//! The shape in which a found path is handed out.
use vstd::prelude::*;
use crate::coord::{Coord, TurfCoords};
use crate::grid::{
    agrees, legal_cardinal, legal_detour, legal_step, routes, Cells, DiagonalRoutes, GridRules,
    UnknownTurf, World,
};
use crate::grid_laws::law_routes_decided;

verus! {

/// What becomes of the diagonal steps of a path.
#[derive(Clone, Copy, Debug, PartialEq, Eq, Structural)]
pub enum DiagonalHandling {
    /// Every diagonal stays.
    DoNothing,
    /// Every diagonal becomes two cardinal steps, vertical first where that is open.
    RemoveAll,
    /// A diagonal becomes two cardinal steps only where its vertical-first way is blocked.
    RemoveClunky,
}

/// How one leg of a path is handed out.
pub enum Leg {
    /// As it is.
    Direct,
    /// Over a corner.
    Over(Coord),
    /// Not at all: the leg has to be replaced, and no way around its corner is open.
    Blocked,
}

/// How a diagonal leg from `from` to `to` is handed out.
pub open spec fn diagonal_leg(
    handling: DiagonalHandling,
    routes: DiagonalRoutes,
    from: Coord,
    to: Coord,
) -> Leg {
    match handling {
        DiagonalHandling::DoNothing => Leg::Direct,
        DiagonalHandling::RemoveAll => if routes.north_south_first {
            Leg::Over((from.0, to.1))
        } else if routes.east_west_first {
            Leg::Over((to.0, from.1))
        } else {
            Leg::Blocked
        },
        DiagonalHandling::RemoveClunky => if !routes.north_south_first && routes.east_west_first {
            Leg::Over((to.0, from.1))
        } else {
            Leg::Direct
        },
    }
}

/// The leg that starts at node `i` changes both the column and the row.
pub open spec fn bends(nodes: Seq<Coord>, i: int) -> bool {
    0 <= i < nodes.len() - 1 && nodes[i].0 != nodes[i + 1].0 && nodes[i].1 != nodes[i + 1].1
}

/// The nodes with the corners of the replaced diagonals put in, where `routes[i]` holds the
/// open ways of the leg that starts at node `i`; nothing if a leg is blocked.
pub open spec fn expanded(
    nodes: Seq<Coord>,
    handling: DiagonalHandling,
    routes: Seq<DiagonalRoutes>,
) -> Option<Seq<Coord>>
    decreases nodes.len(),
{
    if nodes.len() <= 1 {
        Some(nodes)
    } else {
        let leg = nodes.len() - 2;
        match expanded(nodes.drop_last(), handling, routes) {
            None => None,
            Some(out) => if bends(nodes, leg) {
                match diagonal_leg(handling, routes[leg], nodes[leg], nodes[leg + 1]) {
                    Leg::Direct => Some(out.push(nodes.last())),
                    Leg::Over(corner) => Some(out.push(corner).push(nodes.last())),
                    Leg::Blocked => None,
                }
            } else {
                Some(out.push(nodes.last()))
            },
        }
    }
}

/// `routes` holds what `routes_for` said of each diagonal among the first `legs` legs.
pub open spec fn told_routes<F: Fn(Coord, Coord) -> DiagonalRoutes>(
    routes_for: F,
    nodes: Seq<Coord>,
    routes: Seq<DiagonalRoutes>,
    legs: int,
) -> bool {
    &&& routes.len() >= legs
    &&& forall|i: int|
        0 <= i < legs && #[trigger] bends(nodes, i) ==> call_ensures(
            routes_for,
            (nodes[i], nodes[i + 1]),
            routes[i],
        )
}

/// `routes` holds what `routes_for` said, without failing, of each diagonal among the first
/// `legs` legs.
pub open spec fn told_routes_checked<F: Fn(Coord, Coord) -> Result<DiagonalRoutes, E>, E>(
    routes_for: F,
    nodes: Seq<Coord>,
    routes: Seq<DiagonalRoutes>,
    legs: int,
) -> bool {
    &&& routes.len() >= legs
    &&& forall|i: int|
        0 <= i < legs && #[trigger] bends(nodes, i) ==> call_ensures(
            routes_for,
            (nodes[i], nodes[i + 1]),
            Ok::<DiagonalRoutes, E>(routes[i]),
        )
}

fn choose_leg(handling: DiagonalHandling, routes: DiagonalRoutes, from: Coord, to: Coord) -> (leg: Leg)
    ensures
        leg == diagonal_leg(handling, routes, from, to),
{
    match handling {
        DiagonalHandling::DoNothing => Leg::Direct,
        DiagonalHandling::RemoveAll => if routes.north_south_first {
            Leg::Over((from.0, to.1))
        } else if routes.east_west_first {
            Leg::Over((to.0, from.1))
        } else {
            Leg::Blocked
        },
        // Only a blocked vertical-first way makes a diagonal clunky. An open one keeps it.
        DiagonalHandling::RemoveClunky => if !routes.north_south_first && routes.east_west_first {
            Leg::Over((to.0, from.1))
        } else {
            Leg::Direct
        },
    }
}

/// Only the routes of the legs of a path matter for its expansion.
proof fn lemma_expanded_ignores_later_routes(
    nodes: Seq<Coord>,
    handling: DiagonalHandling,
    a: Seq<DiagonalRoutes>,
    b: Seq<DiagonalRoutes>,
)
    requires
        forall|i: int| #[trigger] bends(nodes, i) ==> a[i] == b[i],
    ensures
        expanded(nodes, handling, a) == expanded(nodes, handling, b),
    decreases nodes.len(),
{
    if nodes.len() > 1 {
        let shorter = nodes.drop_last();
        assert forall|i: int| #[trigger] bends(shorter, i) implies a[i] == b[i] by {
            assert(bends(nodes, i));
        }
        lemma_expanded_ignores_later_routes(shorter, handling, a, b);
    }
}

/// Puts in the corners of the diagonals that `handling` replaces. Each diagonal is looked
/// up again with `routes_for` before it is handed out, and a failing lookup ends the
/// expansion.
pub fn expand_diagonals_checked<F, E>(
    nodes: &[Coord],
    handling: DiagonalHandling,
    routes_for: F,
) -> (r: Result<Option<Vec<Coord>>, E>)
    where F: Fn(Coord, Coord) -> Result<DiagonalRoutes, E>

    requires
        forall|i: int|
            #[trigger] bends(nodes@, i) ==> call_requires(routes_for, (nodes@[i], nodes@[i + 1])),
    ensures
        match r {
            Ok(Some(out)) => exists|routes: Seq<DiagonalRoutes>|
                #![trigger told_routes_checked(routes_for, nodes@, routes, nodes@.len() - 1)]
                told_routes_checked(routes_for, nodes@, routes, nodes@.len() - 1) && expanded(
                    nodes@,
                    handling,
                    routes,
                ) == Some(out@),
            Ok(None) => exists|routes: Seq<DiagonalRoutes>, legs: int|
                #![trigger told_routes_checked(routes_for, nodes@, routes, legs)]
                0 < legs < nodes@.len() && told_routes_checked(routes_for, nodes@, routes, legs)
                    && expanded(nodes@.take(legs), handling, routes) is Some && expanded(
                    nodes@.take(legs + 1),
                    handling,
                    routes,
                ) is None,
            Err(e) => exists|routes: Seq<DiagonalRoutes>, legs: int|
                #![trigger told_routes_checked(routes_for, nodes@, routes, legs)]
                0 <= legs < nodes@.len() - 1 && told_routes_checked(routes_for, nodes@, routes, legs)
                    && expanded(nodes@.take(legs + 1), handling, routes) is Some && bends(nodes@, legs)
                    && call_ensures(
                    routes_for,
                    (nodes@[legs], nodes@[legs + 1]),
                    Err::<DiagonalRoutes, E>(e),
                ),
        },
{
    let ghost mut told: Seq<DiagonalRoutes> = Seq::empty();
    if nodes.len() == 0 {
        let out: Vec<Coord> = Vec::new();
        proof {
            assert(out@ =~= nodes@);
            assert(told_routes_checked(routes_for, nodes@, told, nodes@.len() - 1));
            assert(expanded(nodes@, handling, told) == Some(out@));
        }
        return Ok(Some(out));
    }
    let mut previous: Coord = nodes[0];
    let mut out: Vec<Coord> = Vec::new();
    out.push(previous);
    let mut i: usize = 1;
    proof {
        assert(nodes@.take(1) =~= out@);
    }
    while i < nodes.len()
        invariant
            1 <= i <= nodes@.len(),
            previous == nodes@[i - 1],
            forall|i: int|
                #[trigger] bends(nodes@, i) ==> call_requires(
                    routes_for,
                    (nodes@[i], nodes@[i + 1]),
                ),
            told.len() == i - 1,
            told_routes_checked(routes_for, nodes@, told, i - 1),
            expanded(nodes@.take(i as int), handling, told) == Some(out@),
        decreases nodes@.len() - i,
    {
        let next: Coord = nodes[i];
        let ghost shorter = nodes@.take(i as int);
        let ghost longer = nodes@.take(i + 1);
        let ghost told_before = told;
        let ghost out_before = out@;
        proof {
            assert(longer.drop_last() =~= shorter);
        }
        if next.0 != previous.0 && next.1 != previous.1 {
            assert(bends(nodes@, i - 1));
            assert(bends(longer, i - 1));
            let routes: DiagonalRoutes = match routes_for(previous, next) {
                Ok(routes) => routes,
                Err(e) => {
                    proof {
                        assert(told_routes_checked(routes_for, nodes@, told, i - 1));
                    }
                    return Err(e);
                },
            };
            proof {
                told = told.push(routes);
                assert forall|j: int| #[trigger] bends(shorter, j) implies told_before[j]
                    == told[j] by {}
                lemma_expanded_ignores_later_routes(shorter, handling, told_before, told);
                assert forall|j: int| 0 <= j < i && #[trigger] bends(nodes@, j) implies call_ensures(
                    routes_for,
                    (nodes@[j], nodes@[j + 1]),
                    Ok::<DiagonalRoutes, E>(told[j]),
                ) by {
                    if j < i - 1 {
                        assert(told[j] == told_before[j]);
                    }
                }
                assert(told_routes_checked(routes_for, nodes@, told, i as int));
            }
            match choose_leg(handling, routes, previous, next) {
                Leg::Direct => {},
                Leg::Over(corner) => {
                    out.push(corner);
                },
                Leg::Blocked => {
                    return Ok(None);
                },
            }
        } else {
            proof {
                let filler = DiagonalRoutes { north_south_first: false, east_west_first: false };
                told = told.push(filler);
                assert forall|j: int| #[trigger] bends(shorter, j) implies told_before[j]
                    == told[j] by {}
                lemma_expanded_ignores_later_routes(shorter, handling, told_before, told);
                assert forall|j: int| 0 <= j < i && #[trigger] bends(nodes@, j) implies call_ensures(
                    routes_for,
                    (nodes@[j], nodes@[j + 1]),
                    Ok::<DiagonalRoutes, E>(told[j]),
                ) by {
                    assert(j < i - 1);
                    assert(told[j] == told_before[j]);
                }
                assert(told_routes_checked(routes_for, nodes@, told, i as int));
                assert(!bends(longer, i - 1));
            }
        }
        out.push(next);
        previous = next;
        i += 1;
    }
    proof {
        assert(nodes@.take(nodes@.len() as int) =~= nodes@);
        assert(told_routes_checked(routes_for, nodes@, told, nodes@.len() - 1));
    }
    Ok(Some(out))
}

spec fn may_ask<F: Fn(Coord, Coord) -> DiagonalRoutes>(routes_for: &F, from: Coord, to: Coord) -> bool {
    call_requires(*routes_for, (from, to))
}

spec fn may_answer<F: Fn(Coord, Coord) -> DiagonalRoutes>(
    routes_for: &F,
    from: Coord,
    to: Coord,
    routes: DiagonalRoutes,
) -> bool {
    call_ensures(*routes_for, (from, to), routes)
}

/// Puts in the corners of the diagonals that `handling` replaces, by what `routes_for` says
/// of each of them.
pub fn expand_diagonals<F>(nodes: &[Coord], handling: DiagonalHandling, routes_for: F) -> (r: Option<
    Vec<Coord>,
>)
    where F: Fn(Coord, Coord) -> DiagonalRoutes

    requires
        forall|i: int|
            #[trigger] bends(nodes@, i) ==> call_requires(routes_for, (nodes@[i], nodes@[i + 1])),
    ensures
        match r {
            Some(out) => exists|routes: Seq<DiagonalRoutes>|
                #![trigger told_routes(routes_for, nodes@, routes, nodes@.len() - 1)]
                told_routes(routes_for, nodes@, routes, nodes@.len() - 1) && expanded(
                    nodes@,
                    handling,
                    routes,
                ) == Some(out@),
            None => exists|routes: Seq<DiagonalRoutes>, legs: int|
                #![trigger told_routes(routes_for, nodes@, routes, legs)]
                0 < legs < nodes@.len() && told_routes(routes_for, nodes@, routes, legs) && expanded(
                    nodes@.take(legs),
                    handling,
                    routes,
                ) is Some && expanded(nodes@.take(legs + 1), handling, routes) is None,
        },
{
    let ask = &routes_for;
    let checked = |from: Coord, to: Coord| -> (r: Result<DiagonalRoutes, ()>)
        requires
            may_ask(ask, from, to),
        ensures
            r matches Ok(routes) && may_answer(ask, from, to, routes),
        { Ok(ask(from, to)) };
    match expand_diagonals_checked(nodes, handling, checked) {
        Ok(out) => {
            proof {
                match &out {
                    Some(v) => {
                        let routes = choose|routes: Seq<DiagonalRoutes>|
                            #![trigger told_routes_checked(checked, nodes@, routes, nodes@.len() - 1)]
                            told_routes_checked(checked, nodes@, routes, nodes@.len() - 1)
                                && expanded(nodes@, handling, routes) == Some(v@);
                        assert(told_routes(routes_for, nodes@, routes, nodes@.len() - 1));
                    },
                    None => {
                        let (routes, legs) = choose|routes: Seq<DiagonalRoutes>, legs: int|
                            #![trigger told_routes_checked(checked, nodes@, routes, legs)]
                            0 < legs < nodes@.len() && told_routes_checked(
                                checked,
                                nodes@,
                                routes,
                                legs,
                            ) && expanded(nodes@.take(legs), handling, routes) is Some && expanded(
                                nodes@.take(legs + 1),
                                handling,
                                routes,
                            ) is None;
                        assert(told_routes(routes_for, nodes@, routes, legs));
                    },
                }
            }
            out
        },
        Err(e) => None,
    }
}

/// The nodes without the first one, where the caller stands on it already.
pub open spec fn without_first(nodes: Seq<Coord>, skip_first: bool) -> Seq<Coord> {
    if skip_first && nodes.len() > 0 {
        nodes.drop_first()
    } else {
        nodes
    }
}

pub fn apply_skip_first(nodes: Vec<Coord>, skip_first: bool) -> (r: Vec<Coord>)
    ensures
        r@ == without_first(nodes@, skip_first),
{
    let mut nodes: Vec<Coord> = nodes;
    if skip_first && nodes.len() > 0 {
        let ghost before = nodes@;
        nodes.remove(0);
        proof {
            assert(nodes@ =~= before.drop_first());
        }
    }
    nodes
}

/// The step from node `i` to the next one is legal.
pub open spec fn legal_leg(rules: GridRules, world: World, nodes: Seq<Coord>, i: int) -> bool {
    legal_step(rules, world, nodes[i], nodes[i + 1])
}

/// The turfs of a path on one z-level.
pub open spec fn on_level(path: Seq<Coord>, z: i16) -> Seq<TurfCoords> {
    path.map_values(|c: Coord| (c.0, c.1, z))
}

pub(crate) fn turfs_on_level(path: &Vec<Coord>, z: i16) -> (turfs: Vec<TurfCoords>)
    ensures
        turfs@ == on_level(path@, z),
{
    let mut turfs: Vec<TurfCoords> = Vec::with_capacity(path.len());
    let mut i: usize = 0;
    while i < path.len()
        invariant
            i <= path@.len(),
            turfs@ == on_level(path@.take(i as int), z),
        decreases path@.len() - i,
    {
        turfs.push((path[i].0, path[i].1, z));
        i += 1;
        assert(turfs@ =~= on_level(path@.take(i as int), z));
    }
    assert(path@.take(path@.len() as int) =~= path@);
    turfs
}

/// Every turf of a path, if every one of them was located; otherwise none: a path is never
/// handed out in part.
pub open spec fn all_or_none<P>(turfs: Seq<Option<P>>) -> Seq<P> {
    if forall|i: int| 0 <= i < turfs.len() ==> (#[trigger] turfs[i]) is Some {
        turfs.map_values(|turf: Option<P>| turf->0)
    } else {
        Seq::empty()
    }
}

/// The list that is handed out for a path, from what locating its turfs in turn gave.
pub fn all_located<P>(turfs: Vec<Option<P>>) -> (list: Vec<P>)
    ensures
        list@ == all_or_none(turfs@),
{
    let ghost located = turfs@;
    let mut list: Vec<P> = Vec::new();
    for turf in it: turfs
        invariant
            it.seq() == located,
            list@.len() == it.index(),
            forall|i: int| 0 <= i < list@.len() ==> located[i] == Some(#[trigger] list@[i]),
    {
        match turf {
            Some(found) => {
                list.push(found);
            },
            None => {
                assert(located[it.index()] is None);
                return Vec::new();
            },
        }
    }
    proof {
        assert forall|i: int| 0 <= i < located.len() implies (#[trigger] located[i]) is Some by {
            assert(located[i] == Some(list@[i]));
        }
        assert(list@ =~= all_or_none(located));
    }
    list
}

/// The list for a path is whole or empty: it holds each turf of the path in its place, or
/// nothing if one of them was not located.
pub proof fn law_list_is_whole_or_empty<P>(turfs: Seq<Option<P>>)
    ensures
        (forall|i: int| 0 <= i < turfs.len() ==> (#[trigger] turfs[i]) is Some) ==> {
            &&& all_or_none(turfs).len() == turfs.len()
            &&& forall|i: int|
                0 <= i < turfs.len() ==> turfs[i] == Some(#[trigger] all_or_none(turfs)[i])
        },
        (exists|i: int| 0 <= i < turfs.len() && (#[trigger] turfs[i]) is None) ==> all_or_none(
            turfs,
        ).len() == 0,
{
}

/// Once one turf was not located, the rest need not be: the list is empty either way.
pub proof fn law_first_missing_turf_decides<P>(turfs: Seq<Option<P>>, n: int, i: int)
    requires
        0 <= i < n <= turfs.len(),
        turfs[i] is None,
    ensures
        all_or_none(turfs.take(n)) == all_or_none(turfs),
        all_or_none(turfs).len() == 0,
{
    assert(turfs.take(n)[i] is None);
}

/// The nodes with the corners of the replaced diagonals put in, by the ways that are open
/// among the turfs seen so far; nothing if a leg is blocked. The first leg that is blocked,
/// or needs a turf not seen yet, decides.
pub open spec fn known_expansion(
    rules: GridRules,
    cells: Cells,
    handling: DiagonalHandling,
    nodes: Seq<Coord>,
) -> Result<Option<Seq<Coord>>, UnknownTurf>
    decreases nodes.len(),
{
    if nodes.len() <= 1 {
        Ok(Some(nodes))
    } else {
        let leg = nodes.len() - 2;
        match known_expansion(rules, cells, handling, nodes.drop_last()) {
            Err(e) => Err(e),
            Ok(None) => Ok(None),
            Ok(Some(out)) => if bends(nodes, leg) {
                match routes(rules, cells, nodes[leg], nodes[leg + 1]) {
                    Err(e) => Err(e),
                    Ok(open) => match diagonal_leg(handling, open, nodes[leg], nodes[leg + 1]) {
                        Leg::Direct => Ok(Some(out.push(nodes.last()))),
                        Leg::Over(corner) => Ok(Some(out.push(corner).push(nodes.last()))),
                        Leg::Blocked => Ok(None),
                    },
                }
            } else {
                Ok(Some(out.push(nodes.last())))
            },
        }
    }
}

/// What is handed out of a path: the expansion of its diagonals, then perhaps without the
/// first node.
pub open spec fn handed_out(
    rules: GridRules,
    cells: Cells,
    handling: DiagonalHandling,
    skip_first: bool,
    nodes: Seq<Coord>,
) -> Result<Option<Seq<Coord>>, UnknownTurf> {
    match known_expansion(rules, cells, handling, nodes) {
        Err(e) => Err(e),
        Ok(None) => Ok(None),
        Ok(Some(out)) => Ok(Some(without_first(out, skip_first))),
    }
}

/// The routes of the leg that starts at node `i` are known.
pub open spec fn leg_known(rules: GridRules, cells: Cells, nodes: Seq<Coord>, i: int) -> bool {
    routes(rules, cells, nodes[i], nodes[i + 1]) is Ok
}

/// The routes of every diagonal leg of the path are known.
pub open spec fn routes_known(rules: GridRules, cells: Cells, nodes: Seq<Coord>) -> bool {
    forall|i: int| #[trigger] bends(nodes, i) ==> leg_known(rules, cells, nodes, i)
}

/// `told` holds the known routes of the first `legs` legs.
pub open spec fn told_known(
    rules: GridRules,
    cells: Cells,
    nodes: Seq<Coord>,
    told: Seq<DiagonalRoutes>,
    legs: int,
) -> bool {
    forall|i: int|
        0 <= i < legs && #[trigger] bends(nodes, i) ==> routes(rules, cells, nodes[i], nodes[i + 1])
            == Ok::<DiagonalRoutes, UnknownTurf>(told[i])
}

/// An expansion by the known routes is the known expansion.
pub(crate) proof fn lemma_told_expansion(
    rules: GridRules,
    cells: Cells,
    handling: DiagonalHandling,
    nodes: Seq<Coord>,
    told: Seq<DiagonalRoutes>,
    n: int,
)
    requires
        0 <= n <= nodes.len(),
        told_known(rules, cells, nodes, told, n - 1),
    ensures
        known_expansion(rules, cells, handling, nodes.take(n)) == Ok::<
            Option<Seq<Coord>>,
            UnknownTurf,
        >(expanded(nodes.take(n), handling, told)),
    decreases n,
{
    if n > 1 {
        let here = nodes.take(n);
        assert(here.drop_last() =~= nodes.take(n - 1));
        lemma_told_expansion(rules, cells, handling, nodes, told, n - 1);
        if bends(here, n - 2) {
            assert(bends(nodes, n - 2));
        }
    }
}

/// What the first legs of a path decide, the rest does not change.
pub(crate) proof fn lemma_known_expansion_prefix(
    rules: GridRules,
    cells: Cells,
    handling: DiagonalHandling,
    nodes: Seq<Coord>,
    k: int,
)
    requires
        0 <= k <= nodes.len(),
        !(known_expansion(rules, cells, handling, nodes.take(k)) matches Ok(Some(_))),
    ensures
        known_expansion(rules, cells, handling, nodes) == known_expansion(
            rules,
            cells,
            handling,
            nodes.take(k),
        ),
    decreases nodes.len(),
{
    if k == nodes.len() {
        assert(nodes.take(k) =~= nodes);
    } else {
        assert(nodes.drop_last().take(k) =~= nodes.take(k));
        lemma_known_expansion_prefix(rules, cells, handling, nodes.drop_last(), k);
    }
}

/// Consecutive nodes are one legal step apart.
pub open spec fn legal_chain(rules: GridRules, world: World, nodes: Seq<Coord>) -> bool {
    forall|i: int| 0 <= i < nodes.len() - 1 ==> #[trigger] legal_leg(rules, world, nodes, i)
}

/// The step from node `i` to the next one is a legal cardinal step.
pub open spec fn cardinal_leg(rules: GridRules, world: World, nodes: Seq<Coord>, i: int) -> bool {
    legal_cardinal(rules, world, nodes[i], nodes[i + 1])
}

/// Consecutive nodes are one legal cardinal step apart.
pub open spec fn cardinal_chain(rules: GridRules, world: World, nodes: Seq<Coord>) -> bool {
    forall|i: int| 0 <= i < nodes.len() - 1 ==> #[trigger] cardinal_leg(rules, world, nodes, i)
}

proof fn lemma_cardinal_chain_push(rules: GridRules, world: World, nodes: Seq<Coord>, next: Coord)
    requires
        cardinal_chain(rules, world, nodes),
        nodes.len() > 0,
        legal_cardinal(rules, world, nodes.last(), next),
    ensures
        cardinal_chain(rules, world, nodes.push(next)),
{
    let longer = nodes.push(next);
    assert forall|i: int| 0 <= i < longer.len() - 1 implies #[trigger] cardinal_leg(
        rules,
        world,
        longer,
        i,
    ) by {
        if i < nodes.len() - 1 {
            assert(cardinal_leg(rules, world, nodes, i));
        }
    }
}

proof fn lemma_shorter_path(
    rules: GridRules,
    world: World,
    nodes: Seq<Coord>,
    routes: Seq<DiagonalRoutes>,
)
    requires
        nodes.len() > 0,
        legal_chain(rules, world, nodes),
        true_routes(rules, world, nodes, routes),
    ensures
        legal_chain(rules, world, nodes.drop_last()),
        true_routes(rules, world, nodes.drop_last(), routes),
{
    let shorter = nodes.drop_last();
    assert forall|i: int| 0 <= i < shorter.len() - 1 implies #[trigger] legal_leg(
        rules,
        world,
        shorter,
        i,
    ) by {
        assert(legal_leg(rules, world, nodes, i));
    }
    assert forall|i: int| bends(shorter, i) implies bends(nodes, i) by {}
}

/// `routes` tells of each leg of the path which ways around its corner are legal.
pub open spec fn true_routes(
    rules: GridRules,
    world: World,
    nodes: Seq<Coord>,
    routes: Seq<DiagonalRoutes>,
) -> bool {
    forall|i: int|
        #![trigger routes[i]]
        bends(nodes, i) ==> routes[i].north_south_first == legal_detour(
            rules,
            world,
            nodes[i],
            (nodes[i].0, nodes[i + 1].1),
            nodes[i + 1],
        ) && routes[i].east_west_first == legal_detour(
            rules,
            world,
            nodes[i],
            (nodes[i + 1].0, nodes[i].1),
            nodes[i + 1],
        )
}

/// Where diagonals are left alone, a path is handed out as it is.
pub proof fn law_do_nothing_keeps_path(nodes: Seq<Coord>, routes: Seq<DiagonalRoutes>)
    ensures
        expanded(nodes, DiagonalHandling::DoNothing, routes) == Some(nodes),
    decreases nodes.len(),
{
    if nodes.len() > 1 {
        law_do_nothing_keeps_path(nodes.drop_last(), routes);
        assert(nodes.drop_last().push(nodes.last()) =~= nodes);
    }
}

/// An expansion starts and ends where the path does, and drops none of its nodes.
pub proof fn law_expansion_keeps_nodes(
    nodes: Seq<Coord>,
    handling: DiagonalHandling,
    routes: Seq<DiagonalRoutes>,
)
    requires
        nodes.len() > 0,
        expanded(nodes, handling, routes) is Some,
    ensures
        expanded(nodes, handling, routes)->0.len() >= nodes.len(),
        expanded(nodes, handling, routes)->0.first() == nodes.first(),
        expanded(nodes, handling, routes)->0.last() == nodes.last(),
        forall|i: int|
            0 <= i < nodes.len() ==> expanded(nodes, handling, routes)->0.contains(
                #[trigger] nodes[i],
            ),
    decreases nodes.len(),
{
    let out = expanded(nodes, handling, routes)->0;
    if nodes.len() > 1 {
        let shorter = nodes.drop_last();
        law_expansion_keeps_nodes(shorter, handling, routes);
        let before = expanded(shorter, handling, routes)->0;
        assert forall|i: int| 0 <= i < nodes.len() implies out.contains(#[trigger] nodes[i]) by {
            if i < nodes.len() - 1 {
                assert(before.contains(shorter[i]));
                let k = choose|k: int| 0 <= k < before.len() && before[k] == shorter[i];
                assert(out[k] == nodes[i]);
            } else {
                assert(out[out.len() - 1] == nodes[i]);
            }
        }
    } else {
        assert(out[0] == nodes[0]);
    }
}

/// Replacing every diagonal of a legal path always succeeds, and leaves a path of legal
/// cardinal steps alone.
pub proof fn law_remove_all_leaves_cardinal_steps(
    rules: GridRules,
    world: World,
    nodes: Seq<Coord>,
    routes: Seq<DiagonalRoutes>,
)
    requires
        legal_chain(rules, world, nodes),
        true_routes(rules, world, nodes, routes),
    ensures
        expanded(nodes, DiagonalHandling::RemoveAll, routes) is Some,
        cardinal_chain(rules, world, expanded(nodes, DiagonalHandling::RemoveAll, routes)->0),
    decreases nodes.len(),
{
    if nodes.len() > 1 {
        let handling = DiagonalHandling::RemoveAll;
        let shorter = nodes.drop_last();
        let leg = nodes.len() - 2;
        lemma_shorter_path(rules, world, nodes, routes);
        law_remove_all_leaves_cardinal_steps(rules, world, shorter, routes);
        law_expansion_keeps_nodes(shorter, handling, routes);
        let before = expanded(shorter, handling, routes)->0;
        let to = nodes.last();
        assert(before.last() == nodes[leg]);
        assert(legal_leg(rules, world, nodes, leg));
        let told = routes[leg];
        if bends(nodes, leg) {
            match diagonal_leg(handling, told, nodes[leg], to) {
                Leg::Over(corner) => {
                    lemma_cardinal_chain_push(rules, world, before, corner);
                    lemma_cardinal_chain_push(rules, world, before.push(corner), to);
                },
                _ => {},
            }
        } else {
            lemma_cardinal_chain_push(rules, world, before, to);
        }
    }
}

/// Replacing the clunky diagonals of a legal path always succeeds, leaves legal steps, and
/// leaves a diagonal only where its vertical-first way is legal.
pub proof fn law_remove_clunky_leaves_vertical_first_diagonals(
    rules: GridRules,
    world: World,
    nodes: Seq<Coord>,
    routes: Seq<DiagonalRoutes>,
)
    requires
        legal_chain(rules, world, nodes),
        true_routes(rules, world, nodes, routes),
    ensures
        expanded(nodes, DiagonalHandling::RemoveClunky, routes) is Some,
        legal_chain(rules, world, expanded(nodes, DiagonalHandling::RemoveClunky, routes)->0),
        forall|i: int| #[trigger]
            bends(expanded(nodes, DiagonalHandling::RemoveClunky, routes)->0, i) ==> {
                let out = expanded(nodes, DiagonalHandling::RemoveClunky, routes)->0;
                legal_detour(rules, world, out[i], (out[i].0, out[i + 1].1), out[i + 1])
            },
    decreases nodes.len(),
{
    if nodes.len() > 1 {
        let handling = DiagonalHandling::RemoveClunky;
        let shorter = nodes.drop_last();
        let leg = nodes.len() - 2;
        lemma_shorter_path(rules, world, nodes, routes);
        law_remove_clunky_leaves_vertical_first_diagonals(rules, world, shorter, routes);
        law_expansion_keeps_nodes(shorter, handling, routes);
        let before = expanded(shorter, handling, routes)->0;
        let out = expanded(nodes, handling, routes)->0;
        assert(before.last() == nodes[leg]);
        assert(legal_leg(rules, world, nodes, leg));
        let told = routes[leg];
        assert forall|i: int| 0 <= i < out.len() - 1 implies #[trigger] legal_leg(
            rules,
            world,
            out,
            i,
        ) by {
            if i < before.len() - 1 {
                assert(legal_leg(rules, world, before, i));
            }
        }
        assert forall|i: int| #[trigger] bends(out, i) implies legal_detour(
            rules,
            world,
            out[i],
            (out[i].0, out[i + 1].1),
            out[i + 1],
        ) by {
            if i < before.len() - 1 {
                assert(bends(before, i));
            }
        }
    }
}

/// A legal path whose diagonals are known is always handed out: it starts and ends where the
/// path does, drops none of its nodes, takes legal steps alone, and only cardinal ones where
/// every diagonal is to be replaced.
pub proof fn law_known_path_is_handed_out(
    rules: GridRules,
    cells: Cells,
    world: World,
    handling: DiagonalHandling,
    nodes: Seq<Coord>,
)
    requires
        agrees(cells, world),
        nodes.len() > 0,
        legal_chain(rules, world, nodes),
        routes_known(rules, cells, nodes),
    ensures
        ({
            &&& known_expansion(rules, cells, handling, nodes) matches Ok(Some(out))
            &&& out.len() >= nodes.len()
            &&& out.first() == nodes.first()
            &&& out.last() == nodes.last()
            &&& legal_chain(rules, world, out)
            &&& forall|i: int| 0 <= i < nodes.len() ==> out.contains(#[trigger] nodes[i])
            &&& handling == DiagonalHandling::RemoveAll ==> cardinal_chain(rules, world, out)
        }),
{
    let told = Seq::new(
        nodes.len(),
        |i: int| routes(rules, cells, nodes[i], nodes[i + 1])->Ok_0,
    );
    assert(told_known(rules, cells, nodes, told, nodes.len() - 1)) by {
        assert forall|i: int|
            0 <= i < nodes.len() - 1 && #[trigger] bends(nodes, i) implies routes(
            rules,
            cells,
            nodes[i],
            nodes[i + 1],
        ) == Ok::<DiagonalRoutes, UnknownTurf>(told[i]) by {
            assert(leg_known(rules, cells, nodes, i));
        }
    }
    lemma_told_expansion(rules, cells, handling, nodes, told, nodes.len() as int);
    assert(nodes.take(nodes.len() as int) =~= nodes);
    assert(true_routes(rules, world, nodes, told)) by {
        assert forall|i: int| #![trigger told[i]] bends(nodes, i) implies told[i].north_south_first
            == legal_detour(
            rules,
            world,
            nodes[i],
            (nodes[i].0, nodes[i + 1].1),
            nodes[i + 1],
        ) && told[i].east_west_first == legal_detour(
            rules,
            world,
            nodes[i],
            (nodes[i + 1].0, nodes[i].1),
            nodes[i + 1],
        ) by {
            assert(leg_known(rules, cells, nodes, i));
            assert(legal_leg(rules, world, nodes, i));
            law_routes_decided(rules, cells, world, nodes[i], nodes[i + 1]);
        }
    }
    match handling {
        DiagonalHandling::DoNothing => law_do_nothing_keeps_path(nodes, told),
        DiagonalHandling::RemoveAll => {
            law_remove_all_leaves_cardinal_steps(rules, world, nodes, told);
            let out = expanded(nodes, handling, told)->0;
            assert forall|i: int| 0 <= i < out.len() - 1 implies #[trigger] legal_leg(
                rules,
                world,
                out,
                i,
            ) by {
                assert(cardinal_leg(rules, world, out, i));
            }
        },
        DiagonalHandling::RemoveClunky => law_remove_clunky_leaves_vertical_first_diagonals(
            rules,
            world,
            nodes,
            told,
        ),
    }
    law_expansion_keeps_nodes(nodes, handling, told);
}

} // verus!
