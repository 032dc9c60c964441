//! The shape of a path that is handed out, node by node.
use vstd::prelude::*;
use crate::coord::Coord;
use crate::grid::{agrees, Cells, DiagonalRoutes, GridRules, UnknownTurf, World};
use crate::grid_laws::law_routes_decided;
use crate::map_laws::{
    law_detour_is_two_ways, law_legal_chain_is_walked, law_legal_step_is_a_walk, walks, way,
};
use crate::path::{
    bends, expanded, handed_out, known_expansion, law_known_path_is_handed_out, leg_known,
    lemma_told_expansion, on_level, routes_known, told_routes, told_routes_checked,
    without_first, DiagonalHandling,
};

verus! {

/// The leg that starts at node `i` changes both the column and the row.
pub open spec fn is_diagonal(nodes: Seq<Coord>, i: int) -> bool {
    nodes[i].0 != nodes[i + 1].0 && nodes[i].1 != nodes[i + 1].1
}

/// The leg that starts at node `i` gets a corner: every diagonal does where all of them are to
/// be replaced; where the clunky ones are, one whose horizontal-first way alone is open.
pub open spec fn gets_corner(
    nodes: Seq<Coord>,
    handling: DiagonalHandling,
    routes: Seq<DiagonalRoutes>,
    i: int,
) -> bool {
    is_diagonal(nodes, i) && match handling {
        DiagonalHandling::DoNothing => false,
        DiagonalHandling::RemoveAll => true,
        DiagonalHandling::RemoveClunky => routes[i].east_west_first && !routes[i].north_south_first,
    }
}

/// How many of the first `n` legs get a corner.
pub open spec fn corners(
    nodes: Seq<Coord>,
    handling: DiagonalHandling,
    routes: Seq<DiagonalRoutes>,
    n: nat,
) -> nat
    decreases n,
{
    if n == 0 {
        0
    } else {
        corners(nodes, handling, routes, (n - 1) as nat) + (if gets_corner(
            nodes,
            handling,
            routes,
            n - 1,
        ) {
            1nat
        } else {
            0nat
        })
    }
}

/// The corner between two nodes: in the column of the first one if the vertical-first way is
/// taken, else in its row.
pub open spec fn corner_between(from: Coord, to: Coord, vertical_first: bool) -> Coord {
    if vertical_first {
        (from.0, to.1)
    } else {
        (to.0, from.1)
    }
}

proof fn lemma_corners_of_shorter(
    nodes: Seq<Coord>,
    handling: DiagonalHandling,
    routes: Seq<DiagonalRoutes>,
    n: nat,
)
    requires
        n < nodes.len() - 1,
    ensures
        corners(nodes.drop_last(), handling, routes, n) == corners(nodes, handling, routes, n),
    decreases n,
{
    if n > 0 {
        lemma_corners_of_shorter(nodes, handling, routes, (n - 1) as nat);
    }
}

proof fn lemma_corners_grow(
    nodes: Seq<Coord>,
    handling: DiagonalHandling,
    routes: Seq<DiagonalRoutes>,
    n: nat,
    m: nat,
)
    requires
        n <= m,
    ensures
        corners(nodes, handling, routes, n) <= corners(nodes, handling, routes, m),
        n < m && gets_corner(nodes, handling, routes, n as int) ==> corners(
            nodes,
            handling,
            routes,
            n,
        ) < corners(nodes, handling, routes, m),
    decreases m,
{
    if n < m {
        lemma_corners_grow(nodes, handling, routes, n, (m - 1) as nat);
    }
}

/// Where node `i` stands in the expansion, and the corner that follows it, if one does.
pub open spec fn node_in_place(
    nodes: Seq<Coord>,
    handling: DiagonalHandling,
    routes: Seq<DiagonalRoutes>,
    out: Seq<Coord>,
    i: int,
) -> bool {
    let at = i + corners(nodes, handling, routes, i as nat);
    &&& out[at] == nodes[i]
    &&& i < nodes.len() - 1 && gets_corner(nodes, handling, routes, i) ==> out[at + 1]
        == corner_between(nodes[i], nodes[i + 1], routes[i].north_south_first)
}

/// An expansion holds the nodes in their order, and besides them one corner after each leg
/// that gets one: nothing else.
pub proof fn law_expansion_puts_in_corners(
    nodes: Seq<Coord>,
    handling: DiagonalHandling,
    routes: Seq<DiagonalRoutes>,
)
    requires
        nodes.len() > 0,
        expanded(nodes, handling, routes) is Some,
    ensures
        expanded(nodes, handling, routes)->0.len() == nodes.len() + corners(
            nodes,
            handling,
            routes,
            (nodes.len() - 1) as nat,
        ),
        forall|i: int|
            0 <= i < nodes.len() ==> #[trigger] node_in_place(
                nodes,
                handling,
                routes,
                expanded(nodes, handling, routes)->0,
                i,
            ),
    decreases nodes.len(),
{
    let out = expanded(nodes, handling, routes)->0;
    let last = (nodes.len() - 1) as nat;
    if nodes.len() > 1 {
        let shorter = nodes.drop_last();
        law_expansion_puts_in_corners(shorter, handling, routes);
        let before = expanded(shorter, handling, routes)->0;
        lemma_corners_of_shorter(nodes, handling, routes, (last - 1) as nat);
        assert forall|i: int| 0 <= i < nodes.len() implies #[trigger] node_in_place(
            nodes,
            handling,
            routes,
            out,
            i,
        ) by {
            if i < last {
                lemma_corners_of_shorter(nodes, handling, routes, i as nat);
                lemma_corners_grow(nodes, handling, routes, i as nat, (last - 1) as nat);
                assert(node_in_place(shorter, handling, routes, before, i));
            }
        }
    }
}

/// An expansion fails exactly if every diagonal is to be replaced, and one of them has no open
/// way around its corner.
pub proof fn law_expansion_fails_at_a_blocked_diagonal(
    nodes: Seq<Coord>,
    handling: DiagonalHandling,
    routes: Seq<DiagonalRoutes>,
)
    ensures
        expanded(nodes, handling, routes) is None <==> handling == DiagonalHandling::RemoveAll
            && exists|i: int|
            0 <= i < nodes.len() - 1 && #[trigger] is_diagonal(nodes, i)
                && !routes[i].north_south_first && !routes[i].east_west_first,
    decreases nodes.len(),
{
    if nodes.len() > 1 {
        let shorter = nodes.drop_last();
        let last = nodes.len() - 2;
        law_expansion_fails_at_a_blocked_diagonal(shorter, handling, routes);
        if expanded(shorter, handling, routes) is None {
            let i = choose|i: int|
                0 <= i < shorter.len() - 1 && #[trigger] is_diagonal(shorter, i)
                    && !routes[i].north_south_first && !routes[i].east_west_first;
            assert(is_diagonal(nodes, i));
        } else {
            if expanded(nodes, handling, routes) is None {
                assert(is_diagonal(nodes, last));
            }
            if handling == DiagonalHandling::RemoveAll && exists|i: int|
                0 <= i < nodes.len() - 1 && #[trigger] is_diagonal(nodes, i)
                    && !routes[i].north_south_first && !routes[i].east_west_first {
                let i = choose|i: int|
                    0 <= i < nodes.len() - 1 && #[trigger] is_diagonal(nodes, i)
                        && !routes[i].north_south_first && !routes[i].east_west_first;
                if i < last {
                    assert(is_diagonal(shorter, i));
                }
            }
        }
    }
}

/// The vertical-first way of the leg that starts at node `i` is open.
pub open spec fn vertical_first_open(rules: GridRules, world: World, nodes: Seq<Coord>, i: int) -> bool {
    let corner = (nodes[i].0, nodes[i + 1].1);
    way(rules, world, nodes[i], corner) && way(rules, world, corner, nodes[i + 1])
}

/// The leg that starts at node `i` is replaced: any diagonal where all of them are to be
/// replaced, and one without an open vertical-first way where the clunky ones are.
pub open spec fn is_replaced(
    rules: GridRules,
    world: World,
    handling: DiagonalHandling,
    nodes: Seq<Coord>,
    i: int,
) -> bool {
    is_diagonal(nodes, i) && match handling {
        DiagonalHandling::DoNothing => false,
        DiagonalHandling::RemoveAll => true,
        DiagonalHandling::RemoveClunky => !vertical_first_open(rules, world, nodes, i),
    }
}

/// How many of the first `n` legs are replaced.
pub open spec fn replaced(
    rules: GridRules,
    world: World,
    handling: DiagonalHandling,
    nodes: Seq<Coord>,
    n: nat,
) -> nat
    decreases n,
{
    if n == 0 {
        0
    } else {
        replaced(rules, world, handling, nodes, (n - 1) as nat) + (if is_replaced(
            rules,
            world,
            handling,
            nodes,
            n - 1,
        ) {
            1nat
        } else {
            0nat
        })
    }
}

/// Where node `i` stands in what is handed out, and the corner that follows it, if one does.
pub open spec fn node_handed_out(
    rules: GridRules,
    world: World,
    handling: DiagonalHandling,
    nodes: Seq<Coord>,
    out: Seq<Coord>,
    i: int,
) -> bool {
    let at = i + replaced(rules, world, handling, nodes, i as nat);
    &&& out[at] == nodes[i]
    &&& i < nodes.len() - 1 && is_replaced(rules, world, handling, nodes, i) ==> out[at + 1]
        == corner_between(
        nodes[i],
        nodes[i + 1],
        vertical_first_open(rules, world, nodes, i),
    )
}

/// `out` is the path in the shape that was asked for: its nodes in their order, and one corner
/// for each leg that is replaced.
pub open spec fn in_shape(
    rules: GridRules,
    world: World,
    handling: DiagonalHandling,
    nodes: Seq<Coord>,
    out: Seq<Coord>,
) -> bool {
    &&& out.len() == nodes.len() + replaced(
        rules,
        world,
        handling,
        nodes,
        (nodes.len() - 1) as nat,
    )
    &&& forall|i: int|
        0 <= i < nodes.len() ==> #[trigger] node_handed_out(rules, world, handling, nodes, out, i)
}

proof fn lemma_corners_are_replaced(
    rules: GridRules,
    world: World,
    handling: DiagonalHandling,
    nodes: Seq<Coord>,
    routes: Seq<DiagonalRoutes>,
    n: nat,
)
    requires
        n < nodes.len(),
        forall|i: int|
            0 <= i < nodes.len() - 1 ==> gets_corner(nodes, handling, routes, i)
                == #[trigger] is_replaced(rules, world, handling, nodes, i),
    ensures
        corners(nodes, handling, routes, n) == replaced(rules, world, handling, nodes, n),
    decreases n,
{
    if n > 0 {
        lemma_corners_are_replaced(rules, world, handling, nodes, routes, (n - 1) as nat);
        assert(gets_corner(nodes, handling, routes, n - 1) == is_replaced(
            rules,
            world,
            handling,
            nodes,
            n - 1,
        ));
    }
}

/// A path that can be walked, and whose diagonals are known, is handed out in shape.
pub proof fn law_known_path_is_handed_out_in_shape(
    rules: GridRules,
    cells: Cells,
    world: World,
    handling: DiagonalHandling,
    nodes: Seq<Coord>,
)
    requires
        agrees(cells, world),
        nodes.len() > 0,
        forall|i: int| 0 <= i < nodes.len() - 1 ==> #[trigger] walks(rules, world, nodes, i),
        routes_known(rules, cells, nodes),
    ensures
        known_expansion(rules, cells, handling, nodes) matches Ok(Some(out)) && in_shape(
            rules,
            world,
            handling,
            nodes,
            out,
        ),
{
    law_legal_chain_is_walked(rules, world, nodes);
    law_known_path_is_handed_out(rules, cells, world, handling, nodes);
    let told = Seq::new(
        nodes.len(),
        |i: int| crate::grid::routes(rules, cells, nodes[i], nodes[i + 1])->Ok_0,
    );
    assert forall|i: int|
        0 <= i < nodes.len() - 1 && #[trigger] bends(nodes, i) implies crate::grid::routes(
        rules,
        cells,
        nodes[i],
        nodes[i + 1],
    ) == Ok::<DiagonalRoutes, UnknownTurf>(told[i]) by {
        assert(leg_known(rules, cells, nodes, i));
    }
    lemma_told_expansion(rules, cells, handling, nodes, told, nodes.len() as int);
    assert(nodes.take(nodes.len() as int) =~= nodes);
    let out = expanded(nodes, handling, told)->0;
    law_expansion_puts_in_corners(nodes, handling, told);
    assert forall|i: int| 0 <= i < nodes.len() - 1 implies gets_corner(nodes, handling, told, i)
        == #[trigger] is_replaced(rules, world, handling, nodes, i) && (is_diagonal(nodes, i)
        ==> told[i].north_south_first == vertical_first_open(rules, world, nodes, i)) by {
        if is_diagonal(nodes, i) {
            assert(bends(nodes, i));
            assert(leg_known(rules, cells, nodes, i));
            assert(walks(rules, world, nodes, i));
            let a = nodes[i];
            let b = nodes[i + 1];
            law_legal_step_is_a_walk(rules, world, a, b);
            law_routes_decided(rules, cells, world, a, b);
            law_detour_is_two_ways(rules, world, a, (a.0, b.1), b);
            law_detour_is_two_ways(rules, world, a, (b.0, a.1), b);
        }
    }
    lemma_corners_are_replaced(rules, world, handling, nodes, told, (nodes.len() - 1) as nat);
    assert forall|i: int| 0 <= i < nodes.len() implies #[trigger] node_handed_out(
        rules,
        world,
        handling,
        nodes,
        out,
        i,
    ) by {
        lemma_corners_are_replaced(rules, world, handling, nodes, told, i as nat);
        assert(node_in_place(nodes, handling, told, out, i));
        if i < nodes.len() - 1 {
            assert(gets_corner(nodes, handling, told, i) == is_replaced(
                rules,
                world,
                handling,
                nodes,
                i,
            ));
        }
    }
}

/// Where the first node is to be left out, all others stay in their order; otherwise all do.
pub proof fn law_first_node_is_left_out(nodes: Seq<Coord>, skip_first: bool)
    ensures
        !skip_first ==> without_first(nodes, skip_first) == nodes,
        skip_first && nodes.len() > 0 ==> seq![nodes[0]] + without_first(nodes, skip_first)
            == nodes,
        nodes.len() == 0 ==> without_first(nodes, skip_first).len() == 0,
{
    if skip_first && nodes.len() > 0 {
        assert(seq![nodes[0]] + without_first(nodes, skip_first) =~= nodes);
    }
}

/// What is handed out of an expansion is all of it, but for the first node where that is to be
/// left out.
pub proof fn law_expansion_is_handed_out(
    rules: GridRules,
    cells: Cells,
    handling: DiagonalHandling,
    skip_first: bool,
    nodes: Seq<Coord>,
)
    ensures
        match known_expansion(rules, cells, handling, nodes) {
            Ok(Some(out)) => handed_out(rules, cells, handling, skip_first, nodes) matches Ok(
                Some(list),
            ) && (if skip_first && out.len() > 0 {
                out == seq![out[0]] + list
            } else {
                list == out
            }),
            Ok(None) => handed_out(rules, cells, handling, skip_first, nodes) == Ok::<
                Option<Seq<Coord>>,
                UnknownTurf,
            >(None),
            Err(e) => handed_out(rules, cells, handling, skip_first, nodes) == Err::<
                Option<Seq<Coord>>,
                UnknownTurf,
            >(e),
        },
{
    match known_expansion(rules, cells, handling, nodes) {
        Ok(Some(out)) => law_first_node_is_left_out(out, skip_first),
        _ => {},
    }
}

/// The turfs of a path are its nodes in their order, all on the one z-level.
pub proof fn law_turfs_lie_on_the_level(path: Seq<Coord>, z: i16, i: int)
    ensures
        on_level(path, z).len() == path.len(),
        0 <= i < path.len() ==> on_level(path, z)[i] == (path[i].0, path[i].1, z),
{
}

/// The ways around the corner of the leg that starts at node `i`, as far as they are known.
pub open spec fn looked_up(rules: GridRules, cells: Cells, nodes: Seq<Coord>, i: int) -> Result<
    DiagonalRoutes,
    UnknownTurf,
> {
    crate::grid::routes(rules, cells, nodes[i], nodes[i + 1])
}

/// Every diagonal of a path is looked up before the path is handed out, whatever becomes of it;
/// the first one for which a turf has to be seen ends the expansion.
pub proof fn law_every_diagonal_is_looked_up(
    rules: GridRules,
    cells: Cells,
    handling: DiagonalHandling,
    nodes: Seq<Coord>,
)
    ensures
        known_expansion(rules, cells, handling, nodes) matches Ok(Some(out)) ==> forall|i: int|
            0 <= i < nodes.len() - 1 && is_diagonal(nodes, i) ==> (#[trigger] looked_up(
                rules,
                cells,
                nodes,
                i,
            )) is Ok,
        known_expansion(rules, cells, handling, nodes) matches Err(e) ==> exists|k: int|
            0 <= k < nodes.len() - 1 && is_diagonal(nodes, k) && #[trigger] looked_up(
                rules,
                cells,
                nodes,
                k,
            ) == Err::<DiagonalRoutes, UnknownTurf>(e) && forall|i: int|
                0 <= i < k && is_diagonal(nodes, i) ==> (#[trigger] looked_up(
                    rules,
                    cells,
                    nodes,
                    i,
                )) is Ok,
    decreases nodes.len(),
{
    if nodes.len() > 1 {
        let shorter = nodes.drop_last();
        let last = nodes.len() - 2;
        law_every_diagonal_is_looked_up(rules, cells, handling, shorter);
        assert forall|i: int| 0 <= i < last implies #[trigger] looked_up(rules, cells, nodes, i)
            == looked_up(rules, cells, shorter, i) && is_diagonal(nodes, i) == is_diagonal(
            shorter,
            i,
        ) by {}
        match known_expansion(rules, cells, handling, shorter) {
            Err(e) => {
                let k = choose|k: int|
                    0 <= k < shorter.len() - 1 && is_diagonal(shorter, k) && #[trigger] looked_up(
                        rules,
                        cells,
                        shorter,
                        k,
                    ) == Err::<DiagonalRoutes, UnknownTurf>(e) && forall|i: int|
                        0 <= i < k && is_diagonal(shorter, i) ==> (#[trigger] looked_up(
                            rules,
                            cells,
                            shorter,
                            i,
                        )) is Ok;
                assert(looked_up(rules, cells, nodes, k) == Err::<DiagonalRoutes, UnknownTurf>(e));
                assert forall|i: int| 0 <= i < k && is_diagonal(nodes, i) implies (
                #[trigger] looked_up(rules, cells, nodes, i)) is Ok by {
                    assert(looked_up(rules, cells, shorter, i) is Ok);
                }
            },
            Ok(Some(_)) => {
                assert forall|i: int| 0 <= i < last && is_diagonal(nodes, i) implies (
                #[trigger] looked_up(rules, cells, nodes, i)) is Ok by {
                    assert(looked_up(rules, cells, shorter, i) is Ok);
                }
                assert(is_diagonal(nodes, last) ==> (looked_up(rules, cells, nodes, last) is Ok
                    || looked_up(rules, cells, nodes, last) is Err));
            },
            Ok(None) => {},
        }
    }
}

/// What an expansion goes by is what was told of each diagonal, from its first node to its
/// second one.
pub proof fn law_expansion_goes_by_what_was_told<F: Fn(Coord, Coord) -> DiagonalRoutes>(
    routes_for: F,
    nodes: Seq<Coord>,
    routes: Seq<DiagonalRoutes>,
    legs: int,
    i: int,
)
    requires
        told_routes(routes_for, nodes, routes, legs),
        0 <= i < legs,
        i < nodes.len() - 1,
        is_diagonal(nodes, i),
    ensures
        call_ensures(routes_for, (nodes[i], nodes[i + 1]), routes[i]),
{
    assert(bends(nodes, i));
}

/// The same where the telling may fail: it did not.
pub proof fn law_checked_expansion_goes_by_what_was_told<
    F: Fn(Coord, Coord) -> Result<DiagonalRoutes, E>,
    E,
>(routes_for: F, nodes: Seq<Coord>, routes: Seq<DiagonalRoutes>, legs: int, i: int)
    requires
        told_routes_checked(routes_for, nodes, routes, legs),
        0 <= i < legs,
        i < nodes.len() - 1,
        is_diagonal(nodes, i),
    ensures
        call_ensures(
            routes_for,
            (nodes[i], nodes[i + 1]),
            Ok::<DiagonalRoutes, E>(routes[i]),
        ),
{
    assert(bends(nodes, i));
}

} // verus!
