//! What the answers of a grid mean for the map behind it.
use vstd::prelude::*;
use crate::coord::{is_diagonal_step, is_interior, step_cost, Coord};
use crate::direction::{
    law_neighbour_is_a_step, law_steps_reach_every_neighbour, neighbour_at, CARDINAL_COUNT,
    STEP_COUNT,
};
use crate::grid::{
    agrees, detour, known, legal_detour, legal_step, occupancy, occupiable, open_steps, routes,
    step_open, successor_steps, Cells, GridRules, TurfInfo, UnknownTurf, World,
};

verus! {

/// An answer about a single coordinate holds of every map that the turfs seen so far can
/// be part of.
pub proof fn law_occupancy_decided(rules: GridRules, cells: Cells, world: World, c: Coord)
    requires
        agrees(cells, world),
        occupancy(rules, cells, c) is Ok,
    ensures
        occupancy(rules, cells, c)->Ok_0 == occupiable(rules, world, c),
{
}

/// An answer about a diagonal holds of every map that the turfs seen so far can be part
/// of: each of the two flags says that both cardinal steps of its detour are legal.
pub proof fn law_routes_decided(
    rules: GridRules,
    cells: Cells,
    world: World,
    from: Coord,
    to: Coord,
)
    requires
        agrees(cells, world),
        is_diagonal_step(from, to),
        routes(rules, cells, from, to) is Ok,
    ensures
        routes(rules, cells, from, to)->Ok_0.north_south_first == legal_detour(
            rules,
            world,
            from,
            (from.0, to.1),
            to,
        ),
        routes(rules, cells, from, to)->Ok_0.east_west_first == legal_detour(
            rules,
            world,
            from,
            (to.0, from.1),
            to,
        ),
{
}

proof fn lemma_step_decided(
    rules: GridRules,
    cells: Cells,
    world: World,
    source: TurfInfo,
    from: Coord,
    i: int,
)
    requires
        agrees(cells, world),
        is_interior(from),
        cells.contains_key(from),
        cells[from] == Some(source),
        0 <= i < STEP_COUNT,
        step_open(rules, cells, source, from, i) is Ok,
    ensures
        step_open(rules, cells, source, from, i)->Ok_0 == legal_step(
            rules,
            world,
            from,
            neighbour_at(from, i),
        ),
{
    law_neighbour_is_a_step(from, i);
    if i >= CARDINAL_COUNT {
        law_routes_decided(rules, cells, world, from, neighbour_at(from, i));
    }
}

/// Every open step among the first `n` is legal, and every legal one is among them.
proof fn lemma_open_steps_decided(
    rules: GridRules,
    cells: Cells,
    world: World,
    source: TurfInfo,
    from: Coord,
    n: nat,
)
    requires
        agrees(cells, world),
        is_interior(from),
        cells.contains_key(from),
        cells[from] == Some(source),
        n <= STEP_COUNT,
        open_steps(rules, cells, source, from, n) is Ok,
    ensures
        forall|j: int|
            #![trigger open_steps(rules, cells, source, from, n)->Ok_0[j]]
            0 <= j < open_steps(rules, cells, source, from, n)->Ok_0.len() ==> {
                let step = open_steps(rules, cells, source, from, n)->Ok_0[j];
                legal_step(rules, world, from, step.0) && step.1 == step_cost(from, step.0)
            },
        forall|i: int|
            0 <= i < n && legal_step(rules, world, from, #[trigger] neighbour_at(from, i)) ==> open_steps(
                rules,
                cells,
                source,
                from,
                n,
            )->Ok_0.contains(
                (neighbour_at(from, i), step_cost(from, neighbour_at(from, i)) as u32),
            ),
    decreases n,
{
    if n > 0 {
        lemma_open_steps_decided(rules, cells, world, source, from, (n - 1) as nat);
        lemma_step_decided(rules, cells, world, source, from, n - 1);
        let shorter = open_steps(rules, cells, source, from, (n - 1) as nat)->Ok_0;
        let longer = open_steps(rules, cells, source, from, n)->Ok_0;
        let to = neighbour_at(from, n - 1);
        let last = (to, step_cost(from, to) as u32);
        assert forall|i: int|
            0 <= i < n && legal_step(rules, world, from, #[trigger] neighbour_at(from, i)) implies longer.contains(
            (neighbour_at(from, i), step_cost(from, neighbour_at(from, i)) as u32),
        ) by {
            if i == n - 1 {
                assert(longer == shorter.push(last));
                assert(longer[shorter.len() as int] == last);
            } else {
                let wanted = (neighbour_at(from, i), step_cost(from, neighbour_at(from, i)) as u32);
                assert(shorter.contains(wanted));
                let k = choose|k: int| 0 <= k < shorter.len() && shorter[k] == wanted;
                assert(longer[k] == wanted);
            }
        }
    }
}

/// The successors of a coordinate hold of every map that the turfs seen so far can be part
/// of: they are exactly the legal steps, and each carries the cost of its step.
pub proof fn law_successors_decided(rules: GridRules, cells: Cells, world: World, from: Coord)
    requires
        agrees(cells, world),
        is_interior(from),
        successor_steps(rules, cells, from) is Ok,
    ensures
        forall|j: int|
            #![trigger successor_steps(rules, cells, from)->Ok_0[j]]
            0 <= j < successor_steps(rules, cells, from)->Ok_0.len() ==> {
                let step = successor_steps(rules, cells, from)->Ok_0[j];
                legal_step(rules, world, from, step.0) && step.1 == step_cost(from, step.0)
            },
        forall|to: Coord|
            #[trigger] legal_step(rules, world, from, to) ==> successor_steps(
                rules,
                cells,
                from,
            )->Ok_0.contains((to, step_cost(from, to) as u32)),
{
    match known(cells, from) {
        Ok(Some(source)) => {
            lemma_open_steps_decided(rules, cells, world, source, from, STEP_COUNT as nat);
            assert forall|to: Coord| #[trigger]
                legal_step(rules, world, from, to) implies successor_steps(
                rules,
                cells,
                from,
            )->Ok_0.contains((to, step_cost(from, to) as u32)) by {
                let i = law_steps_reach_every_neighbour(from, to);
                assert(legal_step(rules, world, from, neighbour_at(from, i)));
            }
        },
        _ => {},
    }
}

proof fn lemma_open_steps_lead_to_occupiable(
    rules: GridRules,
    cells: Cells,
    source: TurfInfo,
    from: Coord,
    n: nat,
    j: int,
)
    requires
        n <= STEP_COUNT,
        open_steps(rules, cells, source, from, n) is Ok,
        0 <= j < open_steps(rules, cells, source, from, n)->Ok_0.len(),
        known(cells, from) == Ok::<Option<TurfInfo>, UnknownTurf>(Some(source)),
    ensures
        occupancy(rules, cells, open_steps(rules, cells, source, from, n)->Ok_0[j].0) == Ok::<
            bool,
            UnknownTurf,
        >(true),
    decreases n,
{
    if n > 0 {
        let shorter = open_steps(rules, cells, source, from, (n - 1) as nat)->Ok_0;
        if j < shorter.len() {
            lemma_open_steps_lead_to_occupiable(rules, cells, source, from, (n - 1) as nat, j);
        }
    }
}

/// Every successor of a coordinate is one that the search is known to be allowed to stand
/// on.
pub proof fn law_successors_occupiable(rules: GridRules, cells: Cells, from: Coord, j: int)
    requires
        successor_steps(rules, cells, from) is Ok,
        0 <= j < successor_steps(rules, cells, from)->Ok_0.len(),
    ensures
        occupancy(rules, cells, successor_steps(rules, cells, from)->Ok_0[j].0) == Ok::<
            bool,
            UnknownTurf,
        >(true),
{
    match known(cells, from) {
        Ok(Some(source)) => {
            lemma_open_steps_lead_to_occupiable(rules, cells, source, from, STEP_COUNT as nat, j);
        },
        _ => {},
    }
}

/// A diagonal step is legal only if at least one two-cardinal way around its corner is.
pub proof fn law_diagonal_needs_a_detour(rules: GridRules, world: World, a: Coord, b: Coord)
    requires
        is_diagonal_step(a, b),
        legal_step(rules, world, a, b),
    ensures
        legal_detour(rules, world, a, (a.0, b.1), b) || legal_detour(
            rules,
            world,
            a,
            (b.0, a.1),
            b,
        ),
{
}

proof fn lemma_known_stays(cells: Cells, more: Cells, c: Coord)
    requires
        cells.submap_of(more),
        known(cells, c) is Ok,
    ensures
        known(more, c) == known(cells, c),
{
    assert(cells.dom().contains(c));
}

proof fn lemma_occupancy_stays(rules: GridRules, cells: Cells, more: Cells, c: Coord)
    requires
        cells.submap_of(more),
        occupancy(rules, cells, c) is Ok,
    ensures
        occupancy(rules, more, c) == occupancy(rules, cells, c),
{
    if known(cells, c) is Ok {
        lemma_known_stays(cells, more, c);
    }
}

proof fn lemma_detour_stays(
    rules: GridRules,
    cells: Cells,
    more: Cells,
    source: TurfInfo,
    first: i32,
    via: Coord,
    second: i32,
    to: Coord,
)
    requires
        cells.submap_of(more),
        detour(rules, cells, source, first, via, second, to) is Ok,
    ensures
        detour(rules, more, source, first, via, second, to) == detour(
            rules,
            cells,
            source,
            first,
            via,
            second,
            to,
        ),
{
    if occupancy(rules, cells, via) is Ok {
        lemma_occupancy_stays(rules, cells, more, via);
    }
    if known(cells, via) is Ok {
        lemma_known_stays(cells, more, via);
    }
    if occupancy(rules, cells, to) is Ok {
        lemma_occupancy_stays(rules, cells, more, to);
    }
}

/// Seeing more turfs never changes the routes of a diagonal that were known already.
pub proof fn law_routes_stay(
    rules: GridRules,
    cells: Cells,
    more: Cells,
    from: Coord,
    to: Coord,
)
    requires
        cells.submap_of(more),
        routes(rules, cells, from, to) is Ok,
    ensures
        routes(rules, more, from, to) == routes(rules, cells, from, to),
{
    lemma_known_stays(cells, more, from);
    match known(cells, from) {
        Ok(Some(source)) => {
            let vertical = crate::grid::vertical_direction(from, to);
            let horizontal = crate::grid::horizontal_direction(from, to);
            lemma_detour_stays(
                rules,
                cells,
                more,
                source,
                vertical,
                (from.0, to.1),
                horizontal,
                to,
            );
            lemma_detour_stays(
                rules,
                cells,
                more,
                source,
                horizontal,
                (to.0, from.1),
                vertical,
                to,
            );
        },
        _ => {},
    }
}

proof fn lemma_open_steps_stay(
    rules: GridRules,
    cells: Cells,
    more: Cells,
    source: TurfInfo,
    from: Coord,
    n: nat,
)
    requires
        cells.submap_of(more),
        open_steps(rules, cells, source, from, n) is Ok,
    ensures
        open_steps(rules, more, source, from, n) == open_steps(rules, cells, source, from, n),
    decreases n,
{
    if n > 0 {
        lemma_open_steps_stay(rules, cells, more, source, from, (n - 1) as nat);
        let to = neighbour_at(from, n - 1);
        if occupancy(rules, cells, to) is Ok {
            lemma_occupancy_stays(rules, cells, more, to);
        }
        if routes(rules, cells, from, to) is Ok {
            law_routes_stay(rules, cells, more, from, to);
        }
    }
}

/// Seeing more turfs never changes the successors of a coordinate, nor whether the search
/// may stand on one, where that was known already.
pub proof fn law_answers_stay(rules: GridRules, cells: Cells, more: Cells, c: Coord)
    requires
        cells.submap_of(more),
    ensures
        successor_steps(rules, cells, c) is Ok ==> successor_steps(rules, more, c)
            == successor_steps(rules, cells, c),
        occupancy(rules, cells, c) is Ok ==> occupancy(rules, more, c) == occupancy(
            rules,
            cells,
            c,
        ),
{
    if occupancy(rules, cells, c) is Ok {
        lemma_occupancy_stays(rules, cells, more, c);
    }
    if successor_steps(rules, cells, c) is Ok {
        lemma_known_stays(cells, more, c);
        match known(cells, c) {
            Ok(Some(source)) => {
                lemma_open_steps_stay(rules, cells, more, source, c, STEP_COUNT as nat);
            },
            _ => {},
        }
    }
}

proof fn lemma_open_steps_know_routes(
    rules: GridRules,
    cells: Cells,
    source: TurfInfo,
    from: Coord,
    n: nat,
    i: int,
)
    requires
        open_steps(rules, cells, source, from, n) is Ok,
        CARDINAL_COUNT <= i < n,
    ensures
        routes(rules, cells, from, neighbour_at(from, i)) is Ok,
    decreases n,
{
    if i < n - 1 {
        lemma_open_steps_know_routes(rules, cells, source, from, (n - 1) as nat, i);
    }
}

/// Once the successors of a coordinate are known, so are the routes of every diagonal that
/// leaves it.
pub proof fn law_successors_know_routes(rules: GridRules, cells: Cells, from: Coord, to: Coord)
    requires
        is_interior(from),
        is_diagonal_step(from, to),
        successor_steps(rules, cells, from) is Ok,
    ensures
        routes(rules, cells, from, to) is Ok,
{
    match known(cells, from) {
        Ok(Some(source)) => {
            let i = law_steps_reach_every_neighbour(from, to);
            lemma_open_steps_know_routes(rules, cells, source, from, STEP_COUNT as nat, i);
        },
        _ => {},
    }
}

/// Whatever a grid asks for, it has not seen yet.
pub proof fn law_unknown_turf_was_not_seen(rules: GridRules, cells: Cells, c: Coord)
    ensures
        occupancy(rules, cells, c) matches Err(e) ==> !cells.contains_key(e.coord),
        successor_steps(rules, cells, c) matches Err(e) ==> !cells.contains_key(e.coord),
{
    match known(cells, c) {
        Ok(Some(source)) => {
            lemma_open_steps_unknown(rules, cells, source, c, STEP_COUNT as nat);
        },
        _ => {},
    }
}

proof fn lemma_open_steps_unknown(
    rules: GridRules,
    cells: Cells,
    source: TurfInfo,
    from: Coord,
    n: nat,
)
    ensures
        open_steps(rules, cells, source, from, n) matches Err(e) ==> !cells.contains_key(e.coord),
    decreases n,
{
    if n > 0 {
        lemma_open_steps_unknown(rules, cells, source, from, (n - 1) as nat);
    }
}

} // verus!
