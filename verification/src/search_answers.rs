//! What a search answers on a given map: a cheapest route where there is one, and nothing else.
use vstd::prelude::*;
use crate::coord::{is_interior, range_heuristic, Coord};
use crate::coord_map::coord_key;
use crate::direction::STEP_COUNT;
use crate::grid::{
    agrees, known, occupancy, open_steps, successor_steps, Cells, GridRules, TurfInfo, World,
};
use crate::grid_laws::{law_occupancy_decided, law_successors_occupiable};
use crate::map_laws::within;
use crate::path::routes_known;
use crate::queue::{is_first, QueueEntry};
use crate::search_laws::{
    law_empty_frontier_means_no_route, law_forbidden_start_means_no_route, law_found_route_is_best,
    law_trace_knows_routes, lemma_same_knowledge, lemma_start,
    lemma_successor_is_step,
};
use crate::search_model::{
    is_route, is_trace, route_cost, traced_leg, JobView, Move, Phase, SearchState,
};
use crate::search_progress::{
    coord_at, coord_count, law_answers_keep_the_invariant, law_moves_keep_the_invariant,
    law_queue_has_a_first_entry, lemma_coord_at, lemma_push_drops_slack, total_slack,
};
use crate::search_runs::{resumed, run, Tick};

verus! {

/// The farthest that one coordinate can lie from another, by the heuristic.
pub open spec fn farthest() -> int {
    917_490
}

/// How many turfs a map can have at most for the costs of its routes to fit: two to the 28th.
pub open spec fn turf_limit() -> nat {
    0x1000_0000
}

/// How many of the first `n` coordinates have a turf.
pub open spec fn turf_count(world: World, n: nat) -> nat
    decreases n,
{
    if n == 0 {
        0
    } else {
        turf_count(world, (n - 1) as nat) + (if world(coord_at((n - 1) as nat)) is Some {
            1nat
        } else {
            0nat
        })
    }
}

/// The map is one that a search can get around: no turf lies at the rim of the coordinates,
/// and there are no more turfs than costs can tell.
pub open spec fn is_map(world: World) -> bool {
    &&& forall|c: Coord|
        (#[trigger] world(c)) is Some ==> -32768 < c.0 < 32767 && -32768 < c.1 < 32767
    &&& turf_count(world, coord_count()) <= turf_limit()
}

/// How many of the first `n` coordinates were reached.
pub open spec fn reached(costs: Map<Coord, u32>, n: nat) -> nat
    decreases n,
{
    if n == 0 {
        0
    } else {
        reached(costs, (n - 1) as nat) + (if costs.contains_key(coord_at((n - 1) as nat)) {
            1nat
        } else {
            0nat
        })
    }
}

/// All coordinates that were reached, together.
pub open spec fn all_reached(costs: Map<Coord, u32>) -> nat {
    reached(costs, coord_count())
}

/// No number of a search comes near the end of its type: what was reached has a turf, no cost
/// is more than a walk over everything that was reached, and every push lowered a cost.
pub open spec fn in_bounds(s: SearchState, world: World) -> bool {
    &&& forall|c: Coord| #[trigger] s.costs.contains_key(c) ==> world(c) is Some
    &&& forall|c: Coord| #[trigger]
        s.costs.contains_key(c) ==> s.costs[c] + 14 <= 14 * all_reached(s.costs)
    &&& s.sequence + total_slack(s.costs, coord_count()) <= 0x1_0000_0000_0000_0000
}

/// A search on a map keeps its promises and stays in bounds.
pub open spec fn on_map(v: JobView, world: World) -> bool {
    &&& v.inv()
    &&& agrees(v.cells, world)
    &&& v.min_target_distance >= 0
    &&& v.phase is Searching || v.phase is Expanding ==> in_bounds(v.state, world)
}

proof fn lemma_reached_insert(costs: Map<Coord, u32>, c: Coord, cost: u32, n: nat)
    requires
        n <= coord_count(),
    ensures
        costs.contains_key(c) || n <= coord_key(c) ==> reached(costs.insert(c, cost), n) == reached(
            costs,
            n,
        ),
        !costs.contains_key(c) && n > coord_key(c) ==> reached(costs.insert(c, cost), n) == reached(
            costs,
            n,
        ) + 1,
    decreases n,
{
    if n > 0 {
        lemma_reached_insert(costs, c, cost, (n - 1) as nat);
        lemma_coord_at(c, (n - 1) as nat);
    }
}

proof fn lemma_reached_has_turfs(costs: Map<Coord, u32>, world: World, n: nat)
    requires
        forall|c: Coord| #[trigger] costs.contains_key(c) ==> world(c) is Some,
    ensures
        reached(costs, n) <= turf_count(world, n),
    decreases n,
{
    if n > 0 {
        lemma_reached_has_turfs(costs, world, (n - 1) as nat);
    }
}

proof fn lemma_slack_of_the_unreached(costs: Map<Coord, u32>, c: Coord, n: nat)
    requires
        !costs.contains_key(c),
        n <= coord_count(),
    ensures
        n > coord_key(c) ==> total_slack(costs, n) >= 0x1_0000_0000,
    decreases n,
{
    if n > 0 {
        lemma_slack_of_the_unreached(costs, c, (n - 1) as nat);
        lemma_coord_at(c, (n - 1) as nat);
    }
}

proof fn lemma_slack_of_nothing(n: nat)
    ensures
        total_slack(Map::<Coord, u32>::empty(), n) == 0x1_0000_0000 * n,
        reached(Map::<Coord, u32>::empty(), n) == 0,
    decreases n,
{
    if n > 0 {
        lemma_slack_of_nothing((n - 1) as nat);
    }
}

/// Queueing a coordinate that was reached at a bounded cost fits, and stays in bounds.
proof fn lemma_push_in_bounds(v: JobView, s: SearchState, world: World, c: Coord, cost: int)
    requires
        is_map(world),
        in_bounds(s, world),
        world(c) is Some,
        v.min_target_distance >= 0,
        0 <= cost <= 14 * all_reached(s.costs),
        v.improves(s, c, cost),
    ensures
        cost + farthest() <= u32::MAX,
        v.push_fits(s, c, cost),
        in_bounds(v.pushed(s, c, cost), world),
        all_reached(v.pushed(s, c, cost).costs) >= all_reached(s.costs),
{
    lemma_reached_has_turfs(s.costs, world, coord_count());
    let rim: Coord = (-32768i16, -32768i16);
    assert(!(world(rim) is Some));
    assert(!s.costs.contains_key(rim));
    lemma_coord_at(rim, 0);
    lemma_slack_of_the_unreached(s.costs, rim, coord_count());
    lemma_push_drops_slack(v, s, c, cost);
    lemma_coord_at(c, 0);
    lemma_reached_insert(s.costs, c, cost as u32, coord_count());
    let t = v.pushed(s, c, cost);
    assert(t.costs == s.costs.insert(c, cost as u32));
    assert forall|d: Coord| #[trigger] t.costs.contains_key(d) implies t.costs[d] + 14 <= 14
        * all_reached(t.costs) by {
        if d != c {
            assert(s.costs.contains_key(d));
        } else if s.costs.contains_key(c) {
            assert(s.costs[c] + 14 <= 14 * all_reached(s.costs));
        }
    }
}

/// Looking at the first `k` successors in turn leaves no number out of its type.
proof fn lemma_relaxed_all_in_bounds(
    v: JobView,
    s: SearchState,
    world: World,
    e: QueueEntry,
    steps: Seq<(Coord, u32)>,
    k: int,
)
    requires
        is_map(world),
        in_bounds(s, world),
        v.min_target_distance >= 0,
        e.cost + 14 <= 14 * all_reached(s.costs),
        0 <= k <= steps.len(),
        forall|j: int|
            0 <= j < steps.len() ==> world((#[trigger] steps[j]).0) is Some && steps[j].1 <= 14,
    ensures
        v.relaxed_all(s, e, steps.take(k)).1,
        in_bounds(v.relaxed_all(s, e, steps.take(k)).0, world),
        all_reached(v.relaxed_all(s, e, steps.take(k)).0.costs) >= all_reached(s.costs),
    decreases k,
{
    if k > 0 {
        let shorter = steps.take(k - 1);
        assert(steps.take(k).drop_last() =~= shorter);
        assert(steps.take(k).last() == steps[k - 1]);
        lemma_relaxed_all_in_bounds(v, s, world, e, steps, k - 1);
        let t = v.relaxed_all(s, e, shorter).0;
        let step = steps[k - 1];
        let cost = e.cost + step.1;
        lemma_reached_has_turfs(t.costs, world, coord_count());
        if v.improves(t, step.0, cost) {
            let linked = SearchState { previous: t.previous.insert(step.0, e.coord), ..t };
            lemma_push_in_bounds(v, linked, world, step.0, cost);
        }
    }
}

proof fn lemma_expand_in_bounds(v: JobView, s: SearchState, world: World, e: QueueEntry)
    requires
        is_map(world),
        agrees(v.cells, world),
        v.min_target_distance >= 0,
        in_bounds(s, world),
        v.is_current(s, e),
    ensures
        !(v.expand(s, e).1 is OutOfRange),
        in_bounds(v.expand(s, e).0.state, world),
        v.expand(s, e).0.cells == v.cells,
        v.expand(s, e).0.min_target_distance == v.min_target_distance,
{
    assert(world(e.coord) is Some);
    match successor_steps(v.rules, v.cells, e.coord) {
        Err(_) => {},
        Ok(steps) => {
            assert forall|j: int| 0 <= j < steps.len() implies world((#[trigger] steps[j]).0) is Some
                && steps[j].1 <= 14 by {
                lemma_successor_is_step(v.rules, v.cells, e.coord, j);
                law_successors_occupiable(v.rules, v.cells, e.coord, j);
                law_occupancy_decided(v.rules, v.cells, world, steps[j].0);
            }
            assert(steps.take(steps.len() as int) =~= steps);
            lemma_relaxed_all_in_bounds(v, s, world, e, steps, steps.len() as int);
        },
    }
}

proof fn lemma_take_next_in_bounds(v: JobView, s: SearchState, world: World, now: u64)
    requires
        is_map(world),
        agrees(v.cells, world),
        v.min_target_distance >= 0,
        in_bounds(s, world),
    ensures
        !(v.take_next(s, now).1 is OutOfRange),
        in_bounds(v.take_next(s, now).0.state, world),
        v.take_next(s, now).0.cells == v.cells,
        v.take_next(s, now).0.min_target_distance == v.min_target_distance,
{
    let e = JobView::next_entry(s);
    let t = SearchState { frontier: s.frontier.remove(e), ..s };
    if v.is_current(t, e) {
        lemma_expand_in_bounds(v, t, world, e);
    }
}

/// The first push of a search fits, and is in bounds.
proof fn lemma_first_push_in_bounds(v: JobView, world: World)
    requires
        is_map(world),
        v.state == SearchState::empty(),
        v.min_target_distance >= 0,
        world(v.rules.start) is Some,
    ensures
        v.push_fits(v.state, v.rules.start, 0),
        in_bounds(v.pushed(v.state, v.rules.start, 0), world),
{
    lemma_slack_of_nothing(coord_count());
    lemma_push_in_bounds(v, v.state, world, v.rules.start, 0);
}

/// On a map, no move of a search leaves the range of a number, and the search stays on the map.
pub proof fn law_moves_stay_on_the_map(v: JobView, world: World, now: u64)
    requires
        is_map(world),
        on_map(v, world),
    ensures
        !(v.step(now).1 is OutOfRange),
        on_map(v.step(now).0, world),
{
    law_moves_keep_the_invariant(v, now);
    match v.phase {
        Phase::Fresh => {
            match occupancy(v.rules, v.cells, v.rules.start) {
                Ok(true) => {
                    law_occupancy_decided(v.rules, v.cells, world, v.rules.start);
                    lemma_first_push_in_bounds(v, world);
                    lemma_take_next_in_bounds(
                        v,
                        v.pushed(v.state, v.rules.start, 0),
                        world,
                        now,
                    );
                },
                _ => {},
            }
        },
        Phase::Searching => lemma_take_next_in_bounds(v, v.state, world, now),
        Phase::Expanding(e) => lemma_expand_in_bounds(v, v.state, world, e),
        Phase::Finished => {},
    }
}

/// Recording what the map says of a turf keeps a search on the map.
pub proof fn law_answers_stay_on_the_map(v: JobView, world: World, c: Coord)
    requires
        on_map(v, world),
    ensures
        on_map(v.resolved(c, world(c)), world),
{
    law_answers_keep_the_invariant(v, c, world(c));
}

/// The coordinate lies at the rim: not all of its neighbours can be written down.
pub open spec fn at_rim(c: Coord) -> bool {
    c.0 == -32768 || c.0 == 32767 || c.1 == -32768 || c.1 == 32767
}

/// A step from `from`, reached at `cost`, to its neighbour `to` costs too much, or is estimated
/// to lead on at a cost that is too much, for a number of 32 bits.
pub open spec fn costs_too_much(v: JobView, from: Coord, cost: int, to: Coord) -> bool {
    &&& within(from, to, 1)
    &&& cost + (if from.0 != to.0 && from.1 != to.1 {
        14int
    } else {
        10
    }) + range_heuristic(to, v.goal, v.min_target_distance as int) > 0xffff_ffff
}

/// The coordinate was reached at `cost`, or is where a fresh search starts.
pub open spec fn reached_at(v: JobView, c: Coord, cost: int) -> bool {
    ||| v.state.costs.contains_key(c) && v.state.costs[c] == cost
    ||| v.phase is Fresh && c == v.rules.start && cost == 0
}

proof fn lemma_open_steps_count(rules: GridRules, cells: Cells, source: TurfInfo, from: Coord, n: nat)
    ensures
        open_steps(rules, cells, source, from, n) matches Ok(steps) ==> steps.len() <= n,
    decreases n,
{
    if n > 0 {
        lemma_open_steps_count(rules, cells, source, from, (n - 1) as nat);
    }
}

/// Where looking at successors ends early, one of them has a number that leaves its type.
proof fn lemma_relaxed_all_incomplete(
    v: JobView,
    s: SearchState,
    e: QueueEntry,
    steps: Seq<(Coord, u32)>,
) -> (j: int)
    ensures
        v.relaxed_all(s, e, steps).0.sequence <= s.sequence + steps.len(),
        !v.relaxed_all(s, e, steps).1 ==> 0 <= j < steps.len() && (s.sequence + steps.len()
            >= u64::MAX || e.cost + steps[j].1 + range_heuristic(
            steps[j].0,
            v.goal,
            v.min_target_distance as int,
        ) > u32::MAX),
    decreases steps.len(),
{
    if steps.len() == 0 {
        0
    } else {
        let j = lemma_relaxed_all_incomplete(v, s, e, steps.drop_last());
        if v.relaxed_all(s, e, steps.drop_last()).1 {
            steps.len() - 1
        } else {
            j
        }
    }
}

proof fn lemma_expand_out_of_range(v: JobView, s: SearchState, e: QueueEntry)
    requires
        v.expand(s, e).1 is OutOfRange,
    ensures
        at_rim(e.coord) || s.sequence + 8 >= u64::MAX || exists|to: Coord| #[trigger]
            costs_too_much(v, e.coord, e.cost as int, to),
{
    if is_interior(e.coord) {
        let steps = successor_steps(v.rules, v.cells, e.coord)->Ok_0;
        match known(v.cells, e.coord) {
            Ok(Some(source)) => lemma_open_steps_count(
                v.rules,
                v.cells,
                source,
                e.coord,
                STEP_COUNT as nat,
            ),
            _ => {},
        }
        let j = lemma_relaxed_all_incomplete(v, s, e, steps);
        lemma_successor_is_step(v.rules, v.cells, e.coord, j);
        if s.sequence + 8 < u64::MAX {
            assert(costs_too_much(v, e.coord, e.cost as int, steps[j].0));
        }
    }
}

/// A search says that a number leaves its range only where one does: a coordinate that was
/// reached lies at the rim, the costs from one on do not fit 32 bits, or the count of queued
/// coordinates is about to leave 64 bits.
pub proof fn law_out_of_range_is_true(v: JobView, now: u64)
    requires
        v.inv(),
        v.step(now).1 is OutOfRange,
    ensures
        ({
            ||| v.state.sequence + 9 >= 0xffff_ffff_ffff_ffff
            ||| v.phase is Fresh && range_heuristic(
                v.rules.start,
                v.goal,
                v.min_target_distance as int,
            ) > 0xffff_ffff
            ||| exists|c: Coord, cost: int| #[trigger] reached_at(v, c, cost) && at_rim(c)
            ||| exists|c: Coord, cost: int, to: Coord|
                #[trigger] reached_at(v, c, cost) && #[trigger] costs_too_much(v, c, cost, to)
        }),
{
    let s = match v.phase {
        Phase::Fresh => v.pushed(v.state, v.rules.start, 0),
        _ => v.state,
    };
    let e = match v.phase {
        Phase::Expanding(e) => e,
        _ => JobView::next_entry(s),
    };
    let t = match v.phase {
        Phase::Expanding(_) => s,
        _ => SearchState { frontier: s.frontier.remove(e), ..s },
    };
    if !(v.phase is Fresh) || v.push_fits(v.state, v.rules.start, 0) {
        lemma_expand_out_of_range(v, t, e);
        assert(reached_at(v, e.coord, e.cost as int));
    }
}

/// Following `previous` back from a reached coordinate leads somewhere.
proof fn lemma_trace_exists(v: JobView, c: Coord) -> (path: Seq<Coord>)
    requires
        v.inv_linked(),
        v.state.costs.contains_key(c),
    ensures
        is_trace(v.state.previous, path, c),
    decreases v.state.costs[c],
{
    if v.state.previous.contains_key(c) {
        assert(v.is_linked(c));
        let p = v.state.previous[c];
        let shorter = lemma_trace_exists(v, p);
        let path = shorter.push(c);
        assert forall|i: int| 0 <= i < path.len() - 1 implies #[trigger] traced_leg(
            v.state.previous,
            path,
            i,
        ) by {
            if i < shorter.len() - 1 {
                assert(traced_leg(v.state.previous, shorter, i));
            }
        }
        path
    } else {
        seq![c]
    }
}

/// What a search is asked for, and has to stay.
pub open spec fn same_request(v: JobView, w: JobView) -> bool {
    &&& w.rules == v.rules
    &&& w.goal == v.goal
    &&& w.min_target_distance == v.min_target_distance
    &&& w.z == v.z
    &&& w.pass_flags == v.pass_flags
    &&& w.is_flying == v.is_flying
    &&& w.diagonal_handling == v.diagonal_handling
    &&& w.skip_first == v.skip_first
}

/// The nodes are a cheapest route on the map, and the ways of their diagonals are known.
pub open spec fn is_answer(v: JobView, world: World, nodes: Seq<Coord>, c: Coord) -> bool {
    &&& is_trace(v.state.previous, nodes, c)
    &&& is_route(v.rules, world, v.goal, v.min_target_distance as int, nodes)
    &&& forall|other: Seq<Coord>| #[trigger]
        is_route(v.rules, world, v.goal, v.min_target_distance as int, other) ==> route_cost(nodes)
            <= route_cost(other)
    &&& routes_known(v.rules, v.cells, nodes)
}

/// The search ended with the truth about the map.
pub open spec fn ends_truly(v: JobView, m: Move, world: World) -> bool {
    match m {
        Move::Found(c) => exists|nodes: Seq<Coord>| #[trigger] is_answer(v, world, nodes, c),
        Move::NoPath => forall|path: Seq<Coord>|
            !#[trigger] is_route(v.rules, world, v.goal, v.min_target_distance as int, path),
        _ => false,
    }
}

proof fn lemma_take_next_ends_truly(v: JobView, s: SearchState, world: World, now: u64)
    requires
        (JobView { state: s, phase: Phase::Searching, ..v }).inv_search(None),
        agrees(v.cells, world),
        v.take_next(s, now).1 is Found || v.take_next(s, now).1 is NoPath,
    ensures
        ends_truly(v.take_next(s, now).0, v.take_next(s, now).1, world),
{
    let here = JobView { state: s, phase: Phase::Searching, ..v };
    let (w, m) = v.take_next(s, now);
    let e = JobView::next_entry(s);
    let t = SearchState { frontier: s.frontier.remove(e), ..s };
    if s.frontier.len() == 0 {
        law_empty_frontier_means_no_route(here);
        assert forall|path: Seq<Coord>| !#[trigger] is_route(
            w.rules,
            world,
            w.goal,
            w.min_target_distance as int,
            path,
        ) by {
            assert(agrees(here.cells, world));
        }
    } else {
        lemma_expand_goes_on(v, t, e);
        law_queue_has_a_first_entry(s.frontier);
        assert(is_first(s.frontier, e));
        let nodes = lemma_trace_exists(here, e.coord);
        law_found_route_is_best(here, e, nodes);
        law_trace_knows_routes(here, None, nodes, e.coord);
        assert(is_answer(w, world, nodes, m->Found_0));
    }
}

proof fn lemma_expand_goes_on(v: JobView, s: SearchState, e: QueueEntry)
    ensures
        !(v.expand(s, e).1 is Found),
        !(v.expand(s, e).1 is NoPath),
{
}

/// The move that ends a search on a map ends it truly.
pub proof fn law_last_move_tells_the_truth(v: JobView, world: World, now: u64)
    requires
        is_map(world),
        on_map(v, world),
        !(v.phase is Finished),
        v.step(now).1 is Found || v.step(now).1 is NoPath,
    ensures
        ends_truly(v.step(now).0, v.step(now).1, world),
{
    match v.phase {
        Phase::Fresh => {
            match occupancy(v.rules, v.cells, v.rules.start) {
                Ok(true) => {
                    let s = v.pushed(v.state, v.rules.start, 0);
                    lemma_start(JobView { state: s, phase: Phase::Searching, ..v });
                    lemma_take_next_ends_truly(v, s, world, now);
                },
                _ => law_forbidden_start_means_no_route(v),
            }
        },
        Phase::Searching => {
            assert(v =~= JobView { state: v.state, phase: Phase::Searching, ..v });
            lemma_take_next_ends_truly(v, v.state, world, now);
        },
        Phase::Expanding(e) => lemma_expand_goes_on(v, v.state, e),
        Phase::Finished => {},
    }
}

/// A run over a map ends with the truth about it, however it is cut into slices: with a
/// cheapest route, or without a path where there is no route.
pub proof fn law_run_tells_the_truth(v: JobView, world: World, ticks: Seq<Tick>)
    requires
        is_map(world),
        on_map(v, world),
        !(v.phase is Finished),
        run(v, world, ticks) is Some,
    ensures
        ({
            let (w, m) = run(v, world, ticks)->0;
            &&& same_request(v, w)
            &&& agrees(w.cells, world)
            &&& ends_truly(w, m, world)
        }),
    decreases ticks.len(),
{
    let now = ticks[0].now;
    let rest = ticks.drop_first();
    let (w, m) = v.step(now);
    law_moves_stay_on_the_map(v, world, now);
    match m {
        Move::Resolve(c) => {
            law_answers_stay_on_the_map(w, world, c);
            law_run_tells_the_truth(w.resolved(c, world(c)), world, rest);
        },
        Move::Advanced => law_run_tells_the_truth(w, world, rest),
        Move::InProgress => {
            let r = resumed(w, ticks[0].resumed_at);
            match w.phase {
                Phase::Searching => lemma_same_knowledge(w, r, None),
                Phase::Expanding(e) => lemma_same_knowledge(w, r, Some(e)),
                _ => {},
            }
            law_run_tells_the_truth(r, world, rest);
        },
        _ => law_last_move_tells_the_truth(v, world, now),
    }
}

} // verus!
