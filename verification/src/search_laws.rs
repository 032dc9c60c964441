//! Why the moves of a search lead to a best route.
use vstd::prelude::*;
use crate::coord::{
    is_cardinal_step, is_diagonal_step, is_interior, law_heuristic_consistent, range_heuristic,
    step_cost, Coord,
};
use crate::grid::{
    agrees, legal_step, occupancy, successor_steps, Cells, GridRules, TurfInfo, UnknownTurf, World,
};
use crate::grid_laws::{
    law_answers_stay, law_occupancy_decided, law_successors_decided, law_successors_know_routes,
    law_successors_occupiable, law_unknown_turf_was_not_seen,
};
use crate::path::{
    bends, cardinal_chain, known_expansion, law_known_path_is_handed_out, leg_known, legal_chain,
    legal_leg, routes_known, DiagonalHandling,
};
use crate::queue::{is_first, precedes, QueueEntry};
use crate::search_model::{
    is_route, is_trace, route_cost, traced_leg, JobView, Move, Phase, SearchState, SLICE_BUDGET,
};

verus! {

/// Queueing the start of a fresh search establishes the invariant.
pub(crate) proof fn lemma_start(v: JobView)
    requires
        v.state == v.pushed(SearchState::empty(), v.rules.start, 0),
        v.push_fits(SearchState::empty(), v.rules.start, 0),
        occupancy(v.rules, v.cells, v.rules.start) == Ok::<bool, UnknownTurf>(true),
    ensures
        v.inv_search(None),
{
    let e = QueueEntry {
        coord: v.rules.start,
        cost: 0,
        estimate: v.estimate(v.rules.start, 0) as u32,
        sequence: 1,
    };
    assert(v.queued(None, e));
    assert forall|f: QueueEntry| #[trigger] v.state.frontier.contains(f) implies f == e by {
        assert(v.state.frontier.count(f) > 0);
    }
    assert(v.is_open(None, v.rules.start));
}

/// Seeing one more turf keeps the invariant.
pub(crate) proof fn lemma_resolved(v: JobView, w: JobView, taken: Option<QueueEntry>)
    requires
        v.inv_search(taken),
        v.cells.submap_of(w.cells),
        w == (JobView { cells: w.cells, ..v }),
    ensures
        w.inv_search(taken),
{
    assert forall|c: Coord| #[trigger] w.state.costs.contains_key(c) implies occupancy(
        w.rules,
        w.cells,
        c,
    ) == Ok::<bool, UnknownTurf>(true) by {
        law_answers_stay(v.rules, v.cells, w.cells, c);
    }
    assert forall|c: Coord| #[trigger] w.state.previous.contains_key(c) implies w.is_linked(c) by {
        assert(v.is_linked(c));
        law_answers_stay(v.rules, v.cells, w.cells, v.state.previous[c]);
    }
    assert forall|c: Coord| #[trigger] w.state.costs.contains_key(c) implies w.is_open(taken, c)
        || w.is_closed(c) by {
        if v.is_open(taken, c) {
            let e = choose|e: QueueEntry| #[trigger]
                v.queued(taken, e) && e.coord == c && e.cost == v.state.costs[c];
            assert(w.queued(taken, e));
        } else {
            assert(v.is_closed(c));
            law_answers_stay(v.rules, v.cells, w.cells, c);
            let steps = successor_steps(v.rules, v.cells, c)->Ok_0;
            assert(w.no_news_over(c, steps, steps.len() as int));
        }
    }
    assert forall|e: QueueEntry| #[trigger] w.queued(taken, e) implies w.entry_ok(e) by {
        assert(v.queued(taken, e));
    }
}

/// The invariant does not depend on the phase or on time.
pub(crate) proof fn lemma_same_knowledge(v: JobView, w: JobView, taken: Option<QueueEntry>)
    requires
        v.inv_search(taken),
        w.rules == v.rules,
        w.cells == v.cells,
        w.goal == v.goal,
        w.min_target_distance == v.min_target_distance,
        w.state == v.state,
    ensures
        w.inv_search(taken),
{
    lemma_same_knowledge_entries(v, w, taken);
    assert forall|c: Coord| #[trigger] w.state.previous.contains_key(c) implies w.is_linked(c) by {
        assert(v.is_linked(c));
    }
    assert forall|c: Coord| #[trigger] w.state.costs.contains_key(c) implies w.is_open(taken, c)
        || w.is_closed(c) by {
        if v.is_open(taken, c) {
            let e = choose|e: QueueEntry| #[trigger]
                v.queued(taken, e) && e.coord == c && e.cost == v.state.costs[c];
            assert(w.queued(taken, e));
        } else {
            assert(v.is_closed(c));
            let steps = successor_steps(v.rules, v.cells, c)->Ok_0;
            assert(w.no_news_over(c, steps, steps.len() as int));
        }
    }
}

proof fn lemma_same_knowledge_entries(v: JobView, w: JobView, taken: Option<QueueEntry>)
    requires
        v.inv_entries(taken),
        w.goal == v.goal,
        w.min_target_distance == v.min_target_distance,
        w.state == v.state,
    ensures
        w.inv_entries(taken),
{
    assert forall|e: QueueEntry| #[trigger] w.queued(taken, e) implies w.entry_ok(e) by {
        assert(v.queued(taken, e));
    }
}

/// Taking an entry from the frontier keeps the invariant, when the entry is kept as taken or
/// does not carry the least known cost.
pub(crate) proof fn lemma_taken(v: JobView, w: JobView, e: QueueEntry, taken: Option<QueueEntry>)
    requires
        v.inv_search(None),
        v.state.frontier.contains(e),
        w.rules == v.rules,
        w.cells == v.cells,
        w.goal == v.goal,
        w.min_target_distance == v.min_target_distance,
        w.state == (SearchState { frontier: v.state.frontier.remove(e), ..v.state }),
        taken == Some(e) || (taken is None && !v.is_current(v.state, e)),
    ensures
        w.inv_search(taken),
{
    assert(v.queued(None, e));
    assert forall|f: QueueEntry| #[trigger] w.state.frontier.contains(f) implies v.state.frontier.contains(
        f,
    ) by {
        assert(w.state.frontier.count(f) > 0);
    }
    assert forall|f: QueueEntry| #[trigger] v.state.frontier.contains(f) && f
        != e implies w.state.frontier.contains(f) by {
        assert(v.state.frontier.count(f) > 0);
    }
    assert forall|f: QueueEntry| #[trigger] w.queued(taken, f) implies w.entry_ok(f) by {
        assert(v.queued(None, f));
    }
    assert forall|f: QueueEntry| #[trigger] w.state.frontier.count(f) <= 1 by {
        assert(v.state.frontier.count(f) <= 1);
    }
    assert forall|c: Coord| #[trigger] w.state.previous.contains_key(c) implies w.is_linked(c) by {
        assert(v.is_linked(c));
    }
    assert forall|c: Coord| #[trigger] w.state.costs.contains_key(c) implies w.is_open(taken, c)
        || w.is_closed(c) by {
        if v.is_open(None, c) {
            let f = choose|f: QueueEntry| #[trigger]
                v.queued(None, f) && f.coord == c && f.cost == v.state.costs[c];
            assert(w.queued(taken, f));
        } else {
            assert(v.is_closed(c));
            let steps = successor_steps(v.rules, v.cells, c)->Ok_0;
            assert(w.no_news_over(c, steps, steps.len() as int));
        }
    }
}

/// The successors of an interior coordinate are its neighbours, at the cost of a step.
pub(crate) proof fn lemma_successor_is_step(rules: GridRules, cells: Cells, from: Coord, j: int)
    requires
        is_interior(from),
        successor_steps(rules, cells, from) is Ok,
        0 <= j < successor_steps(rules, cells, from)->Ok_0.len(),
    ensures
        ({
            let step = successor_steps(rules, cells, from)->Ok_0[j];
            &&& is_cardinal_step(from, step.0) || is_diagonal_step(from, step.0)
            &&& step.1 == step_cost(from, step.0)
        }),
{
    let world: World = |c: Coord|
        if cells.contains_key(c) {
            cells[c]
        } else {
            None
        };
    law_successors_decided(rules, cells, world, from);
    let step = successor_steps(rules, cells, from)->Ok_0[j];
    assert(legal_step(rules, world, from, step.0));
}

/// Looking at one successor keeps the invariant, and is what makes going over the taken
/// entry no news for that successor.
pub(crate) proof fn lemma_relaxed(v: JobView, w: JobView, e: QueueEntry, j: int)
    requires
        v.inv_search(Some(e)),
        v.is_current(v.state, e),
        is_interior(e.coord),
        successor_steps(v.rules, v.cells, e.coord) is Ok,
        0 <= j < successor_steps(v.rules, v.cells, e.coord)->Ok_0.len(),
        v.no_news_over(e.coord, successor_steps(v.rules, v.cells, e.coord)->Ok_0, j),
        w == (JobView { state: w.state, ..v }),
        v.relaxed(v.state, e, successor_steps(v.rules, v.cells, e.coord)->Ok_0[j]) == Some(w.state),
    ensures
        w.inv_search(Some(e)),
        w.is_current(w.state, e),
        w.no_news_over(e.coord, successor_steps(v.rules, v.cells, e.coord)->Ok_0, j + 1),
{
    let steps = successor_steps(v.rules, v.cells, e.coord)->Ok_0;
    let step = steps[j];
    let to = step.0;
    let cost = e.cost + step.1;
    lemma_successor_is_step(v.rules, v.cells, e.coord, j);
    law_successors_occupiable(v.rules, v.cells, e.coord, j);
    assert(v.queued(Some(e), e));
    if v.improves(v.state, to, cost) {
        let added = QueueEntry {
            coord: to,
            cost: cost as u32,
            estimate: v.estimate(to, cost) as u32,
            sequence: (v.state.sequence + 1) as u64,
        };
        assert(w.state.frontier == v.state.frontier.insert(added));
        assert(to != e.coord);
        assert(to != v.rules.start);
        assert forall|c: Coord| #[trigger] v.state.costs.contains_key(c) implies w.state.costs.contains_key(
            c,
        ) && w.state.costs[c] <= v.state.costs[c] by {}
        assert forall|f: QueueEntry| #[trigger] w.state.frontier.contains(f) implies f == added
            || v.state.frontier.contains(f) by {
            assert(w.state.frontier.count(f) > 0);
        }
        assert forall|f: QueueEntry| #[trigger] v.state.frontier.contains(f) implies w.state.frontier.contains(
            f,
        ) && v.entry_ok(f) by {
            assert(v.state.frontier.count(f) > 0);
            assert(v.queued(Some(e), f));
        }
        assert(!v.state.frontier.contains(added));
        assert(w.state.frontier.contains(added)) by {
            assert(w.state.frontier.count(added) > 0);
        }
        assert(v.estimate(to, cost) >= 0);
        assert(w.entry_ok(added));
        assert forall|f: QueueEntry| #[trigger] w.queued(Some(e), f) implies w.entry_ok(f) by {
            if f != added {
                assert(v.queued(Some(e), f));
            }
        }
        assert forall|f: QueueEntry| #[trigger] w.state.frontier.count(f) <= 1 by {
            assert(v.state.frontier.count(f) <= 1);
        }
        assert(w.inv_entries(Some(e)));
        assert forall|c: Coord| #[trigger] w.state.previous.contains_key(c) implies w.is_linked(
            c,
        ) by {
            if c == to {
                assert(steps.contains(step));
            } else {
                assert(v.state.previous.contains_key(c));
                assert(v.is_linked(c));
            }
        }
        assert(w.inv_linked());
        assert forall|c: Coord| #[trigger] w.state.costs.contains_key(c) implies w.is_open(
            Some(e),
            c,
        ) || w.is_closed(c) by {
            if c == to {
                assert(w.queued(Some(e), added));
            } else if v.is_open(Some(e), c) {
                let f = choose|f: QueueEntry| #[trigger]
                    v.queued(Some(e), f) && f.coord == c && f.cost == v.state.costs[c];
                assert(w.queued(Some(e), f));
            } else {
                assert(v.state.costs.contains_key(c));
                assert(v.is_closed(c));
                let next = successor_steps(v.rules, v.cells, c)->Ok_0;
                assert(w.no_news_over(c, next, next.len() as int));
            }
        }
        assert(w.inv_open_or_closed(Some(e)));
        assert(w.no_news_over(e.coord, steps, j + 1));
    } else {
        assert(w == v);
        assert(w.no_news_over(e.coord, steps, j + 1));
    }
}

/// An entry all of whose successors were looked at is expanded.
pub(crate) proof fn lemma_expanded(v: JobView, w: JobView, e: QueueEntry)
    requires
        v.inv_search(Some(e)),
        v.is_current(v.state, e),
        !v.in_target(e.coord),
        is_interior(e.coord),
        successor_steps(v.rules, v.cells, e.coord) is Ok,
        v.no_news_over(
            e.coord,
            successor_steps(v.rules, v.cells, e.coord)->Ok_0,
            successor_steps(v.rules, v.cells, e.coord)->Ok_0.len() as int,
        ),
        w == (JobView { phase: w.phase, ..v }),
    ensures
        w.inv_search(None),
{
    lemma_same_knowledge(v, w, Some(e));
    assert(w.is_closed(e.coord)) by {
        let steps = successor_steps(v.rules, v.cells, e.coord)->Ok_0;
        assert(w.no_news_over(e.coord, steps, steps.len() as int));
    }
    assert forall|f: QueueEntry| #[trigger] w.queued(None, f) implies w.entry_ok(f) by {
        assert(w.queued(Some(e), f));
    }
    assert forall|c: Coord| #[trigger] w.state.costs.contains_key(c) implies w.is_open(None, c)
        || w.is_closed(c) by {
        if w.is_open(Some(e), c) && c != e.coord {
            let f = choose|f: QueueEntry| #[trigger]
                w.queued(Some(e), f) && f.coord == c && f.cost == w.state.costs[c];
            assert(w.queued(None, f));
        }
    }
}

/// The entry that leaves a frontier is the only one that no other entry precedes.
pub(crate) proof fn lemma_next_entry(v: JobView, e: QueueEntry)
    requires
        v.inv_entries(None),
        is_first(v.state.frontier, e),
    ensures
        JobView::next_entry(v.state) == e,
        v.state.frontier.len() > 0,
{
    let f = JobView::next_entry(v.state);
    assert(is_first(v.state.frontier, f));
    assert(v.state.frontier.contains(f));
    assert(v.state.frontier.contains(e));
    assert(!precedes(e, f) && !precedes(f, e));
    if v.state.frontier.len() == 0 {
        assert(v.state.frontier =~= vstd::multiset::Multiset::<QueueEntry>::empty());
        assert(v.state.frontier.count(e) == 0);
    }
}

/// The first `i + 1` nodes of a path.
spec fn up_to(path: Seq<Coord>, i: int) -> Seq<Coord> {
    path.take(i + 1)
}

proof fn lemma_cost_up_to(path: Seq<Coord>, i: int)
    requires
        0 <= i < path.len() - 1,
    ensures
        route_cost(up_to(path, i + 1)) == route_cost(up_to(path, i)) + step_cost(
            path[i],
            path[i + 1],
        ),
{
    assert(up_to(path, i + 1).drop_last() =~= up_to(path, i));
}

/// What a legal way still costs is at least what the heuristic says.
proof fn lemma_rest_of_the_way(v: JobView, world: World, path: Seq<Coord>, i: int)
    requires
        0 <= i < path.len(),
        legal_chain(v.rules, world, path),
        v.in_target(path.last()),
    ensures
        route_cost(up_to(path, i)) + range_heuristic(
            path[i],
            v.goal,
            v.min_target_distance as int,
        ) <= route_cost(path),
{
    assert forall|j: int| 0 <= j < path.len() - 1 implies is_cardinal_step(
        #[trigger] path[j],
        path[j + 1],
    ) || is_diagonal_step(path[j], path[j + 1]) by {
        assert(legal_leg(v.rules, world, path, j));
    }
    lemma_heuristic_along(path, v.goal, v.min_target_distance as int, i);
}

/// Along a legal way, either some node up to the `i`-th waits for its expansion at no more
/// than the way there costs, or the `i`-th is expanded and was reached at no more than that.
proof fn lemma_along_the_way(
    v: JobView,
    world: World,
    path: Seq<Coord>,
    i: int,
) -> (k: int)
    requires
        v.inv_search(None),
        agrees(v.cells, world),
        path.len() > 0,
        path[0] == v.rules.start,
        legal_chain(v.rules, world, path),
        0 <= i < path.len(),
    ensures
        0 <= k <= i,
        v.state.costs.contains_key(path[k]),
        v.state.costs[path[k]] <= route_cost(up_to(path, k)),
        v.is_open(None, path[k]) || (k == i && v.is_closed(path[i])),
    decreases i,
{
    if i == 0 {
        assert(up_to(path, 0).len() == 1);
        0
    } else {
        let k = lemma_along_the_way(v, world, path, i - 1);
        if v.is_open(None, path[k]) {
            k
        } else {
            let from = path[i - 1];
            assert(legal_leg(v.rules, world, path, i - 1));
            assert(v.is_closed(from));
            law_successors_decided(v.rules, v.cells, world, from);
            let steps = successor_steps(v.rules, v.cells, from)->Ok_0;
            let wanted = (path[i], step_cost(from, path[i]) as u32);
            assert(legal_step(v.rules, world, from, path[i]));
            assert(steps.contains(wanted));
            let j = choose|j: int| 0 <= j < steps.len() && steps[j] == wanted;
            assert(v.state.costs.contains_key(steps[j].0));
            lemma_cost_up_to(path, i - 1);
            i
        }
    }
}

/// While no entry precedes `e`, no route is cheaper than the estimate of `e`; while nothing
/// is queued, there is no route.
pub proof fn law_frontier_bounds_routes(v: JobView, world: World, path: Seq<Coord>)
    requires
        v.inv_search(None),
        agrees(v.cells, world),
        is_route(v.rules, world, v.goal, v.min_target_distance as int, path),
    ensures
        v.state.frontier.len() > 0,
        forall|e: QueueEntry| #[trigger]
            is_first(v.state.frontier, e) ==> e.estimate <= route_cost(path),
{
    let k = lemma_along_the_way(v, world, path, path.len() - 1);
    assert(v.is_open(None, path[k]));
    let f = choose|f: QueueEntry| #[trigger]
        v.queued(None, f) && f.coord == path[k] && f.cost == v.state.costs[path[k]];
    assert(v.entry_ok(f));
    lemma_rest_of_the_way(v, world, path, k);
    assert(v.state.frontier.contains(f));
    if v.state.frontier.len() == 0 {
        assert(v.state.frontier =~= vstd::multiset::Multiset::<QueueEntry>::empty());
        assert(v.state.frontier.count(f) == 0);
    }
    assert forall|e: QueueEntry| #[trigger] is_first(v.state.frontier, e) implies e.estimate
        <= route_cost(path) by {
        assert(!precedes(f, e));
    }
}

/// Following `previous` back from a reached coordinate gives a legal way from the start that
/// costs no more than is on record.
pub proof fn law_trace_is_legal(v: JobView, taken: Option<QueueEntry>, world: World, path: Seq<Coord>, end: Coord)
    requires
        v.inv_search(taken),
        agrees(v.cells, world),
        v.state.costs.contains_key(end),
        is_trace(v.state.previous, path, end),
    ensures
        path[0] == v.rules.start,
        legal_chain(v.rules, world, path),
        route_cost(path) <= v.state.costs[end],
    decreases path.len(),
{
    if path.len() == 1 {
        assert(!v.state.previous.contains_key(end));
    } else {
        let shorter = path.drop_last();
        let last = path.len() - 2;
        assert(traced_leg(v.state.previous, path, last));
        assert(v.is_linked(end));
        assert(is_trace(v.state.previous, shorter, path[last])) by {
            assert forall|i: int| 0 <= i < shorter.len() - 1 implies #[trigger] traced_leg(
                v.state.previous,
                shorter,
                i,
            ) by {
                assert(traced_leg(v.state.previous, path, i));
            }
        }
        law_trace_is_legal(v, taken, world, shorter, path[last]);
        let from = path[last];
        law_successors_decided(v.rules, v.cells, world, from);
        let steps = successor_steps(v.rules, v.cells, from)->Ok_0;
        let step = (end, step_cost(from, end) as u32);
        let j = choose|j: int| 0 <= j < steps.len() && steps[j] == step;
        assert(legal_step(v.rules, world, from, steps[j].0));
        assert forall|i: int| 0 <= i < path.len() - 1 implies #[trigger] legal_leg(
            v.rules,
            world,
            path,
            i,
        ) by {
            if i < last {
                assert(legal_leg(v.rules, world, shorter, i));
            }
        }
    }
}

/// A search that takes a target from its frontier, at the least known cost, has a best
/// route.
pub proof fn law_found_route_is_best(v: JobView, e: QueueEntry, path: Seq<Coord>)
    requires
        v.inv_search(None),
        is_first(v.state.frontier, e),
        v.is_current(v.state, e),
        v.in_target(e.coord),
        is_trace(v.state.previous, path, e.coord),
    ensures
        v.is_best_route(path),
{
    assert(v.queued(None, e));
    assert(v.entry_ok(e));
    assert(v.estimate(e.coord, e.cost as int) == e.cost) by {
        crate::coord::law_heuristic_zero_in_target_range(
            e.coord,
            v.goal,
            v.min_target_distance as int,
        );
    }
    assert forall|world: World| #[trigger] agrees(v.cells, world) implies ({
        &&& is_route(v.rules, world, v.goal, v.min_target_distance as int, path)
        &&& forall|other: Seq<Coord>| #[trigger]
            is_route(v.rules, world, v.goal, v.min_target_distance as int, other) ==> route_cost(
                path,
            ) <= route_cost(other)
    }) by {
        law_trace_is_legal(v, None, world, path, e.coord);
        law_occupancy_decided(v.rules, v.cells, world, v.rules.start);
        assert forall|other: Seq<Coord>| #[trigger]
            is_route(v.rules, world, v.goal, v.min_target_distance as int, other) implies route_cost(
            path,
        ) <= route_cost(other) by {
            law_frontier_bounds_routes(v, world, other);
        }
    }
}

/// A search whose frontier is empty has no route.
pub proof fn law_empty_frontier_means_no_route(v: JobView)
    requires
        v.inv_search(None),
        v.state.frontier.len() == 0,
    ensures
        v.has_no_route(),
{
    assert forall|world: World, path: Seq<Coord>|
        #[trigger] agrees(v.cells, world) implies !#[trigger] is_route(
        v.rules,
        world,
        v.goal,
        v.min_target_distance as int,
        path,
    ) by {
        if is_route(v.rules, world, v.goal, v.min_target_distance as int, path) {
            law_frontier_bounds_routes(v, world, path);
        }
    }
}

/// A search that may not stand on its own start has no route.
pub proof fn law_forbidden_start_means_no_route(v: JobView)
    requires
        occupancy(v.rules, v.cells, v.rules.start) == Ok::<bool, UnknownTurf>(false),
    ensures
        v.has_no_route(),
{
    assert forall|world: World, path: Seq<Coord>|
        #[trigger] agrees(v.cells, world) implies !#[trigger] is_route(
        v.rules,
        world,
        v.goal,
        v.min_target_distance as int,
        path,
    ) by {
        law_occupancy_decided(v.rules, v.cells, world, v.rules.start);
    }
}

/// Following `previous` back from a coordinate gives one path only.
pub proof fn law_trace_is_unique(
    previous: Map<Coord, Coord>,
    a: Seq<Coord>,
    b: Seq<Coord>,
    end: Coord,
)
    requires
        is_trace(previous, a, end),
        is_trace(previous, b, end),
    ensures
        a == b,
    decreases a.len(),
{
    if a.len() == 1 {
        if b.len() > 1 {
            assert(traced_leg(previous, b, b.len() - 2));
        }
        assert(a =~= b);
    } else {
        assert(traced_leg(previous, a, a.len() - 2));
        assert(traced_leg(previous, b, b.len() - 2));
        let shorter_a = a.drop_last();
        let shorter_b = b.drop_last();
        assert forall|i: int| 0 <= i < shorter_a.len() - 1 implies #[trigger] traced_leg(
            previous,
            shorter_a,
            i,
        ) by {
            assert(traced_leg(previous, a, i));
        }
        assert forall|i: int| 0 <= i < shorter_b.len() - 1 implies #[trigger] traced_leg(
            previous,
            shorter_b,
            i,
        ) by {
            assert(traced_leg(previous, b, i));
        }
        law_trace_is_unique(previous, shorter_a, shorter_b, previous[end]);
        assert(a =~= shorter_a.push(end));
        assert(b =~= shorter_b.push(end));
    }
}

/// The routes of every diagonal on a way back to the start are known.
pub proof fn law_trace_knows_routes(v: JobView, taken: Option<QueueEntry>, path: Seq<Coord>, end: Coord)
    requires
        v.inv_search(taken),
        is_trace(v.state.previous, path, end),
    ensures
        routes_known(v.rules, v.cells, path),
{
    assert forall|i: int| #[trigger] bends(path, i) implies leg_known(v.rules, v.cells, path, i) by {
        assert(traced_leg(v.state.previous, path, i));
        let from = path[i];
        let to = path[i + 1];
        assert(v.is_linked(to));
        let steps = successor_steps(v.rules, v.cells, from)->Ok_0;
        let step = (to, step_cost(from, to) as u32);
        let j = choose|j: int| 0 <= j < steps.len() && steps[j] == step;
        lemma_successor_is_step(v.rules, v.cells, from, j);
        law_successors_know_routes(v.rules, v.cells, from, to);
    }
}

/// Two searches that differ at most in where they stand and in their times.
pub open spec fn same_search(v: JobView, w: JobView) -> bool {
    w == (JobView {
        state: w.state,
        phase: w.phase,
        last_touched: w.last_touched,
        slice_started: w.slice_started,
        ..v
    })
}

/// Two searches that differ at most in their times.
pub open spec fn same_but_times(v: JobView, w: JobView) -> bool {
    w == (JobView { last_touched: w.last_touched, slice_started: w.slice_started, ..v })
}

/// The search with the times of another one.
pub open spec fn with_times_of(v: JobView, w: JobView) -> JobView {
    JobView { last_touched: w.last_touched, slice_started: w.slice_started, ..v }
}

pub(crate) proof fn lemma_relaxed_all_ignores_time(
    v: JobView,
    w: JobView,
    s: SearchState,
    e: QueueEntry,
    steps: Seq<(Coord, u32)>,
)
    requires
        v.goal == w.goal,
        v.min_target_distance == w.min_target_distance,
    ensures
        v.relaxed_all(s, e, steps) == w.relaxed_all(s, e, steps),
    decreases steps.len(),
{
    if steps.len() > 0 {
        lemma_relaxed_all_ignores_time(v, w, s, e, steps.drop_last());
    }
}

pub(crate) proof fn lemma_expand_ignores_time(v: JobView, w: JobView, s: SearchState, e: QueueEntry)
    requires
        same_search(v, w),
    ensures
        w.expand(s, e).0 == with_times_of(v.expand(s, e).0, w),
        w.expand(s, e).1 == v.expand(s, e).1,
        !(w.expand(s, e).1 is InProgress),
{
    match successor_steps(v.rules, v.cells, e.coord) {
        Ok(steps) => lemma_relaxed_all_ignores_time(v, w, s, e, steps),
        _ => {},
    }
}

/// Only a slice that is used up makes a difference to the next entry.
pub(crate) proof fn lemma_take_next_ignores_time(
    v: JobView,
    w: JobView,
    s: SearchState,
    now_v: u64,
    now_w: u64,
)
    requires
        same_search(v, w),
        (now_v - v.slice_started < SLICE_BUDGET) == (now_w - w.slice_started < SLICE_BUDGET),
    ensures
        w.take_next(s, now_w).0 == with_times_of(v.take_next(s, now_v).0, w),
        w.take_next(s, now_w).1 == v.take_next(s, now_v).1,
{
    let e = JobView::next_entry(s);
    lemma_expand_ignores_time(v, w, SearchState { frontier: s.frontier.remove(e), ..s }, e);
}

pub(crate) proof fn lemma_yields_when_used_up(v: JobView, s: SearchState, now: u64)
    ensures
        v.take_next(s, now).1 is InProgress <==> now - v.slice_started >= SLICE_BUDGET,
{
    let e = JobView::next_entry(s);
    lemma_expand_ignores_time(v, v, SearchState { frontier: s.frontier.remove(e), ..s }, e);
}

/// What a search does apart from yielding does not depend on time: two searches that differ in
/// their times alone make the same move, unless one of them yields.
pub proof fn law_moves_do_not_depend_on_time(v: JobView, w: JobView, now_v: u64, now_w: u64)
    requires
        same_but_times(v, w),
        !(v.step(now_v).1 is InProgress),
        !(w.step(now_w).1 is InProgress),
    ensures
        w.step(now_w).1 == v.step(now_v).1,
        w.step(now_w).0 == with_times_of(v.step(now_v).0, w),
{
    match v.phase {
        Phase::Fresh => {
            let s = v.pushed(v.state, v.rules.start, 0);
            assert(w.pushed(w.state, w.rules.start, 0) == s);
            lemma_yields_when_used_up(v, s, now_v);
            lemma_yields_when_used_up(w, s, now_w);
            if now_v - v.slice_started < SLICE_BUDGET && now_w - w.slice_started < SLICE_BUDGET {
                lemma_take_next_ignores_time(v, w, s, now_v, now_w);
            }
        },
        Phase::Searching => {
            lemma_yields_when_used_up(v, v.state, now_v);
            lemma_yields_when_used_up(w, w.state, now_w);
            lemma_take_next_ignores_time(v, w, v.state, now_v, now_w);
        },
        Phase::Expanding(e) => lemma_expand_ignores_time(v, w, v.state, e),
        Phase::Finished => {},
    }
}

/// A search that yielded goes on, when it is resumed, as if it had not.
pub proof fn law_yielding_changes_nothing(
    v: JobView,
    now: u64,
    resumed_at: u64,
    later: u64,
    instead: u64,
)
    requires
        v.step(now).1 is InProgress,
        !((JobView {
            last_touched: resumed_at,
            slice_started: resumed_at,
            ..v.step(now).0
        }).step(later).1 is InProgress),
        !(v.step(instead).1 is InProgress),
    ensures
        ({
            let resumed = JobView {
                last_touched: resumed_at,
                slice_started: resumed_at,
                ..v.step(now).0
            };
            &&& resumed.step(later).1 == v.step(instead).1
            &&& resumed.step(later).0 == with_times_of(v.step(instead).0, resumed)
        }),
{
    let resumed = JobView {
        last_touched: resumed_at,
        slice_started: resumed_at,
        ..v.step(now).0
    };
    let s = match v.phase {
        Phase::Fresh => v.pushed(v.state, v.rules.start, 0),
        _ => v.state,
    };
    match v.phase {
        Phase::Expanding(e) => lemma_expand_ignores_time(v, v, v.state, e),
        _ => {},
    }
    lemma_yields_when_used_up(v, s, now);
    lemma_yields_when_used_up(v, s, instead);
    lemma_yields_when_used_up(resumed, s, later);
    lemma_take_next_ignores_time(v, resumed, s, instead, later);
}

/// A search asks only for turfs that it has not seen.
pub proof fn law_search_asks_for_unseen_turfs(v: JobView, now: u64)
    ensures
        v.step(now).1 matches Move::Resolve(c) ==> !v.cells.contains_key(c),
{
    law_unknown_turf_was_not_seen(v.rules, v.cells, v.rules.start);
    let started = match v.phase {
        Phase::Fresh => v.pushed(v.state, v.rules.start, 0),
        _ => v.state,
    };
    law_unknown_turf_was_not_seen(v.rules, v.cells, JobView::next_entry(started).coord);
    match v.phase {
        Phase::Expanding(e) => law_unknown_turf_was_not_seen(v.rules, v.cells, e.coord),
        _ => {},
    }
}

/// The first state that is recorded of a turf stays, and recording one turf leaves the others.
pub proof fn law_first_record_stays(
    v: JobView,
    c: Coord,
    first: Option<TurfInfo>,
    second: Option<TurfInfo>,
    other: Coord,
)
    ensures
        v.resolved(c, first).resolved(c, second) == v.resolved(c, first),
        !v.cells.contains_key(c) ==> v.resolved(c, first).cells[c] == first,
        other != c ==> v.resolved(c, first).cells.contains_key(other) == v.cells.contains_key(
            other,
        ),
        v.cells.contains_key(other) ==> v.resolved(c, first).cells[other] == v.cells[other],
{
}

/// A best route that a search found is always handed out, from its start to its end; without
/// a diagonal where all of them are to be replaced.
pub proof fn law_found_route_is_handed_out(v: JobView, world: World, path: Seq<Coord>)
    requires
        agrees(v.cells, world),
        v.is_best_route(path),
        routes_known(v.rules, v.cells, path),
    ensures
        ({
            &&& known_expansion(v.rules, v.cells, v.diagonal_handling, path) matches Ok(Some(out))
            &&& out.first() == v.rules.start
            &&& v.in_target(out.last())
            &&& legal_chain(v.rules, world, out)
            &&& v.diagonal_handling == DiagonalHandling::RemoveAll ==> cardinal_chain(
                v.rules,
                world,
                out,
            )
        }),
{
    assert(is_route(v.rules, world, v.goal, v.min_target_distance as int, path));
    law_known_path_is_handed_out(v.rules, v.cells, world, v.diagonal_handling, path);
}

/// The heuristic never says more than a way to the target range costs: it is admissible.
pub proof fn law_heuristic_admissible(path: Seq<Coord>, goal: Coord, target_distance: int)
    requires
        path.len() > 0,
        forall|i: int|
            0 <= i < path.len() - 1 ==> is_cardinal_step(#[trigger] path[i], path[i + 1])
                || is_diagonal_step(path[i], path[i + 1]),
        crate::coord::chebyshev(path.last(), goal) <= target_distance,
    ensures
        range_heuristic(path[0], goal, target_distance) <= route_cost(path),
{
    lemma_heuristic_along(path, goal, target_distance, 0);
    assert(up_to(path, 0).len() == 1);
}

proof fn lemma_heuristic_along(path: Seq<Coord>, goal: Coord, target_distance: int, i: int)
    requires
        0 <= i < path.len(),
        forall|j: int|
            0 <= j < path.len() - 1 ==> is_cardinal_step(#[trigger] path[j], path[j + 1])
                || is_diagonal_step(path[j], path[j + 1]),
        crate::coord::chebyshev(path.last(), goal) <= target_distance,
    ensures
        route_cost(up_to(path, i)) + range_heuristic(path[i], goal, target_distance) <= route_cost(
            path,
        ),
    decreases path.len() - i,
{
    if i == path.len() - 1 {
        assert(up_to(path, i) =~= path);
    } else {
        lemma_heuristic_along(path, goal, target_distance, i + 1);
        lemma_cost_up_to(path, i);
        law_heuristic_consistent(path[i], path[i + 1], goal, target_distance);
    }
}

} // verus!
