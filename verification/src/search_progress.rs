//! Why a search comes to an end: what its moves keep, and what they leave less of.
use vstd::prelude::*;
use vstd::multiset::Multiset;
use crate::coord::{is_interior, Coord};
use crate::coord_map::coord_key;
use crate::grid::{occupancy, successor_steps, Cells, TurfInfo};
use crate::queue::{is_first, precedes, QueueEntry};
use crate::search_laws::{
    law_search_asks_for_unseen_turfs, lemma_expanded, lemma_relaxed,
    lemma_relaxed_all_ignores_time, lemma_resolved, lemma_same_knowledge, lemma_start, lemma_taken,
};
use crate::search_model::{JobView, Phase, SearchState, SLICE_BUDGET};

verus! {

/// The number of coordinates.
pub open spec fn coord_count() -> nat {
    0x1_0000_0000
}

/// The coordinate with the `k`-th key.
pub open spec fn coord_at(k: nat) -> Coord {
    ((k / 65536 - 32768) as i16, (k % 65536 - 32768) as i16)
}

pub(crate) proof fn lemma_coord_at(c: Coord, k: nat)
    requires
        k < coord_count(),
    ensures
        coord_key(c) < coord_count(),
        coord_at(coord_key(c) as nat) == c,
        coord_at(k) == c ==> k == coord_key(c),
{
    let x = k / 65536;
    let y = k % 65536;
    assert(k == 65536 * x + y);
    assert(0 <= x < 65536 && 0 <= y < 65536);
    let key = coord_key(c) as nat;
    assert(key / 65536 == c.0 + 32768);
    assert(key % 65536 == c.1 + 32768);
}

/// How much the cost of reaching a coordinate can still drop, counting the first way there as
/// a drop too.
pub open spec fn slack(costs: Map<Coord, u32>, c: Coord) -> nat {
    if costs.contains_key(c) {
        costs[c] as nat
    } else {
        0x1_0000_0000
    }
}

/// The slack of the first `n` coordinates together.
pub open spec fn total_slack(costs: Map<Coord, u32>, n: nat) -> nat
    decreases n,
{
    if n == 0 {
        0
    } else {
        total_slack(costs, (n - 1) as nat) + slack(costs, coord_at((n - 1) as nat))
    }
}

/// How many of the first `n` coordinates were not seen yet.
pub open spec fn unseen(cells: Cells, n: nat) -> nat
    decreases n,
{
    if n == 0 {
        0
    } else {
        unseen(cells, (n - 1) as nat) + (if cells.contains_key(coord_at((n - 1) as nat)) {
            0nat
        } else {
            1nat
        })
    }
}

/// The entries that wait for their expansion.
pub open spec fn pending(v: JobView) -> nat {
    v.state.frontier.len() + (if v.phase is Expanding {
        1nat
    } else {
        0nat
    })
}

/// Less is left to do: costs can drop less than before, or as much, with fewer entries waiting.
pub open spec fn is_closer(v: JobView, w: JobView) -> bool {
    let before = total_slack(v.state.costs, coord_count());
    let after = total_slack(w.state.costs, coord_count());
    after < before || (after == before && pending(w) < pending(v))
}

pub(crate) proof fn lemma_slack_drops(costs: Map<Coord, u32>, c: Coord, cost: u32, n: nat)
    requires
        cost < slack(costs, c),
        n <= coord_count(),
    ensures
        n <= coord_key(c) ==> total_slack(costs.insert(c, cost), n) == total_slack(costs, n),
        n > coord_key(c) ==> total_slack(costs.insert(c, cost), n) < total_slack(costs, n),
    decreases n,
{
    if n > 0 {
        lemma_slack_drops(costs, c, cost, (n - 1) as nat);
        lemma_coord_at(c, (n - 1) as nat);
    }
}

pub(crate) proof fn lemma_push_drops_slack(v: JobView, s: SearchState, c: Coord, cost: int)
    requires
        v.improves(s, c, cost),
        0 <= cost <= u32::MAX,
    ensures
        total_slack(v.pushed(s, c, cost).costs, coord_count()) < total_slack(
            s.costs,
            coord_count(),
        ),
{
    lemma_slack_drops(s.costs, c, cost as u32, coord_count());
    lemma_coord_at(c, 0);
}

proof fn lemma_relaxed_all_drops_slack(
    v: JobView,
    s: SearchState,
    e: QueueEntry,
    steps: Seq<(Coord, u32)>,
)
    ensures
        v.relaxed_all(s, e, steps).0 == s || total_slack(
            v.relaxed_all(s, e, steps).0.costs,
            coord_count(),
        ) < total_slack(s.costs, coord_count()),
    decreases steps.len(),
{
    if steps.len() > 0 {
        lemma_relaxed_all_drops_slack(v, s, e, steps.drop_last());
        let (t, complete) = v.relaxed_all(s, e, steps.drop_last());
        let step = steps.last();
        let cost = e.cost + step.1;
        if complete && cost <= u32::MAX && v.improves(t, step.0, cost) {
            let linked = SearchState { previous: t.previous.insert(step.0, e.coord), ..t };
            lemma_push_drops_slack(v, linked, step.0, cost);
        }
    }
}

/// A queue that is not empty has an entry that leaves it first.
pub proof fn law_queue_has_a_first_entry(queue: Multiset<QueueEntry>)
    requires
        queue.len() > 0,
    ensures
        exists|e: QueueEntry| is_first(queue, e),
    decreases queue.len(),
{
    let a = queue.choose();
    assert(queue.contains(a)) by {
        assert(queue.count(a) > 0);
    }
    let rest = queue.remove(a);
    if rest.len() == 0 {
        assert forall|o: QueueEntry| #[trigger] queue.contains(o) implies !precedes(o, a) by {
            if o != a {
                assert(rest.count(o) > 0);
                assert(rest =~= Multiset::<QueueEntry>::empty());
            }
        }
        assert(is_first(queue, a));
    } else {
        law_queue_has_a_first_entry(rest);
        let f = choose|f: QueueEntry| is_first(rest, f);
        assert(queue.contains(f)) by {
            assert(rest.count(f) > 0);
            assert(queue.count(f) > 0);
        }
        let e = if precedes(a, f) {
            a
        } else {
            f
        };
        assert forall|o: QueueEntry| #[trigger] queue.contains(o) implies !precedes(o, e) by {
            if o != a {
                assert(rest.count(o) > 0);
                assert(rest.contains(o));
            }
        }
        assert(is_first(queue, e));
    }
}

proof fn lemma_expand_is_closer(v: JobView, s: SearchState, e: QueueEntry)
    ensures
        ({
            let (w, m) = v.expand(s, e);
            &&& m is Advanced || m is Resolve ==> w.cells == v.cells
            &&& m is Advanced ==> (w.state == s && w.phase is Searching) || total_slack(
                w.state.costs,
                coord_count(),
            ) < total_slack(s.costs, coord_count())
            &&& m is Resolve ==> w.state == s && w.phase is Expanding
        }),
{
    match successor_steps(v.rules, v.cells, e.coord) {
        Ok(steps) => lemma_relaxed_all_drops_slack(v, s, e, steps),
        _ => {},
    }
}

proof fn lemma_take_next_is_closer(v: JobView, s: SearchState, now: u64)
    ensures
        ({
            let (w, m) = v.take_next(s, now);
            let here = JobView { state: s, phase: Phase::Searching, ..v };
            &&& m is Advanced || m is Resolve ==> w.cells == v.cells
            &&& m is Advanced ==> is_closer(here, w)
            &&& m is Resolve ==> is_closer(here, w) || (total_slack(w.state.costs, coord_count())
                == total_slack(s.costs, coord_count()) && pending(w) == pending(here))
        }),
{
    if now - v.slice_started < SLICE_BUDGET && s.frontier.len() > 0 {
        law_queue_has_a_first_entry(s.frontier);
        let e = JobView::next_entry(s);
        assert(is_first(s.frontier, e));
        assert(s.frontier.contains(e));
        let t = SearchState { frontier: s.frontier.remove(e), ..s };
        assert(t.frontier.len() == s.frontier.len() - 1);
        lemma_expand_is_closer(v, t, e);
    }
}

/// A move after which the search goes on at once leaves less to do.
pub proof fn law_moves_lead_to_the_end(v: JobView, now: u64)
    requires
        v.inv(),
        v.step(now).1 is Advanced,
    ensures
        v.step(now).0.cells == v.cells,
        is_closer(v, v.step(now).0),
{
    match v.phase {
        Phase::Fresh => {
            let s = v.pushed(v.state, v.rules.start, 0);
            lemma_push_drops_slack(v, v.state, v.rules.start, 0);
            lemma_take_next_is_closer(v, s, now);
        },
        Phase::Searching => lemma_take_next_is_closer(v, v.state, now),
        Phase::Expanding(e) => lemma_expand_is_closer(v, v.state, e),
        Phase::Finished => {},
    }
}

proof fn lemma_unseen_drops(cells: Cells, c: Coord, entry: Option<TurfInfo>, n: nat)
    requires
        !cells.contains_key(c),
        n <= coord_count(),
    ensures
        n <= coord_key(c) ==> unseen(cells.insert(c, entry), n) == unseen(cells, n),
        n > coord_key(c) ==> unseen(cells.insert(c, entry), n) < unseen(cells, n),
    decreases n,
{
    if n > 0 {
        lemma_unseen_drops(cells, c, entry, (n - 1) as nat);
        lemma_coord_at(c, (n - 1) as nat);
    }
}

/// A move that asks for a turf leaves fewer turfs to ask for, once the answer is recorded.
pub proof fn law_answers_lead_to_the_end(v: JobView, now: u64, entry: Option<TurfInfo>)
    requires
        v.step(now).1 is Resolve,
    ensures
        unseen(
            v.step(now).0.resolved(v.step(now).1->Resolve_0, entry).cells,
            coord_count(),
        ) < unseen(v.cells, coord_count()),
{
    law_search_asks_for_unseen_turfs(v, now);
    let c = v.step(now).1->Resolve_0;
    match v.phase {
        Phase::Fresh => lemma_take_next_is_closer(v, v.pushed(v.state, v.rules.start, 0), now),
        Phase::Searching => lemma_take_next_is_closer(v, v.state, now),
        Phase::Expanding(e) => lemma_expand_is_closer(v, v.state, e),
        Phase::Finished => {},
    }
    assert(v.step(now).0.cells == v.cells);
    lemma_unseen_drops(v.cells, c, entry, coord_count());
    lemma_coord_at(c, 0);
}

/// Looking at the first `k` successors in turn keeps the invariant.
proof fn lemma_relaxed_all_keeps_invariant(v: JobView, e: QueueEntry, k: int)
    requires
        v.inv_search(Some(e)),
        v.is_current(v.state, e),
        is_interior(e.coord),
        successor_steps(v.rules, v.cells, e.coord) is Ok,
        0 <= k <= successor_steps(v.rules, v.cells, e.coord)->Ok_0.len(),
        v.relaxed_all(v.state, e, successor_steps(v.rules, v.cells, e.coord)->Ok_0.take(k)).1,
    ensures
        ({
            let steps = successor_steps(v.rules, v.cells, e.coord)->Ok_0;
            let w = JobView { state: v.relaxed_all(v.state, e, steps.take(k)).0, ..v };
            &&& w.inv_search(Some(e))
            &&& w.is_current(w.state, e)
            &&& w.no_news_over(e.coord, steps, k)
        }),
    decreases k,
{
    let steps = successor_steps(v.rules, v.cells, e.coord)->Ok_0;
    let w = JobView { state: v.relaxed_all(v.state, e, steps.take(k)).0, ..v };
    if k == 0 {
        assert(w =~= v);
    } else {
        assert(steps.take(k).drop_last() =~= steps.take(k - 1));
        assert(steps.take(k).last() == steps[k - 1]);
        lemma_relaxed_all_keeps_invariant(v, e, k - 1);
        let u = JobView { state: v.relaxed_all(v.state, e, steps.take(k - 1)).0, ..v };
        assert(u.relaxed(u.state, e, steps[k - 1]) == Some(w.state));
        lemma_relaxed(u, w, e, k - 1);
    }
}

proof fn lemma_expand_keeps_invariant(v: JobView, s: SearchState, e: QueueEntry)
    requires
        (JobView { state: s, ..v }).inv_search(Some(e)),
        v.is_current(s, e),
        !v.in_target(e.coord),
    ensures
        v.expand(s, e).0.inv(),
{
    let here = JobView { state: s, ..v };
    let w = v.expand(s, e).0;
    if is_interior(e.coord) {
        match successor_steps(v.rules, v.cells, e.coord) {
            Err(_) => lemma_same_knowledge(here, w, Some(e)),
            Ok(steps) => {
                lemma_relaxed_all_ignores_time(v, here, s, e, steps);
                if v.relaxed_all(s, e, steps).1 {
                    assert(steps.take(steps.len() as int) =~= steps);
                    lemma_relaxed_all_keeps_invariant(here, e, steps.len() as int);
                    let done = JobView { state: w.state, ..here };
                    lemma_expanded(done, w, e);
                }
            },
        }
    }
}

proof fn lemma_take_next_keeps_invariant(v: JobView, s: SearchState, now: u64)
    requires
        (JobView { state: s, phase: Phase::Searching, ..v }).inv_search(None),
    ensures
        v.take_next(s, now).0.inv(),
{
    let here = JobView { state: s, phase: Phase::Searching, ..v };
    if now - v.slice_started < SLICE_BUDGET && s.frontier.len() > 0 {
        law_queue_has_a_first_entry(s.frontier);
        let e = JobView::next_entry(s);
        assert(is_first(s.frontier, e));
        let t = SearchState { frontier: s.frontier.remove(e), ..s };
        let rest = JobView { state: t, ..v };
        if !v.is_current(t, e) {
            lemma_taken(here, JobView { phase: Phase::Searching, ..rest }, e, None);
        } else if !v.in_target(e.coord) {
            lemma_taken(here, rest, e, Some(e));
            lemma_expand_keeps_invariant(v, t, e);
        }
    }
}

/// A move keeps what holds of a search between two moves.
pub proof fn law_moves_keep_the_invariant(v: JobView, now: u64)
    requires
        v.inv(),
    ensures
        v.step(now).0.inv(),
{
    match v.phase {
        Phase::Fresh => {
            let s = v.pushed(v.state, v.rules.start, 0);
            match occupancy(v.rules, v.cells, v.rules.start) {
                Ok(true) => if v.push_fits(v.state, v.rules.start, 0) {
                    lemma_start(JobView { state: s, phase: Phase::Searching, ..v });
                    lemma_take_next_keeps_invariant(v, s, now);
                },
                _ => {},
            }
        },
        Phase::Searching => {
            assert(v =~= JobView { state: v.state, phase: Phase::Searching, ..v });
            lemma_take_next_keeps_invariant(v, v.state, now);
        },
        Phase::Expanding(e) => {
            assert(v =~= JobView { state: v.state, ..v });
            lemma_expand_keeps_invariant(v, v.state, e);
        },
        Phase::Finished => {},
    }
}

/// Recording an answer keeps what holds of a search between two moves.
pub proof fn law_answers_keep_the_invariant(v: JobView, c: Coord, entry: Option<TurfInfo>)
    requires
        v.inv(),
    ensures
        v.resolved(c, entry).inv(),
{
    let w = v.resolved(c, entry);
    match v.phase {
        Phase::Searching => lemma_resolved(v, w, None),
        Phase::Expanding(e) => lemma_resolved(v, w, Some(e)),
        _ => {},
    }
}

} // verus!
