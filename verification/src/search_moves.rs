//! What single moves of a search do: when they yield, what they ask for, what they take next.
use vstd::prelude::*;
use vstd::multiset::Multiset;
use crate::coord::{range_heuristic, Coord};
use crate::grid::{successor_steps, TurfInfo, UnknownTurf};
use crate::grid_asks::{in_reach, law_turf_is_asked_for_only_in_reach, seen_standable};
use crate::path::handed_out;
use crate::queue::{is_first, precedes, QueueEntry};
use crate::search_answers::{reached_at, same_request};
use crate::search_laws::{lemma_expand_ignores_time, lemma_yields_when_used_up};
use crate::search_model::{JobView, Move, Phase, SearchState};
use crate::search_progress::law_queue_has_a_first_entry;
use crate::search_runs::resumed;

verus! {

/// A slice lasts five milliseconds: a move yields only when they are over, and every move that
/// would take a coordinate from the frontier does then.
pub proof fn law_slice_lasts_five_milliseconds(v: JobView, now: u64)
    ensures
        v.step(now).1 is InProgress ==> now - v.slice_started >= 5_000_000,
        v.phase is Searching && now - v.slice_started >= 5_000_000 ==> v.step(now).1 is InProgress,
        v.phase is Fresh && now - v.slice_started >= 5_000_000 && v.cells.contains_key(
            v.rules.start,
        ) && seen_standable(v.rules, v.cells, v.rules.start) ==> v.step(now).1 is InProgress
            || v.step(now).1 is OutOfRange,
        v.phase is Expanding ==> !(v.step(now).1 is InProgress),
{
    let s = match v.phase {
        Phase::Fresh => v.pushed(v.state, v.rules.start, 0),
        _ => v.state,
    };
    law_turf_is_asked_for_only_in_reach(v.rules, v.cells, v.rules.start);
    lemma_yields_when_used_up(v, s, now);
    match v.phase {
        Phase::Expanding(e) => lemma_expand_ignores_time(v, v, v.state, e),
        _ => {},
    }
}

/// A fresh search may begin exactly if one can stand on its start; otherwise it ends at once, or
/// asks for the turf there if it was not seen.
pub proof fn law_search_begins_where_one_can_stand(v: JobView, now: u64)
    requires
        v.phase is Fresh,
    ensures
        in_reach(v.rules, v.rules.start) && !v.cells.contains_key(v.rules.start) ==> v.step(now).1
            == Move::Resolve(v.rules.start) && v.step(now).0 == v,
        (!in_reach(v.rules, v.rules.start) || v.cells.contains_key(v.rules.start))
            && !seen_standable(v.rules, v.cells, v.rules.start) ==> v.step(now).1 is NoPath,
{
    law_turf_is_asked_for_only_in_reach(v.rules, v.cells, v.rules.start);
}

/// A search asks for the turf at its start, or for one that the successors of a coordinate need
/// which it has reached.
pub proof fn law_search_asks_for_what_it_needs(v: JobView, now: u64)
    requires
        v.inv(),
    ensures
        v.step(now).1 matches Move::Resolve(c) ==> (v.phase is Fresh && c == v.rules.start) || (
        exists|from: Coord, cost: int| #[trigger]
            reached_at(v, from, cost) && successor_steps(v.rules, v.cells, from) == Err::<
                Seq<(Coord, u32)>,
                UnknownTurf,
            >(UnknownTurf { coord: c })),
{
    let s = match v.phase {
        Phase::Fresh => v.pushed(v.state, v.rules.start, 0),
        _ => v.state,
    };
    let e = match v.phase {
        Phase::Expanding(e) => e,
        _ => JobView::next_entry(s),
    };
    if v.step(now).1 is Resolve && s.costs.contains_key(e.coord) && s.costs[e.coord] == e.cost {
        assert(reached_at(v, e.coord, e.cost as int));
    }
}

/// The order of the queue: the lower estimate first, then the lower cost, then what was queued
/// earlier.
pub proof fn law_queue_orders_by_estimate_cost_and_age(a: QueueEntry, b: QueueEntry)
    ensures
        a.estimate < b.estimate ==> precedes(a, b) && !precedes(b, a),
        a.estimate == b.estimate && a.cost < b.cost ==> precedes(a, b) && !precedes(b, a),
        a.estimate == b.estimate && a.cost == b.cost && a.sequence < b.sequence ==> precedes(a, b)
            && !precedes(b, a),
        a.estimate == b.estimate && a.cost == b.cost && a.sequence == b.sequence ==> !precedes(
            a,
            b,
        ),
{
}

/// An entry is first exactly if it is queued, and no other entry has a lower estimate, or the
/// same at a lower cost, or the same of both and was queued earlier.
pub proof fn law_first_entry_is_least(queue: Multiset<QueueEntry>, e: QueueEntry, other: QueueEntry)
    requires
        is_first(queue, e),
        queue.count(other) > 0,
    ensures
        queue.count(e) > 0,
        e.estimate <= other.estimate,
        e.estimate == other.estimate ==> e.cost <= other.cost,
        e.estimate == other.estimate && e.cost == other.cost ==> e.sequence <= other.sequence,
{
    assert(queue.contains(other));
}

/// A search that goes on takes the first entry of its frontier, and finds the goal only there.
pub proof fn law_search_takes_the_first_entry(v: JobView, now: u64) -> (e: QueueEntry)
    requires
        v.phase is Searching,
        v.state.frontier.len() > 0,
        now - v.slice_started < 5_000_000,
    ensures
        is_first(v.state.frontier, e),
        v.step(now).1 matches Move::Found(c) ==> c == e.coord && v.state.costs.contains_key(c)
            && v.state.costs[c] == e.cost,
        v.step(now).1 matches Move::Found(c) ==> v.step(now).0.state.frontier
            == v.state.frontier.remove(e) && v.step(now).0.state.costs == v.state.costs
            && v.step(now).0.state.previous == v.state.previous,
        v.step(now).1 is Resolve ==> v.step(now).0.state.frontier == v.state.frontier.remove(e)
            && v.step(now).0.phase == Phase::Expanding(e),
        !v.state.costs.contains_key(e.coord) || v.state.costs[e.coord] != e.cost ==> v.step(now).1
            is Advanced && v.step(now).0.state == (SearchState {
            frontier: v.state.frontier.remove(e),
            ..v.state
        }),
{
    law_queue_has_a_first_entry(v.state.frontier);
    let e = JobView::next_entry(v.state);
    assert(is_first(v.state.frontier, e));
    lemma_yields_when_used_up(v, v.state, now);
    e
}

/// What is queued last ranks behind everything that is queued already, and is known at its cost
/// from then on.
pub proof fn law_later_entries_rank_behind(v: JobView, s: SearchState, c: Coord, cost: u32, old: QueueEntry)
    requires
        v.push_fits(s, c, cost as int),
        v.estimate(c, cost as int) >= 0,
        s.frontier.count(old) > 0,
        old.sequence <= s.sequence,
    ensures
        ({
            let t = v.pushed(s, c, cost as int);
            &&& t.costs.contains_key(c) && t.costs[c] == cost
            &&& forall|d: Coord|
                d != c ==> (#[trigger] t.costs.contains_key(d) <==> s.costs.contains_key(d))
            &&& forall|d: Coord| d != c && s.costs.contains_key(d) ==> #[trigger] t.costs[d]
                == s.costs[d]
            &&& t.frontier.len() == s.frontier.len() + 1
            &&& t.frontier.count(old) > 0
            &&& t.previous == s.previous
            &&& exists|e: QueueEntry| #[trigger]
                t.frontier.count(e) > 0 && e.coord == c && e.cost == cost && e.estimate == cost
                    + range_heuristic(c, v.goal, v.min_target_distance as int) && e.sequence
                    > old.sequence && e.sequence == t.sequence
        }),
{
    let t = v.pushed(s, c, cost as int);
    let e = QueueEntry {
        coord: c,
        cost,
        estimate: v.estimate(c, cost as int) as u32,
        sequence: (s.sequence + 1) as u64,
    };
    assert(t.frontier == s.frontier.insert(e));
    assert(t.frontier.count(e) > 0);
}

/// A slice begins when it is begun, and that is when the search was last worked on; nothing else
/// about the search changes.
pub proof fn law_slice_begins_now(v: JobView, now: u64)
    ensures
        resumed(v, now).last_touched == now,
        resumed(v, now).slice_started == now,
        same_request(v, resumed(v, now)),
        resumed(v, now).cells == v.cells,
        resumed(v, now).state == v.state,
        resumed(v, now).phase == v.phase,
{
}

/// Recording a turf changes what is known of that turf alone, and only if it was not seen.
pub proof fn law_recording_changes_one_turf(v: JobView, c: Coord, entry: Option<TurfInfo>, other: Coord)
    ensures
        ({
            let w = v.resolved(c, entry);
            &&& w.cells.contains_key(c)
            &&& !v.cells.contains_key(c) ==> w.cells[c] == entry
            &&& v.cells.contains_key(c) ==> w == v
            &&& other != c ==> w.cells.contains_key(other) == v.cells.contains_key(other)
            &&& v.cells.contains_key(other) ==> w.cells[other] == v.cells[other]
            &&& same_request(v, w)
            &&& w.state == v.state
            &&& w.phase == v.phase
            &&& w.last_touched == v.last_touched
            &&& w.slice_started == v.slice_started
        }),
{
}

/// No move changes what was asked for, what was seen, or when the search was last worked on.
pub proof fn law_moves_keep_to_the_request(v: JobView, now: u64)
    ensures
        same_request(v, v.step(now).0),
        v.step(now).0.cells == v.cells,
        v.step(now).0.last_touched == v.last_touched,
        v.step(now).0.slice_started == v.slice_started,
{
}

/// Where a path is handed out, its turfs are its nodes on the z-level of the search; where a
/// diagonal is blocked there are none, and where a turf has to be seen first it is asked for.
pub proof fn law_turfs_are_those_of_the_path(v: JobView, nodes: Seq<Coord>)
    ensures
        match handed_out(v.rules, v.cells, v.diagonal_handling, v.skip_first, nodes) {
            Ok(Some(path)) => v.turfs_handed_out(nodes) matches Ok(turfs) && turfs.len() == path.len()
                && forall|i: int|
                0 <= i < path.len() ==> #[trigger] turfs[i] == (path[i].0, path[i].1, v.z),
            Ok(None) => v.turfs_handed_out(nodes) matches Ok(turfs) && turfs.len() == 0,
            Err(e) => v.turfs_handed_out(nodes) matches Err(f) && f == e,
        },
{
}

} // verus!
