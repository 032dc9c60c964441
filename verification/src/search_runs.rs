//! Whole runs of a search: they end, and the slices they are cut into make no difference to how.
use vstd::prelude::*;
use crate::coord::{Coord, TurfCoords};
use crate::grid::World;
use crate::path::all_or_none;
use crate::request::SearchRequest;
use crate::response::{complete_view, in_progress_view, no_path_view, ResponseView};
use crate::search_laws::{
    law_moves_do_not_depend_on_time, law_trace_is_unique, law_yielding_changes_nothing,
    lemma_expand_ignores_time, lemma_yields_when_used_up, same_but_times,
};
use crate::search_model::{is_trace, JobView, Move, Phase};
use crate::search_progress::{
    coord_count, is_closer, law_answers_keep_the_invariant, law_answers_lead_to_the_end,
    law_moves_keep_the_invariant, law_moves_lead_to_the_end, pending, total_slack, unseen,
};

verus! {

/// When a move of a run is made, and when the next slice begins if that move ends a slice.
pub struct Tick {
    pub now: u64,
    pub resumed_at: u64,
}

/// The search at the beginning of a slice.
pub open spec fn resumed(v: JobView, now: u64) -> JobView {
    JobView { last_touched: now, slice_started: now, ..v }
}

/// How a run ends, if it does within its ticks. The turf at a coordinate that the run asks
/// for is what `world` says; a used up slice is followed by another one.
pub open spec fn run(v: JobView, world: World, ticks: Seq<Tick>) -> Option<(JobView, Move)>
    decreases ticks.len(),
{
    if ticks.len() == 0 {
        None
    } else {
        let (w, m) = v.step(ticks[0].now);
        match m {
            Move::Resolve(c) => run(w.resolved(c, world(c)), world, ticks.drop_first()),
            Move::Advanced => run(w, world, ticks.drop_first()),
            Move::InProgress => run(resumed(w, ticks[0].resumed_at), world, ticks.drop_first()),
            _ => Some((w, m)),
        }
    }
}

/// How a run ends that never uses up its slice, if it does within a number of moves.
pub open spec fn unbroken_run(v: JobView, world: World, moves: nat) -> Option<(JobView, Move)>
    decreases moves,
{
    if moves == 0 {
        None
    } else {
        let (w, m) = v.step(v.slice_started);
        match m {
            Move::Resolve(c) => unbroken_run(w.resolved(c, world(c)), world, (moves - 1) as nat),
            Move::Advanced => unbroken_run(w, world, (moves - 1) as nat),
            _ => Some((w, m)),
        }
    }
}

/// The same end of a search, but for its times.
pub open spec fn same_end(a: (JobView, Move), b: (JobView, Move)) -> bool {
    same_but_times(a.0, b.0) && a.1 == b.1
}

/// A move right at the beginning of a slice does not use it up.
proof fn lemma_unbroken_move(v: JobView)
    ensures
        !(v.step(v.slice_started).1 is InProgress),
{
    let s = match v.phase {
        Phase::Fresh => v.pushed(v.state, v.rules.start, 0),
        _ => v.state,
    };
    lemma_yields_when_used_up(v, s, v.slice_started);
    match v.phase {
        Phase::Expanding(e) => lemma_expand_ignores_time(v, v, v.state, e),
        _ => {},
    }
}

/// Unbroken runs do not depend on time.
proof fn lemma_unbroken_run_ignores_time(v: JobView, w: JobView, world: World, moves: nat)
    requires
        same_but_times(v, w),
    ensures
        unbroken_run(v, world, moves) is Some <==> unbroken_run(w, world, moves) is Some,
        unbroken_run(v, world, moves) is Some ==> same_end(
            unbroken_run(v, world, moves)->0,
            unbroken_run(w, world, moves)->0,
        ),
    decreases moves,
{
    if moves > 0 {
        lemma_unbroken_move(v);
        lemma_unbroken_move(w);
        law_moves_do_not_depend_on_time(v, w, v.slice_started, w.slice_started);
        let (v1, m) = v.step(v.slice_started);
        let (w1, _) = w.step(w.slice_started);
        let fewer = (moves - 1) as nat;
        match m {
            Move::Resolve(c) => lemma_unbroken_run_ignores_time(
                v1.resolved(c, world(c)),
                w1.resolved(c, world(c)),
                world,
                fewer,
            ),
            Move::Advanced => lemma_unbroken_run_ignores_time(v1, w1, world, fewer),
            _ => {},
        }
    }
}

/// Two searches whose next unbroken move is the same but for times have the same unbroken run.
proof fn lemma_same_first_move(v: JobView, w: JobView, world: World, moves: nat)
    requires
        v.step(v.slice_started).1 == w.step(w.slice_started).1,
        same_but_times(v.step(v.slice_started).0, w.step(w.slice_started).0),
    ensures
        unbroken_run(v, world, moves) is Some <==> unbroken_run(w, world, moves) is Some,
        unbroken_run(v, world, moves) is Some ==> same_end(
            unbroken_run(v, world, moves)->0,
            unbroken_run(w, world, moves)->0,
        ),
{
    if moves > 0 {
        let (v1, m) = v.step(v.slice_started);
        let (w1, _) = w.step(w.slice_started);
        let fewer = (moves - 1) as nat;
        match m {
            Move::Resolve(c) => lemma_unbroken_run_ignores_time(
                v1.resolved(c, world(c)),
                w1.resolved(c, world(c)),
                world,
                fewer,
            ),
            Move::Advanced => lemma_unbroken_run_ignores_time(v1, w1, world, fewer),
            _ => {},
        }
    }
}

/// More moves do not change how an unbroken run ended.
proof fn lemma_unbroken_run_has_one_end(v: JobView, world: World, a: nat, b: nat)
    requires
        unbroken_run(v, world, a) is Some,
        unbroken_run(v, world, b) is Some,
    ensures
        unbroken_run(v, world, a) == unbroken_run(v, world, b),
    decreases a,
{
    let (w, m) = v.step(v.slice_started);
    let fewer_a = (a - 1) as nat;
    let fewer_b = (b - 1) as nat;
    match m {
        Move::Resolve(c) => lemma_unbroken_run_has_one_end(
            w.resolved(c, world(c)),
            world,
            fewer_a,
            fewer_b,
        ),
        Move::Advanced => lemma_unbroken_run_has_one_end(w, world, fewer_a, fewer_b),
        _ => {},
    }
}

/// A search that is run in any slices ends like one that never yields: with the same move, the
/// same turfs seen, the same costs and the same way back from every coordinate.
pub proof fn law_sliced_run_ends_like_unbroken_run(
    v: JobView,
    world: World,
    ticks: Seq<Tick>,
) -> (moves: nat)
    requires
        run(v, world, ticks) is Some,
    ensures
        unbroken_run(v, world, moves) is Some,
        same_end(unbroken_run(v, world, moves)->0, run(v, world, ticks)->0),
        moves <= ticks.len(),
    decreases ticks.len(),
{
    let now = ticks[0].now;
    let rest = ticks.drop_first();
    let (w, m) = v.step(now);
    lemma_unbroken_move(v);
    if m is InProgress {
        let r = resumed(w, ticks[0].resumed_at);
        let moves = law_sliced_run_ends_like_unbroken_run(r, world, rest);
        lemma_unbroken_move(r);
        law_yielding_changes_nothing(v, now, ticks[0].resumed_at, r.slice_started, v.slice_started);
        lemma_same_first_move(v, r, world, moves);
        moves
    } else {
        law_moves_do_not_depend_on_time(v, v, now, v.slice_started);
        assert(v.step(v.slice_started).0 == w);
        match m {
            Move::Resolve(c) => {
                let moves = law_sliced_run_ends_like_unbroken_run(
                    w.resolved(c, world(c)),
                    world,
                    rest,
                );
                moves + 1
            },
            Move::Advanced => {
                let moves = law_sliced_run_ends_like_unbroken_run(w, world, rest);
                moves + 1
            },
            _ => { 1 },
        }
    }
}

/// A search ends: a run that never uses up its slice is over after finitely many moves,
/// whatever the map.
pub proof fn law_run_ends(v: JobView, world: World) -> (moves: nat)
    requires
        v.inv(),
    ensures
        unbroken_run(v, world, moves) is Some,
    decreases
        unseen(v.cells, coord_count()),
        total_slack(v.state.costs, coord_count()),
        pending(v),
{
    let now = v.slice_started;
    let (w, m) = v.step(now);
    lemma_unbroken_move(v);
    law_moves_keep_the_invariant(v, now);
    match m {
        Move::Resolve(c) => {
            law_answers_lead_to_the_end(v, now, world(c));
            law_answers_keep_the_invariant(w, c, world(c));
            let moves = law_run_ends(w.resolved(c, world(c)), world);
            moves + 1
        },
        Move::Advanced => {
            law_moves_lead_to_the_end(v, now);
            assert(is_closer(v, w));
            let moves = law_run_ends(w, world);
            moves + 1
        },
        _ => { 1 },
    }
}

/// The moves of a run that do not just end a slice.
pub open spec fn working_moves(v: JobView, world: World, ticks: Seq<Tick>) -> nat
    decreases ticks.len(),
{
    if ticks.len() == 0 {
        0
    } else {
        let (w, m) = v.step(ticks[0].now);
        let rest = ticks.drop_first();
        match m {
            Move::Resolve(c) => 1 + working_moves(w.resolved(c, world(c)), world, rest),
            Move::Advanced => 1 + working_moves(w, world, rest),
            Move::InProgress => working_moves(resumed(w, ticks[0].resumed_at), world, rest),
            _ => 1,
        }
    }
}

/// A search in slices ends too: once its slices held as many moves as an unbroken run needs, it
/// is over.
pub proof fn law_sliced_run_ends(v: JobView, world: World, ticks: Seq<Tick>, moves: nat)
    requires
        unbroken_run(v, world, moves) is Some,
        working_moves(v, world, ticks) >= moves,
    ensures
        run(v, world, ticks) is Some,
    decreases ticks.len(),
{
    let now = ticks[0].now;
    let rest = ticks.drop_first();
    let (w, m) = v.step(now);
    lemma_unbroken_move(v);
    if m is InProgress {
        let r = resumed(w, ticks[0].resumed_at);
        lemma_unbroken_move(r);
        law_yielding_changes_nothing(v, now, ticks[0].resumed_at, r.slice_started, v.slice_started);
        lemma_same_first_move(v, r, world, moves);
        law_sliced_run_ends(r, world, rest, moves);
    } else {
        law_moves_do_not_depend_on_time(v, v, now, v.slice_started);
        assert(v.step(v.slice_started).0 == w);
        let fewer = (moves - 1) as nat;
        match m {
            Move::Resolve(c) => law_sliced_run_ends(w.resolved(c, world(c)), world, rest, fewer),
            Move::Advanced => law_sliced_run_ends(w, world, rest, fewer),
            _ => {},
        }
    }
}

/// However two runs of one search are cut into slices, they end alike.
pub proof fn law_runs_end_alike(
    v: JobView,
    w: JobView,
    world: World,
    ticks_v: Seq<Tick>,
    ticks_w: Seq<Tick>,
)
    requires
        same_but_times(v, w),
        run(v, world, ticks_v) is Some,
        run(w, world, ticks_w) is Some,
    ensures
        same_end(run(v, world, ticks_v)->0, run(w, world, ticks_w)->0),
{
    let moves_v = law_sliced_run_ends_like_unbroken_run(v, world, ticks_v);
    let moves_w = law_sliced_run_ends_like_unbroken_run(w, world, ticks_w);
    lemma_unbroken_run_ignores_time(v, w, world, moves_v);
    lemma_unbroken_run_has_one_end(w, world, moves_v, moves_w);
}

/// The list that is handed out for the nodes of a found path, where `located` says which turf
/// of the host lies where.
pub open spec fn handed_list<P>(
    v: JobView,
    nodes: Seq<Coord>,
    located: spec_fn(TurfCoords) -> Option<P>,
) -> Seq<P> {
    all_or_none(v.turfs_handed_out(nodes)->Ok_0.map_values(located))
}

/// The list that a call which waits for the end of the search returns. `nodes` are those of the
/// path, if one was found.
pub open spec fn list_at_end<P>(
    end: (JobView, Move),
    nodes: Seq<Coord>,
    located: spec_fn(TurfCoords) -> Option<P>,
) -> Seq<P> {
    match end.1 {
        Move::Found(_) => handed_list(end.0, nodes, located),
        _ => Seq::empty(),
    }
}

/// What the caller of a search in slices is told once a slice ended.
pub open spec fn response_at_end<P>(
    end: (JobView, Move),
    job_id: u64,
    nodes: Seq<Coord>,
    located: spec_fn(TurfCoords) -> Option<P>,
) -> ResponseView<Seq<P>> {
    match end.1 {
        Move::Found(_) => complete_view(handed_list(end.0, nodes, located)),
        Move::NoPath => no_path_view(Seq::empty()),
        _ => in_progress_view(job_id),
    }
}

/// The nodes of a path that was found at the end of a run.
pub open spec fn nodes_at_end(end: (JobView, Move), nodes: Seq<Coord>) -> bool {
    end.1 matches Move::Found(c) ==> is_trace(end.0.state.previous, nodes, c)
}

/// A request that is started and resumed until it is over is answered like one whose caller
/// waits, as long as the host gives the same answers: it is complete with the very list that
/// the other caller gets, or there is no path and both lists are empty.
pub proof fn law_resumed_search_answers_like_blocking_search<P>(
    request: SearchRequest,
    world: World,
    located: spec_fn(TurfCoords) -> Option<P>,
    job_id: u64,
    started: u64,
    called: u64,
    sliced: Seq<Tick>,
    blocking: Seq<Tick>,
    nodes_sliced: Seq<Coord>,
    nodes_blocking: Seq<Coord>,
)
    requires
        run(request.job(started), world, sliced) is Some,
        run(request.job(called), world, blocking) is Some,
        !((run(request.job(called), world, blocking)->0).1 is OutOfRange),
        nodes_at_end(run(request.job(started), world, sliced)->0, nodes_sliced),
        nodes_at_end(run(request.job(called), world, blocking)->0, nodes_blocking),
    ensures
        ({
            let response = response_at_end(
                run(request.job(started), world, sliced)->0,
                job_id,
                nodes_sliced,
                located,
            );
            let list = list_at_end(
                run(request.job(called), world, blocking)->0,
                nodes_blocking,
                located,
            );
            ||| response == complete_view(list) && nodes_sliced == nodes_blocking
            ||| response == no_path_view(list) && list.len() == 0
        }),
{
    law_runs_end_alike(request.job(started), request.job(called), world, sliced, blocking);
    let (v, m) = run(request.job(started), world, sliced)->0;
    let (w, _) = run(request.job(called), world, blocking)->0;
    lemma_run_is_over(request.job(started), world, sliced);
    match m {
        Move::Found(c) => {
            law_trace_is_unique(v.state.previous, nodes_sliced, nodes_blocking, c);
            assert(v.turfs_handed_out(nodes_sliced) == w.turfs_handed_out(nodes_blocking));
        },
        _ => {},
    }
}

proof fn lemma_run_is_over(v: JobView, world: World, ticks: Seq<Tick>)
    requires
        run(v, world, ticks) is Some,
    ensures
        ({
            let m = (run(v, world, ticks)->0).1;
            m is Found || m is NoPath || m is OutOfRange
        }),
    decreases ticks.len(),
{
    let (w, m) = v.step(ticks[0].now);
    match m {
        Move::Resolve(c) => lemma_run_is_over(
            w.resolved(c, world(c)),
            world,
            ticks.drop_first(),
        ),
        Move::Advanced => lemma_run_is_over(w, world, ticks.drop_first()),
        Move::InProgress => lemma_run_is_over(
            resumed(w, ticks[0].resumed_at),
            world,
            ticks.drop_first(),
        ),
        _ => {},
    }
}

} // verus!
