//! What becomes of the arguments of a request, from the reading of them to the list of turfs.
use vstd::prelude::*;
use crate::coord::{Coord, TurfCoords};
use crate::error::NavPathError;
use crate::grid::{GridRules, World};
use crate::host_value::{is_truthy, number_or_zero, HostValue};
use crate::map_laws::{
    diagonal_legs, law_route_cost_counts_steps, law_route_leads_to_the_goal, leads, within,
};
use crate::path::DiagonalHandling;
use crate::path_laws::{
    in_shape, law_expansion_is_handed_out, law_known_path_is_handed_out_in_shape,
    law_turfs_lie_on_the_level, node_handed_out,
};
use crate::request::{handling_for, AvoidTurf, SearchRequest};
use crate::search_answers::{is_answer, is_map, law_run_tells_the_truth};
use crate::search_model::{is_route, is_trace, JobView, Move};
use crate::search_runs::{run, Tick};

verus! {

/// What the host means by a value: nothing and zero mean no.
pub open spec fn means_yes(value: HostValue) -> bool {
    match value {
        HostValue::Null => false,
        HostValue::Number { zero } => !zero,
        HostValue::Other => true,
    }
}

/// A value counts as true exactly if the host means yes by it.
pub proof fn law_truth_is_what_the_host_means(value: HostValue)
    ensures
        is_truthy(value) <==> means_yes(value),
{
}

/// A number is taken as it is, and what is none as zero.
pub proof fn law_number_is_taken_as_it_is(n: i32)
    ensures
        number_or_zero(Some(n)) == n,
        number_or_zero(None) == 0,
{
}

/// The limit that a number asks for: none, written as zero, where it is none or not positive.
pub open spec fn asked_limit(number: Option<i32>) -> int {
    match number {
        Some(n) => if n > 0 {
            n as int
        } else {
            0
        },
        None => 0,
    }
}

/// The code one asks for every diagonal to be replaced, two for the clunky ones, and any other
/// for none.
pub proof fn law_codes_of_diagonal_handling(code: i32)
    ensures
        handling_for(Some(code)) == DiagonalHandling::RemoveAll <==> code == 1,
        handling_for(Some(code)) == DiagonalHandling::RemoveClunky <==> code == 2,
        handling_for(None) == DiagonalHandling::DoNothing,
{
}

/// The restrictions that a request asks for.
pub open spec fn asked_rules(request: SearchRequest) -> GridRules {
    let start = request.start->0;
    GridRules {
        start: (start.0, start.1),
        max_range: asked_limit(request.max_range) as i32,
        simulated_only: means_yes(request.simulated_only),
        avoid: match request.avoid {
            AvoidTurf::At(c) => if c.2 == start.2 {
                Some((c.0, c.1))
            } else {
                None
            },
            _ => None,
        },
    }
}

/// The search that is set up for a request starts, ends and keeps to the rules as its arguments
/// say, and has not seen or done anything yet.
pub proof fn law_request_is_read(request: SearchRequest, now: u64)
    requires
        request.start is Some,
        request.end is Some,
    ensures
        ({
            let start = request.start->0;
            let end = request.end->0;
            let job = request.job(now);
            &&& job.rules == asked_rules(request)
            &&& job.goal.0 == end.0
            &&& job.goal.1 == end.1
            &&& job.z == start.2
            &&& job.min_target_distance == asked_limit(request.min_target_distance)
            &&& job.is_flying == means_yes(request.is_flying)
            &&& job.skip_first == means_yes(request.skip_first)
            &&& request.pass_flags matches Some(flags) ==> job.pass_flags == flags
            &&& request.pass_flags is None ==> job.pass_flags == 0
            &&& job.diagonal_handling == DiagonalHandling::RemoveAll <==> request.diagonal_handling
                == Some(1i32)
            &&& job.diagonal_handling == DiagonalHandling::RemoveClunky
                <==> request.diagonal_handling == Some(2i32)
            &&& job.last_touched == now
            &&& job.slice_started == now
            &&& job.phase is Fresh
            &&& job.state.sequence == 0
            &&& job.state.frontier.len() == 0
            &&& forall|c: Coord|
                !(#[trigger] job.cells.contains_key(c)) && !(#[trigger] job.state.costs.contains_key(
                    c,
                )) && !(#[trigger] job.state.previous.contains_key(c))
        }),
{
}

/// A request is refused exactly if one of its turfs is none, or its ends lie on different
/// z-levels; what is wrong with the ends comes before what is wrong with the turf to avoid.
pub proof fn law_mistaken_requests(request: SearchRequest)
    ensures
        request.start is None || request.end is None ==> request.mistake() == Some(
            NavPathError::NotATurf,
        ),
        request.start matches Some(a) && request.end matches Some(b) && a.2 != b.2
            ==> request.mistake() == Some(NavPathError::DifferentZLevels),
        request.start matches Some(a) && request.end matches Some(b) && a.2 == b.2 && request.avoid
            is NotATurf ==> request.mistake() == Some(NavPathError::NotATurf),
        request.start matches Some(a) && request.end matches Some(b) && a.2 == b.2 && !(request.avoid
            is NotATurf) ==> request.mistake() is None,
{
}

/// A request has no hope exactly if it starts on the turf to avoid, or if its end lies farther
/// away than the range and the target distance reach together.
pub proof fn law_hopeless_requests(request: SearchRequest)
    requires
        request.mistake() is None,
    ensures
        ({
            let start = request.start->0;
            let end = request.end->0;
            let range = asked_limit(request.max_range);
            let reach = asked_limit(request.min_target_distance);
            request.is_hopeless() <==> (request.avoid matches AvoidTurf::At(c) && c == start) || (
            range > 0 && !within((start.0, start.1), (end.0, end.1), range + reach))
        }),
{
    let start = request.start->0;
    match request.avoid {
        AvoidTurf::At(c) => {
            assert(c == start <==> c.0 == start.0 && c.1 == start.1 && c.2 == start.2);
        },
        _ => {},
    }
}

/// What a way costs: ten for each step, and four more for each diagonal one.
pub open spec fn way_cost(path: Seq<Coord>) -> int {
    10 * (path.len() - 1) + 4 * diagonal_legs(path)
}

/// A way that a request asks for: from its start, by its rules, to within its target distance
/// of its end.
pub open spec fn asked_way(request: SearchRequest, world: World, path: Seq<Coord>) -> bool {
    leads(
        asked_rules(request),
        world,
        ((request.start->0).0, (request.start->0).1),
        ((request.end->0).0, (request.end->0).1),
        asked_limit(request.min_target_distance),
        path,
    )
}

/// The turfs are the nodes in the shape that the request asks for, on its z-level, without the
/// first one where that is to be left out.
pub open spec fn is_list_of(
    request: SearchRequest,
    world: World,
    nodes: Seq<Coord>,
    out: Seq<Coord>,
    turfs: Seq<TurfCoords>,
) -> bool {
    let skipped: int = if means_yes(request.skip_first) {
        1
    } else {
        0
    };
    let handling = if request.diagonal_handling == Some(1i32) {
        DiagonalHandling::RemoveAll
    } else if request.diagonal_handling == Some(2i32) {
        DiagonalHandling::RemoveClunky
    } else {
        DiagonalHandling::DoNothing
    };
    &&& in_shape(asked_rules(request), world, handling, nodes, out)
    &&& turfs.len() == out.len() - skipped
    &&& forall|i: int|
        0 <= i < turfs.len() ==> (#[trigger] turfs[i]).0 == out[i + skipped].0 && turfs[i].1 == out[i
            + skipped].1 && turfs[i].2 == (request.start->0).2
}

/// The nodes are a cheapest way that the request asks for, and are handed out as it asks.
pub open spec fn answers_request(
    request: SearchRequest,
    world: World,
    w: JobView,
    c: Coord,
    nodes: Seq<Coord>,
    out: Seq<Coord>,
) -> bool {
    &&& is_trace(w.state.previous, nodes, c)
    &&& asked_way(request, world, nodes)
    &&& forall|other: Seq<Coord>| #[trigger]
        asked_way(request, world, other) ==> way_cost(nodes) <= way_cost(other)
    &&& w.turfs_handed_out(nodes) matches Ok(turfs) && is_list_of(
        request,
        world,
        nodes,
        out,
        turfs,
    ) && (turfs.len() > 0 && asked_limit(request.min_target_distance) == 0 ==> turfs.last()
        == request.end->0)
}

/// A search finds what its request asks for exactly if the map has it: a cheapest way from the
/// start to the end, by the rules, which is handed out in the shape that was asked for, and
/// ends on the very turf that was named where no distance from it was allowed. It never ends
/// in any other way.
pub proof fn law_request_is_answered(
    request: SearchRequest,
    world: World,
    now: u64,
    ticks: Seq<Tick>,
)
    requires
        request.mistake() is None,
        is_map(world),
        run(request.job(now), world, ticks) is Some,
    ensures
        ({
            let (w, m) = run(request.job(now), world, ticks)->0;
            match m {
                Move::Found(c) => exists|nodes: Seq<Coord>, out: Seq<Coord>| #[trigger]
                    answers_request(request, world, w, c, nodes, out),
                Move::NoPath => forall|path: Seq<Coord>| !#[trigger]
                    asked_way(request, world, path),
                _ => false,
            }
        }),
{
    let v = request.job(now);
    law_request_is_read(request, now);
    law_run_tells_the_truth(v, world, ticks);
    let (w, m) = run(v, world, ticks)->0;
    let rules = asked_rules(request);
    let reach = asked_limit(request.min_target_distance);
    assert forall|path: Seq<Coord>| #[trigger] asked_way(request, world, path) <==> is_route(
        w.rules,
        world,
        w.goal,
        w.min_target_distance as int,
        path,
    ) by {
        law_route_leads_to_the_goal(rules, world, v.goal, reach, path);
    }
    match m {
        Move::Found(c) => {
            let nodes = choose|nodes: Seq<Coord>| #[trigger] is_answer(w, world, nodes, c);
            assert(asked_way(request, world, nodes));
            law_route_cost_counts_steps(nodes);
            assert forall|other: Seq<Coord>| #[trigger] asked_way(request, world, other) implies
                way_cost(nodes) <= way_cost(other) by {
                law_route_cost_counts_steps(other);
            }
            let handling = w.diagonal_handling;
            law_known_path_is_handed_out_in_shape(rules, w.cells, world, handling, nodes);
            let out = crate::path::known_expansion(rules, w.cells, handling, nodes)->Ok_0->0;
            law_expansion_is_handed_out(rules, w.cells, handling, w.skip_first, nodes);
            let list = crate::path::handed_out(
                rules,
                w.cells,
                handling,
                w.skip_first,
                nodes,
            )->Ok_0->0;
            let turfs = w.turfs_handed_out(nodes)->Ok_0;
            assert forall|i: int| 0 <= i < list.len() implies turfs[i] == (list[i].0, list[i].1, w.z) by {
                law_turfs_lie_on_the_level(list, w.z, i);
            }
            law_turfs_lie_on_the_level(list, w.z, 0);
            assert(node_handed_out(rules, world, handling, nodes, out, nodes.len() - 1));
            assert(node_handed_out(rules, world, handling, nodes, out, 0));
            assert(is_list_of(request, world, nodes, out, turfs));
            if turfs.len() > 0 {
                let k = turfs.len() - 1;
                assert(turfs[k].0 == out.last().0);
                assert(out.last() == nodes.last());
            }
            assert(answers_request(request, world, w, c, nodes, out));
        },
        _ => {},
    }
}

} // verus!
