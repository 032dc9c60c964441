//! What a probe finds out about a turf.
use vstd::prelude::*;
use crate::coord::TurfCoords;
use crate::direction::{
    cardinal_at, edge_mask, has_flag, law_edge_mask, lemma_or_adds, BAKED_FLAG, CARDINAL_COUNT,
    SIMULATED_FLAG,
};
use crate::grid::TurfInfo;
use crate::host_value::{is_truthy, number_or_zero, HostValue};
use crate::probe::{asked_direction, condition_bit, pass_bit, ProbeAction, ProbeEvent, TurfProbe};

verus! {

/// A blocker as the host keeps it.
pub enum Blocker {
    /// Any of the pass flags crosses it.
    Flags(i32),
    /// An object that answers, for a direction, whether it can be crossed.
    Object {
        on_turf: bool,
        answers: spec_fn(i32) -> HostValue,
    },
}

/// A turf as the host keeps it.
pub struct HostTurf {
    /// The packed value.
    pub nav_pass: Option<i32>,
    /// The packed value once the turf was baked.
    pub baked: Option<i32>,
    /// The blockers on each of the four edges.
    pub blockers: spec_fn(int) -> Seq<Blocker>,
}

/// The blocker lets through what leaves the turf in direction `dir`.
pub open spec fn crossed(blocker: Blocker, dir: i32, pass_flags: i32) -> bool {
    match blocker {
        Blocker::Flags(flags) => has_flag(pass_flags, flags),
        Blocker::Object { on_turf, answers } => is_truthy(answers(asked_direction(dir, on_turf))),
    }
}

/// The packed value that a search goes by: what was published, or else what the turf says,
/// if that is baked; otherwise what a bake yields.
pub open spec fn value_in_use(turf: HostTurf, cached: Option<i32>) -> i32 {
    let first = match cached {
        Some(value) => value,
        None => number_or_zero(turf.nav_pass),
    };
    if has_flag(first, BAKED_FLAG) {
        first
    } else {
        number_or_zero(turf.baked)
    }
}

/// The `i`-th edge is open: its bit is set, and if it is conditional, every blocker on it is
/// crossed.
pub open spec fn edge_open(
    turf: HostTurf,
    nav_pass: i32,
    is_flying: bool,
    pass_flags: i32,
    i: int,
) -> bool {
    &&& has_flag(nav_pass, pass_bit(i, is_flying))
    &&& has_flag(nav_pass, condition_bit(i)) ==> forall|k: int|
        0 <= k < (turf.blockers)(i).len() ==> crossed(
            #[trigger] (turf.blockers)(i)[k],
            cardinal_at(i),
            pass_flags,
        )
}

/// What a search sees of a turf. A turf that stays unbaked has no open edge.
pub open spec fn turf_seen(
    turf: HostTurf,
    cached: Option<i32>,
    is_flying: bool,
    pass_flags: i32,
) -> TurfInfo {
    let nav_pass = value_in_use(turf, cached);
    TurfInfo {
        open_edges: if has_flag(nav_pass, BAKED_FLAG) {
            edge_mask(
                edge_open(turf, nav_pass, is_flying, pass_flags, 0),
                edge_open(turf, nav_pass, is_flying, pass_flags, 1),
                edge_open(turf, nav_pass, is_flying, pass_flags, 2),
                edge_open(turf, nav_pass, is_flying, pass_flags, 3),
            )
        } else {
            0
        },
        simulated: has_flag(nav_pass, SIMULATED_FLAG),
    }
}

/// What a search sees where there may be no turf.
pub open spec fn place_seen(
    turf: Option<HostTurf>,
    cached: Option<i32>,
    is_flying: bool,
    pass_flags: i32,
) -> Option<TurfInfo> {
    match turf {
        None => None,
        Some(t) => Some(turf_seen(t, cached, is_flying, pass_flags)),
    }
}

/// A host holds no more blockers on an edge than it can count.
pub open spec fn countable(turf: HostTurf) -> bool {
    forall|i: int| #[trigger] (turf.blockers)(i).len() <= usize::MAX
}

/// The event with which a host answers the pending action truthfully.
pub open spec fn truthful(turf: Option<HostTurf>, p: TurfProbe) -> ProbeEvent {
    match turf {
        None => ProbeEvent::Missing,
        Some(t) => match p.action {
            ProbeAction::Locate => ProbeEvent::Present,
            ProbeAction::ReadNavPass => ProbeEvent::NavPass(t.nav_pass),
            ProbeAction::Bake => ProbeEvent::NavPass(t.baked),
            ProbeAction::ListBlockers(_) => ProbeEvent::Blockers(
                (t.blockers)(p.edge as int).len() as usize,
            ),
            ProbeAction::ExamineBlocker(index) => match (t.blockers)(p.edge as int)[index as int] {
                Blocker::Flags(flags) => ProbeEvent::Flags(flags),
                Blocker::Object { on_turf, .. } => ProbeEvent::Object { on_turf },
            },
            ProbeAction::AskBlocker { index, dir } => match (t.blockers)(p.edge as int)[index as int] {
                Blocker::Flags(flags) => ProbeEvent::Flags(flags),
                Blocker::Object { answers, .. } => ProbeEvent::Answer(answers(dir)),
            },
            ProbeAction::Done(_) => ProbeEvent::Present,
        },
    }
}

/// The open ones among the first `n` edges.
pub open spec fn first_edges(turf: HostTurf, p: TurfProbe, n: int) -> i32 {
    edge_mask(
        n > 0 && edge_open(turf, p.nav_pass, p.is_flying, p.pass_flags, 0),
        n > 1 && edge_open(turf, p.nav_pass, p.is_flying, p.pass_flags, 1),
        n > 2 && edge_open(turf, p.nav_pass, p.is_flying, p.pass_flags, 2),
        n > 3 && edge_open(turf, p.nav_pass, p.is_flying, p.pass_flags, 3),
    )
}

/// The probe looks at a conditional edge, and knows the edges before it.
pub open spec fn at_conditional_edge(turf: HostTurf, cached: Option<i32>, p: TurfProbe) -> bool {
    &&& p.edge < CARDINAL_COUNT
    &&& p.nav_pass == value_in_use(turf, cached)
    &&& has_flag(p.nav_pass, BAKED_FLAG)
    &&& has_flag(p.nav_pass, pass_bit(p.edge as int, p.is_flying))
    &&& has_flag(p.nav_pass, condition_bit(p.edge as int))
    &&& p.open_edges == first_edges(turf, p, p.edge as int)
}

/// The probe also knows that the first `index` blockers on the edge are crossed.
pub open spec fn at_blocker(turf: HostTurf, cached: Option<i32>, p: TurfProbe, index: int) -> bool {
    &&& at_conditional_edge(turf, cached, p)
    &&& p.blockers == (turf.blockers)(p.edge as int).len()
    &&& 0 <= index < p.blockers
    &&& forall|k: int|
        0 <= k < index ==> crossed(
            #[trigger] (turf.blockers)(p.edge as int)[k],
            cardinal_at(p.edge as int),
            p.pass_flags,
        )
}

/// Everything that the probe has found out so far is true of the turf.
pub open spec fn follows(turf: Option<HostTurf>, cached: Option<i32>, p: TurfProbe) -> bool {
    match p.action {
        ProbeAction::Locate => p == TurfProbe::start(p.coords, p.is_flying, p.pass_flags),
        ProbeAction::ReadNavPass => turf is Some && p.cached == cached && p.open_edges == 0 && p.edge
            == 0,
        ProbeAction::Bake => turf is Some && p.open_edges == 0 && p.edge == 0 && value_in_use(
            turf->0,
            cached,
        ) == number_or_zero(turf->0.baked),
        ProbeAction::ListBlockers(dir) => turf is Some && at_conditional_edge(turf->0, cached, p),
        ProbeAction::ExamineBlocker(index) => turf is Some && at_blocker(
            turf->0,
            cached,
            p,
            index as int,
        ),
        ProbeAction::AskBlocker { index, dir } => turf is Some && at_blocker(
            turf->0,
            cached,
            p,
            index as int,
        ) && ((turf->0.blockers)(p.edge as int)[index as int] matches Blocker::Object { on_turf, .. }
            && dir == asked_direction(cardinal_at(p.edge as int), on_turf)),
        ProbeAction::Done(info) => info == place_seen(turf, cached, p.is_flying, p.pass_flags),
    }
}

/// Adding the `i`-th edge to the open ones before it.
proof fn lemma_add_edge(turf: HostTurf, p: TurfProbe, i: int)
    requires
        0 <= i < CARDINAL_COUNT,
        p.open_edges == first_edges(turf, p, i),
    ensures
        edge_open(turf, p.nav_pass, p.is_flying, p.pass_flags, i) ==> p.open_edges | cardinal_at(i)
            == first_edges(turf, p, i + 1),
        !edge_open(turf, p.nav_pass, p.is_flying, p.pass_flags, i) ==> p.open_edges == first_edges(
            turf,
            p,
            i + 1,
        ),
{
    lemma_or_adds(p.open_edges);
}

/// Going on from an edge, with the edges before it known, keeps to the truth.
proof fn lemma_seek(turf: HostTurf, cached: Option<i32>, p: TurfProbe, i: nat)
    requires
        i <= CARDINAL_COUNT,
        p.nav_pass == value_in_use(turf, cached),
        has_flag(p.nav_pass, BAKED_FLAG),
        p.open_edges == first_edges(turf, p, i as int),
    ensures
        follows(Some(turf), cached, p.seek(i)),
        p.seek(i).is_flying == p.is_flying,
        p.seek(i).pass_flags == p.pass_flags,
        rank(turf, p.seek(i)) <= edges_rank(turf, i),
    decreases CARDINAL_COUNT - i,
{
    if i < CARDINAL_COUNT {
        lemma_add_edge(turf, p, i as int);
        if !has_flag(p.nav_pass, pass_bit(i as int, p.is_flying)) {
            lemma_seek(turf, cached, p, i + 1);
        } else if !has_flag(p.nav_pass, condition_bit(i as int)) {
            let q = TurfProbe { open_edges: p.open_edges | cardinal_at(i as int), ..p };
            assert(first_edges(turf, q, i as int + 1) == first_edges(turf, p, i as int + 1));
            lemma_seek(turf, cached, q, i + 1);
        } else {
            let q = p.seek(i);
            assert(first_edges(turf, q, i as int) == first_edges(turf, p, i as int));
        }
    }
}

/// Deciding the edge that was looked at keeps to the truth.
proof fn lemma_edge_decided(turf: HostTurf, cached: Option<i32>, p: TurfProbe, open: bool)
    requires
        at_conditional_edge(turf, cached, p),
        open == edge_open(turf, p.nav_pass, p.is_flying, p.pass_flags, p.edge as int),
    ensures
        follows(Some(turf), cached, p.edge_decided(open)),
        p.edge_decided(open).is_flying == p.is_flying,
        p.edge_decided(open).pass_flags == p.pass_flags,
        rank(turf, p.edge_decided(open)) <= edges_rank(turf, (p.edge + 1) as nat),
{
    lemma_add_edge(turf, p, p.edge as int);
    let next = (p.edge + 1) as nat;
    if open {
        let q = TurfProbe { open_edges: p.open_edges | cardinal_at(p.edge as int), ..p };
        assert(first_edges(turf, q, next as int) == first_edges(turf, p, next as int));
        lemma_seek(turf, cached, q, next);
    } else {
        lemma_seek(turf, cached, p, next);
    }
}

/// Going on past blockers that are crossed keeps to the truth.
proof fn lemma_next_blocker(turf: HostTurf, cached: Option<i32>, p: TurfProbe, index: int)
    requires
        at_conditional_edge(turf, cached, p),
        p.blockers == (turf.blockers)(p.edge as int).len(),
        0 <= index <= p.blockers,
        forall|k: int|
            0 <= k < index ==> crossed(
                #[trigger] (turf.blockers)(p.edge as int)[k],
                cardinal_at(p.edge as int),
                p.pass_flags,
            ),
    ensures
        follows(Some(turf), cached, p.next_blocker(index)),
        p.next_blocker(index).is_flying == p.is_flying,
        p.next_blocker(index).pass_flags == p.pass_flags,
        rank(turf, p.next_blocker(index)) <= edges_rank(turf, (p.edge + 1) as nat) + 2 * (p.blockers
            - index),
{
    if index < p.blockers {
        let q = p.next_blocker(index);
        assert(first_edges(turf, q, p.edge as int) == first_edges(turf, p, p.edge as int));
    } else {
        lemma_edge_decided(turf, cached, p, true);
    }
}

/// How many answers the edges from the `i`-th on can take.
pub open spec fn edges_rank(turf: HostTurf, i: nat) -> int
    decreases CARDINAL_COUNT - i,
{
    if i >= CARDINAL_COUNT {
        0
    } else {
        edges_rank(turf, i + 1) + 2 * (turf.blockers)(i as int).len() + 1
    }
}

/// How many answers a probe can still take.
pub open spec fn rank(turf: HostTurf, p: TurfProbe) -> int {
    let later = edges_rank(turf, (p.edge + 1) as nat);
    match p.action {
        ProbeAction::Locate => edges_rank(turf, 0) + 3,
        ProbeAction::ReadNavPass => edges_rank(turf, 0) + 2,
        ProbeAction::Bake => edges_rank(turf, 0) + 1,
        ProbeAction::ListBlockers(_) => later + 2 * (turf.blockers)(p.edge as int).len() + 1,
        ProbeAction::ExamineBlocker(index) => later + 2 * (p.blockers - index),
        ProbeAction::AskBlocker { index, .. } => later + 2 * (p.blockers - index) - 1,
        ProbeAction::Done(_) => 0,
    }
}

proof fn lemma_edges_rank(turf: HostTurf, i: nat)
    ensures
        edges_rank(turf, i) >= 0,
    decreases CARDINAL_COUNT - i,
{
    if i < CARDINAL_COUNT {
        lemma_edges_rank(turf, i + 1);
    }
}

/// A probe of a turf starts out true, and stays true with every truthful answer; when it is
/// done, it has found out what a search sees of the turf.
pub proof fn law_probe_tells_the_truth(turf: Option<HostTurf>, cached: Option<i32>, p: TurfProbe)
    requires
        turf matches Some(t) ==> countable(t),
        follows(turf, cached, p),
    ensures
        follows(turf, cached, p.next(truthful(turf, p), cached)),
        p.action matches ProbeAction::Done(info) ==> info == place_seen(
            turf,
            cached,
            p.is_flying,
            p.pass_flags,
        ),
        forall|coords: TurfCoords, is_flying: bool, pass_flags: i32|
            follows(turf, cached, #[trigger] TurfProbe::start(coords, is_flying, pass_flags)),
{
    if turf is Some {
        lemma_one_answer(turf->0, cached, p);
    }
}

/// A truthful answer brings a probe closer to its end: it is done after finitely many.
pub proof fn law_probe_ends(turf: HostTurf, cached: Option<i32>, p: TurfProbe)
    requires
        countable(turf),
        follows(Some(turf), cached, p),
        !(p.action is Done),
    ensures
        0 <= rank(turf, p.next(truthful(Some(turf), p), cached)) < rank(turf, p),
{
    lemma_one_answer(turf, cached, p);
}

proof fn lemma_rank_nonnegative(turf: HostTurf, cached: Option<i32>, p: TurfProbe)
    requires
        follows(Some(turf), cached, p),
    ensures
        rank(turf, p) >= 0,
{
    lemma_edges_rank(turf, 0);
    lemma_edges_rank(turf, (p.edge + 1) as nat);
}

proof fn lemma_one_answer(turf: HostTurf, cached: Option<i32>, p: TurfProbe)
    requires
        countable(turf),
        follows(Some(turf), cached, p),
    ensures
        follows(Some(turf), cached, p.next(truthful(Some(turf), p), cached)),
        !(p.action is Done) ==> 0 <= rank(turf, p.next(truthful(Some(turf), p), cached)) < rank(
            turf,
            p,
        ),
{
    let event = truthful(Some(turf), p);
    let q = p.next(event, cached);
    match p.action {
        ProbeAction::ReadNavPass => {
            let first = match p.cached {
                Some(value) => value,
                None => number_or_zero(turf.nav_pass),
            };
            let known = TurfProbe { nav_pass: first, ..p };
            assert(first_edges(turf, known, 0) == 0);
            if has_flag(first, BAKED_FLAG) {
                lemma_seek(turf, cached, known, 0);
            }
        },
        ProbeAction::Bake => {
            let known = TurfProbe { nav_pass: number_or_zero(turf.baked), ..p };
            assert(first_edges(turf, known, 0) == 0);
            lemma_edges_rank(turf, 0);
            if has_flag(known.nav_pass, BAKED_FLAG) {
                lemma_seek(turf, cached, known, 0);
            }
        },
        ProbeAction::ListBlockers(_) => {
            assert((turf.blockers)(p.edge as int).len() <= usize::MAX);
            let counted = TurfProbe {
                blockers: (turf.blockers)(p.edge as int).len() as usize,
                ..p
            };
            assert(first_edges(turf, counted, p.edge as int) == first_edges(
                turf,
                p,
                p.edge as int,
            ));
            lemma_next_blocker(turf, cached, counted, 0);
        },
        ProbeAction::ExamineBlocker(index) => {
            let blocker = (turf.blockers)(p.edge as int)[index as int];
            match blocker {
                Blocker::Flags(flags) => {
                    if has_flag(p.pass_flags, flags) {
                        lemma_next_blocker(turf, cached, p, index + 1);
                    } else {
                        assert(!crossed(blocker, cardinal_at(p.edge as int), p.pass_flags));
                        lemma_edge_decided(turf, cached, p, false);
                    }
                },
                Blocker::Object { .. } => {
                    assert(first_edges(turf, q, p.edge as int) == first_edges(
                        turf,
                        p,
                        p.edge as int,
                    ));
                },
            }
        },
        ProbeAction::AskBlocker { index, dir } => {
            let blocker = (turf.blockers)(p.edge as int)[index as int];
            match blocker {
                Blocker::Flags(_) => {},
                Blocker::Object { answers, .. } => {
                    if is_truthy(answers(dir)) {
                        lemma_next_blocker(turf, cached, p, index + 1);
                    } else {
                        assert(!crossed(blocker, cardinal_at(p.edge as int), p.pass_flags));
                        lemma_edge_decided(turf, cached, p, false);
                    }
                },
            }
        },
        _ => {},
    }
    lemma_rank_nonnegative(turf, cached, q);
}

/// A published value is the one in use if it is baked; an unbaked one is never used, and makes
/// the turf be baked anew.
pub proof fn law_published_value_decides(turf: HostTurf, published: i32)
    ensures
        has_flag(published, BAKED_FLAG) ==> value_in_use(turf, Some(published)) == published,
        !has_flag(published, BAKED_FLAG) ==> value_in_use(turf, Some(published))
            == number_or_zero(turf.baked),
{
}

/// A search sees an edge as open exactly if it is; a turf that stays unbaked has none.
pub proof fn law_seen_edges(turf: HostTurf, cached: Option<i32>, is_flying: bool, pass_flags: i32, i: int)
    requires
        0 <= i < CARDINAL_COUNT,
    ensures
        has_flag(turf_seen(turf, cached, is_flying, pass_flags).open_edges, cardinal_at(i)) == (
        has_flag(value_in_use(turf, cached), BAKED_FLAG) && edge_open(
            turf,
            value_in_use(turf, cached),
            is_flying,
            pass_flags,
            i,
        )),
{
    let nav_pass = value_in_use(turf, cached);
    law_edge_mask(
        edge_open(turf, nav_pass, is_flying, pass_flags, 0),
        edge_open(turf, nav_pass, is_flying, pass_flags, 1),
        edge_open(turf, nav_pass, is_flying, pass_flags, 2),
        edge_open(turf, nav_pass, is_flying, pass_flags, 3),
    );
    law_edge_mask(false, false, false, false);
}

} // verus!
