//! Whole probes of a turf: what is asked of the host, and what is found out in the end.
use vstd::prelude::*;
use crate::coord::{is_cardinal_step, Coord, TurfCoords};
use crate::direction::{cardinal_at, has_flag, step_direction, CARDINAL_COUNT};
use crate::grid::TurfInfo;
use crate::host_value::number_or_zero;
use crate::map_laws::edge_bit;
use crate::probe::{
    asked_direction, blocker_count, condition_bit, pass_bit, ProbeAction, ProbeEvent, TurfProbe,
};
use crate::probe_laws::{
    countable, crossed, edge_open, follows, law_probe_ends, law_probe_tells_the_truth,
    law_seen_edges, rank, truthful, turf_seen, value_in_use, Blocker, HostTurf,
};
use crate::request_laws::means_yes;

verus! {

/// A turf of the host, with the blockers that it keeps under the number of a direction.
pub struct LiveTurf {
    /// The packed value.
    pub nav_pass: Option<i32>,
    /// The packed value once the turf was baked.
    pub baked: Option<i32>,
    pub blockers: spec_fn(i32) -> Seq<Blocker>,
}

/// A probe under way: what the host listed last, what is published, and how often the turf
/// was baked.
#[verifier::ext_equal]
pub struct Probing {
    pub probe: TurfProbe,
    pub listed: Seq<Blocker>,
    pub published: Map<TurfCoords, i32>,
    pub bakes: nat,
}

/// What the host answers to the pending request. It looks up blockers in the list that it was
/// asked for last, and lets a blocker answer for the direction that it is asked about.
pub open spec fn answer(turf: Option<LiveTurf>, s: Probing) -> ProbeEvent {
    match (turf, s.probe.action) {
        (None, _) => ProbeEvent::Missing,
        (Some(t), ProbeAction::Locate) => ProbeEvent::Present,
        (Some(t), ProbeAction::ReadNavPass) => ProbeEvent::NavPass(t.nav_pass),
        (Some(t), ProbeAction::Bake) => ProbeEvent::NavPass(t.baked),
        (Some(t), ProbeAction::ListBlockers(dir)) => ProbeEvent::Blockers(
            (t.blockers)(dir).len() as usize,
        ),
        (Some(t), ProbeAction::ExamineBlocker(index)) => match s.listed[index as int] {
            Blocker::Flags(flags) => ProbeEvent::Flags(flags),
            Blocker::Object { on_turf, .. } => ProbeEvent::Object { on_turf },
        },
        (Some(t), ProbeAction::AskBlocker { index, dir }) => match s.listed[index as int] {
            Blocker::Flags(flags) => ProbeEvent::Flags(flags),
            Blocker::Object { answers, .. } => ProbeEvent::Answer(answers(dir)),
        },
        (Some(t), ProbeAction::Done(_)) => ProbeEvent::Present,
    }
}

/// The probe after one answer.
pub open spec fn answered(turf: Option<LiveTurf>, s: Probing) -> Probing {
    let (probe, published) = s.probe.advanced(answer(turf, s), s.published);
    Probing {
        probe,
        published,
        listed: match (turf, s.probe.action) {
            (Some(t), ProbeAction::ListBlockers(dir)) => (t.blockers)(dir),
            _ => s.listed,
        },
        bakes: if s.probe.action is Bake {
            s.bakes + 1
        } else {
            s.bakes
        },
    }
}

/// The probe after `n` answers.
pub open spec fn after_answers(turf: Option<LiveTurf>, s: Probing, n: nat) -> Probing
    decreases n,
{
    if n == 0 {
        s
    } else {
        after_answers(turf, answered(turf, s), (n - 1) as nat)
    }
}

/// A probe that begins.
pub open spec fn begun(
    coords: TurfCoords,
    is_flying: bool,
    pass_flags: i32,
    published: Map<TurfCoords, i32>,
) -> Probing {
    Probing {
        probe: TurfProbe::start(coords, is_flying, pass_flags),
        listed: Seq::empty(),
        published,
        bakes: 0,
    }
}

/// The value that was published for a turf, or else the one that it has itself.
pub open spec fn first_value(
    turf: LiveTurf,
    published: Map<TurfCoords, i32>,
    coords: TurfCoords,
) -> i32 {
    if published.contains_key(coords) {
        published[coords]
    } else {
        match turf.nav_pass {
            Some(value) => value,
            None => 0,
        }
    }
}

/// The value that a bake leaves behind.
pub open spec fn baked_value(turf: LiveTurf) -> i32 {
    match turf.baked {
        Some(value) => value,
        None => 0,
    }
}

/// The value that counts: the first one if it is baked, else what a bake leaves behind.
pub open spec fn value_that_counts(
    turf: LiveTurf,
    published: Map<TurfCoords, i32>,
    coords: TurfCoords,
) -> i32 {
    let first = first_value(turf, published, coords);
    if first & 0x1000 != 0 {
        first
    } else {
        baked_value(turf)
    }
}

/// The blocker lets through what leaves the turf in direction `out`. One that stands on the far
/// turf is asked about the direction `back`, in which that turf faces this one.
pub open spec fn lets_through(blocker: Blocker, out: i32, back: i32, pass_flags: i32) -> bool {
    match blocker {
        Blocker::Flags(flags) => pass_flags & flags != 0,
        Blocker::Object { on_turf: true, answers } => means_yes(answers(out)),
        Blocker::Object { on_turf: false, answers } => means_yes(answers(back)),
    }
}

/// The edge in direction `out` can be crossed: its bit is set, and if the bit that makes it
/// depend on blockers is set too, each of them lets through.
pub open spec fn can_cross(
    turf: LiveTurf,
    value: i32,
    pass_flags: i32,
    bit: i32,
    condition: i32,
    out: i32,
    back: i32,
) -> bool {
    &&& value & 0x1000 != 0
    &&& value & bit != 0
    &&& value & condition != 0 ==> forall|k: int|
        0 <= k < (turf.blockers)(out).len() ==> lets_through(
            #[trigger] (turf.blockers)(out)[k],
            out,
            back,
            pass_flags,
        )
}

/// What is found out about a turf is true of it, edge by edge: up, down, right, left.
pub open spec fn is_true_of(
    turf: LiveTurf,
    value: i32,
    is_flying: bool,
    pass_flags: i32,
    info: TurfInfo,
) -> bool {
    &&& info.simulated <==> value & 0x2000 != 0
    &&& 0 <= info.open_edges < 16
    &&& info.open_edges & 0x1 != 0 <==> can_cross(
        turf,
        value,
        pass_flags,
        if is_flying {
            0x10
        } else {
            0x1
        },
        0x100,
        1,
        2,
    )
    &&& info.open_edges & 0x2 != 0 <==> can_cross(
        turf,
        value,
        pass_flags,
        if is_flying {
            0x20
        } else {
            0x2
        },
        0x200,
        2,
        1,
    )
    &&& info.open_edges & 0x4 != 0 <==> can_cross(
        turf,
        value,
        pass_flags,
        if is_flying {
            0x40
        } else {
            0x4
        },
        0x400,
        4,
        8,
    )
    &&& info.open_edges & 0x8 != 0 <==> can_cross(
        turf,
        value,
        pass_flags,
        if is_flying {
            0x80
        } else {
            0x8
        },
        0x800,
        8,
        4,
    )
}

/// The same turf, with its blockers by the order of the edges.
spec fn by_edge(turf: LiveTurf) -> HostTurf {
    HostTurf {
        nav_pass: turf.nav_pass,
        baked: turf.baked,
        blockers: |i: int| (turf.blockers)(cardinal_at(i)),
    }
}

spec fn host_of(turf: Option<LiveTurf>) -> Option<HostTurf> {
    match turf {
        None => None,
        Some(t) => Some(by_edge(t)),
    }
}

spec fn published_for(published: Map<TurfCoords, i32>, coords: TurfCoords) -> Option<i32> {
    if published.contains_key(coords) {
        Some(published[coords])
    } else {
        None
    }
}

/// What holds of a probe that began with `from` published.
spec fn on_track(turf: Option<LiveTurf>, from: Map<TurfCoords, i32>, s: Probing) -> bool {
    let p = s.probe;
    let at = p.coords;
    let first = first_value(turf->0, from, at);
    let fresh = s.published == from && s.bakes == 0;
    let settled = if turf is Some && first & 0x1000 == 0 {
        &&& s.bakes == 1
        &&& s.published == (if baked_value(turf->0) & 0x1000 != 0 {
            from.insert(at, baked_value(turf->0))
        } else {
            from
        })
    } else {
        fresh
    };
    &&& follows(host_of(turf), published_for(from, at), p)
    &&& p.wf()
    &&& match p.action {
        ProbeAction::Locate => fresh,
        ProbeAction::ReadNavPass => fresh,
        ProbeAction::Bake => fresh && first & 0x1000 == 0,
        ProbeAction::ExamineBlocker(_) => settled && s.listed == (turf->0.blockers)(
            cardinal_at(p.edge as int),
        ),
        ProbeAction::AskBlocker { .. } => settled && s.listed == (turf->0.blockers)(
            cardinal_at(p.edge as int),
        ),
        _ => settled,
    }
}

/// Going on with the edges leads to a list of blockers, or to the end.
proof fn lemma_seek_shape(p: TurfProbe, i: nat)
    requires
        p.edge < CARDINAL_COUNT,
    ensures
        p.seek(i).wf(),
        p.seek(i).action is ListBlockers || p.seek(i).action is Done,
        p.seek(i).coords == p.coords,
        p.seek(i).is_flying == p.is_flying,
        p.seek(i).pass_flags == p.pass_flags,
    decreases CARDINAL_COUNT - i,
{
    if i < CARDINAL_COUNT {
        if !has_flag(p.nav_pass, pass_bit(i as int, p.is_flying)) {
            lemma_seek_shape(p, i + 1);
        } else if !has_flag(p.nav_pass, condition_bit(i as int)) {
            lemma_seek_shape(
                TurfProbe { open_edges: p.open_edges | cardinal_at(i as int), ..p },
                i + 1,
            );
        }
    }
}

proof fn lemma_next_shape(p: TurfProbe, event: ProbeEvent, cached: Option<i32>)
    requires
        p.wf(),
    ensures
        ({
            let q = p.next(event, cached);
            &&& q.wf()
            &&& q.coords == p.coords
            &&& q.is_flying == p.is_flying
            &&& q.pass_flags == p.pass_flags
            &&& q.action is ExamineBlocker || q.action is AskBlocker ==> q.edge == p.edge && (
            p.action is ListBlockers || p.action is ExamineBlocker || p.action is AskBlocker)
            &&& !(p.action is Locate) ==> q == p.next(event, None)
            &&& event is NavPass && (p.action is ReadNavPass || p.action is Bake) ==> q.action
                is ListBlockers || q.action is Done || (p.action is ReadNavPass && q.action is Bake)
            &&& p.action is ReadNavPass && q.action is Bake ==> {
                let first = match p.cached {
                    Some(value) => value,
                    None => number_or_zero(event->NavPass_0),
                };
                first & 0x1000 == 0
            }
            &&& p.action is ListBlockers || p.action is ExamineBlocker || p.action is AskBlocker
                ==> q.action is ListBlockers || q.action is ExamineBlocker || q.action is AskBlocker
                || q.action is Done
        }),
{
    let opened = TurfProbe { open_edges: p.open_edges | cardinal_at(p.edge as int), ..p };
    lemma_seek_shape(p, (p.edge + 1) as nat);
    lemma_seek_shape(opened, (p.edge + 1) as nat);
    match event {
        ProbeEvent::NavPass(read) => {
            lemma_seek_shape(TurfProbe { nav_pass: number_or_zero(read), ..p }, 0);
            lemma_seek_shape(TurfProbe { nav_pass: p.cached->0, ..p }, 0);
        },
        ProbeEvent::Blockers(count) => {
            let counted = TurfProbe { blockers: count, ..p };
            lemma_seek_shape(counted, (p.edge + 1) as nat);
            lemma_seek_shape(TurfProbe { blockers: count, ..opened }, (p.edge + 1) as nat);
        },
        _ => {},
    }
}

proof fn lemma_one_answer(turf: Option<LiveTurf>, from: Map<TurfCoords, i32>, s: Probing)
    requires
        turf matches Some(t) ==> countable(by_edge(t)),
        on_track(turf, from, s),
        !(s.probe.action is Done),
    ensures
        on_track(turf, from, answered(turf, s)),
        answered(turf, s).probe.coords == s.probe.coords,
        answered(turf, s).probe.is_flying == s.probe.is_flying,
        answered(turf, s).probe.pass_flags == s.probe.pass_flags,
        turf is None ==> answered(turf, s).probe.action is Done,
        turf matches Some(t) ==> 0 <= rank(by_edge(t), answered(turf, s).probe) < rank(
            by_edge(t),
            s.probe,
        ),
{
    let p = s.probe;
    let at = p.coords;
    let host = host_of(turf);
    let cached = published_for(from, at);
    let event = answer(turf, s);
    assert(event == truthful(host, p)) by {
        if turf is Some {
            let t = turf->0;
            assert((by_edge(t).blockers)(p.edge as int) == (t.blockers)(cardinal_at(p.edge as int)));
        }
    }
    lemma_next_shape(p, event, cached);
    lemma_next_shape(p, event, published_for(s.published, at));
    law_probe_tells_the_truth(host, cached, p);
    if turf is Some {
        law_probe_ends(by_edge(turf->0), cached, p);
    }
}

proof fn lemma_probe_runs(turf: Option<LiveTurf>, from: Map<TurfCoords, i32>, s: Probing) -> (n: nat)
    requires
        turf matches Some(t) ==> countable(by_edge(t)),
        on_track(turf, from, s),
    ensures
        on_track(turf, from, after_answers(turf, s, n)),
        after_answers(turf, s, n).probe.action is Done,
        after_answers(turf, s, n).probe.coords == s.probe.coords,
        after_answers(turf, s, n).probe.is_flying == s.probe.is_flying,
        after_answers(turf, s, n).probe.pass_flags == s.probe.pass_flags,
    decreases
        if turf is Some && !(s.probe.action is Done) {
            rank(by_edge(turf->0), s.probe) + 1
        } else if s.probe.action is Done {
            0
        } else {
            1
        },
{
    if s.probe.action is Done {
        0
    } else {
        lemma_one_answer(turf, from, s);
        let n = lemma_probe_runs(turf, from, answered(turf, s));
        n + 1
    }
}

proof fn lemma_bits()
    ensures
        1i32 << 4i32 == 0x10,
        2i32 << 4i32 == 0x20,
        4i32 << 4i32 == 0x40,
        8i32 << 4i32 == 0x80,
        1i32 << 0i32 == 0x1,
        2i32 << 0i32 == 0x2,
        4i32 << 0i32 == 0x4,
        8i32 << 0i32 == 0x8,
        1i32 << 8i32 == 0x100,
        2i32 << 8i32 == 0x200,
        4i32 << 8i32 == 0x400,
        8i32 << 8i32 == 0x800,
{
    assert(1i32 << 4i32 == 0x10 && 2i32 << 4i32 == 0x20 && 4i32 << 4i32 == 0x40 && 8i32 << 4i32
        == 0x80 && 1i32 << 0i32 == 0x1 && 2i32 << 0i32 == 0x2 && 4i32 << 0i32 == 0x4 && 8i32
        << 0i32 == 0x8 && 1i32 << 8i32 == 0x100 && 2i32 << 8i32 == 0x200 && 4i32 << 8i32 == 0x400
        && 8i32 << 8i32 == 0x800) by (bit_vector);
}

proof fn lemma_edge_can_be_crossed(
    turf: LiveTurf,
    value: i32,
    is_flying: bool,
    pass_flags: i32,
    i: int,
    out: i32,
    back: i32,
)
    requires
        0 <= i < 4,
        out == cardinal_at(i),
        back == asked_direction(out, false),
        out == asked_direction(out, true),
    ensures
        value & 0x1000 != 0 && edge_open(by_edge(turf), value, is_flying, pass_flags, i)
            <==> can_cross(
            turf,
            value,
            pass_flags,
            pass_bit(i, is_flying),
            condition_bit(i),
            out,
            back,
        ),
{
    let list = (turf.blockers)(out);
    assert((by_edge(turf).blockers)(i) == list);
    assert forall|k: int| 0 <= k < list.len() implies crossed(#[trigger] list[k], out, pass_flags)
        == lets_through(list[k], out, back, pass_flags) by {}
    if forall|k: int|
        0 <= k < list.len() ==> crossed(#[trigger] list[k], cardinal_at(i), pass_flags) {
        assert forall|k: int| 0 <= k < list.len() implies lets_through(
            #[trigger] list[k],
            out,
            back,
            pass_flags,
        ) by {
            assert(crossed(list[k], cardinal_at(i), pass_flags));
        }
    } else {
        let k = choose|k: int|
            0 <= k < list.len() && !crossed(#[trigger] list[k], cardinal_at(i), pass_flags);
        assert(!lets_through(list[k], out, back, pass_flags));
    }
}

proof fn lemma_seen_is_true(
    turf: LiveTurf,
    cached: Option<i32>,
    is_flying: bool,
    pass_flags: i32,
)
    ensures
        is_true_of(
            turf,
            value_in_use(by_edge(turf), cached),
            is_flying,
            pass_flags,
            turf_seen(by_edge(turf), cached, is_flying, pass_flags),
        ),
{
    let host = by_edge(turf);
    let value = value_in_use(host, cached);
    lemma_bits();
    law_seen_edges(host, cached, is_flying, pass_flags, 0);
    law_seen_edges(host, cached, is_flying, pass_flags, 1);
    law_seen_edges(host, cached, is_flying, pass_flags, 2);
    law_seen_edges(host, cached, is_flying, pass_flags, 3);
    lemma_edge_can_be_crossed(turf, value, is_flying, pass_flags, 0, 1, 2);
    lemma_edge_can_be_crossed(turf, value, is_flying, pass_flags, 1, 2, 1);
    lemma_edge_can_be_crossed(turf, value, is_flying, pass_flags, 2, 4, 8);
    lemma_edge_can_be_crossed(turf, value, is_flying, pass_flags, 3, 8, 4);
}

/// A host holds no more blockers under a direction than it can count.
pub open spec fn is_countable(turf: LiveTurf) -> bool {
    forall|dir: i32| #[trigger] (turf.blockers)(dir).len() <= usize::MAX
}

/// A probe ends, and has then found out which edges of the turf can be crossed, and nothing of a
/// turf that is not there. The turf was baked once if the first value was not baked, and never
/// otherwise; what a bake left behind is published if it is baked, and nothing else is.
pub proof fn law_probe_finds_out_what_is_true(
    turf: Option<LiveTurf>,
    coords: TurfCoords,
    is_flying: bool,
    pass_flags: i32,
    published: Map<TurfCoords, i32>,
) -> (n: nat)
    requires
        turf matches Some(t) ==> is_countable(t),
    ensures
        ({
            let end = after_answers(turf, begun(coords, is_flying, pass_flags, published), n);
            match turf {
                None => {
                    &&& end.probe.action == ProbeAction::Done(None)
                    &&& end.published == published
                    &&& end.bakes == 0
                },
                Some(t) => {
                    let first = first_value(t, published, coords);
                    let value = value_that_counts(t, published, coords);
                    &&& end.probe.action matches ProbeAction::Done(Some(info)) && is_true_of(
                        t,
                        value,
                        is_flying,
                        pass_flags,
                        info,
                    )
                    &&& first & 0x1000 != 0 ==> end.bakes == 0 && end.published == published
                    &&& first & 0x1000 == 0 ==> end.bakes == 1 && end.published == (if value
                        & 0x1000 != 0 {
                        published.insert(coords, value)
                    } else {
                        published
                    })
                },
            }
        }),
{
    let s = begun(coords, is_flying, pass_flags, published);
    if turf is Some {
        let t = turf->0;
        assert forall|i: int| #[trigger] (by_edge(t).blockers)(i).len() <= usize::MAX by {
            assert((t.blockers)(cardinal_at(i)).len() <= usize::MAX);
        }
        lemma_seen_is_true(t, published_for(published, coords), is_flying, pass_flags);
    }
    let n = lemma_probe_runs(turf, published, s);
    n
}

/// A blocker is asked about the direction of the step that it may bar: one on the turf about the
/// step that leaves the turf, one on the far turf about the step back.
pub proof fn law_blockers_are_asked_about_the_step(turf: Coord, far: Coord, on_turf: bool)
    requires
        is_cardinal_step(turf, far),
    ensures
        asked_direction(step_direction(turf, far), on_turf) == (if on_turf {
            edge_bit(far.0 - turf.0, far.1 - turf.1)
        } else {
            edge_bit(turf.0 - far.0, turf.1 - far.1)
        }),
{
}

/// Every blocker in a list counts; an edge without a list has none.
pub proof fn law_every_listed_blocker_counts(n: usize)
    ensures
        blocker_count(Some(n)) == n,
        blocker_count(None) == 0,
{
}

} // verus!
