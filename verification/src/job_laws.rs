//! Why job ids are never mixed up, in whatever order calls reach the registry.
use vstd::prelude::*;
use crate::decimal::{law_decimal_reads_back, parsed};
use crate::jobs::{
    active_jobs, after_naming, cancel_answer, conclusion, is_active, job_id_of, resume_answer,
    start_answer, JobIdValue, RegistryCall, RegistryView, SliceOutcome,
};
use crate::map_laws::within;
use crate::request::{AvoidTurf, SearchRequest};
use crate::request_laws::{
    asked_limit, law_hopeless_requests, law_mistaken_requests, law_request_is_read,
};
use crate::response::{
    cancelled_view, invalid_job_view, no_path_view, response_fields, unknown_job_view, FieldView, ResponseView,
};
use crate::search::SearchJob;

verus! {

/// The registry together with the calls that are under way.
#[verifier::ext_equal]
pub struct JobDesk {
    pub registry: RegistryView,
    /// The job ids of the searches that calls work on.
    pub held: Set<u64>,
    /// How many job ids were handed out.
    pub drawn: nat,
}

impl JobDesk {
    pub open spec fn empty() -> JobDesk {
        JobDesk { registry: RegistryView::empty(), held: Set::empty(), drawn: 0 }
    }

    /// A search is kept only by the call that works on it. The number of job ids is that of 64
    /// bits without zero.
    pub open spec fn allows(self, call: RegistryCall) -> bool {
        match call {
            RegistryCall::Draw => self.drawn < u64::MAX,
            RegistryCall::KeepStarted { id, .. } => self.held.contains(id),
            RegistryCall::KeepResumed { id, .. } => self.held.contains(id),
            RegistryCall::Take { .. } => true,
        }
    }

    pub open spec fn after(self, call: RegistryCall) -> JobDesk {
        JobDesk {
            registry: self.registry.after(call),
            held: match call {
                RegistryCall::Draw => self.held.insert(self.registry.next_id),
                RegistryCall::KeepStarted { id, .. } => self.held.remove(id),
                RegistryCall::KeepResumed { id, .. } => self.held.remove(id),
                RegistryCall::Take { id, now } => if active_jobs(
                    self.registry.jobs,
                    now,
                ).contains_key(id) {
                    self.held.insert(id)
                } else {
                    self.held
                },
            },
            drawn: if call is Draw {
                self.drawn + 1
            } else {
                self.drawn
            },
        }
    }

    pub open spec fn allows_all(self, calls: Seq<RegistryCall>) -> bool
        decreases calls.len(),
    {
        calls.len() == 0 || {
            &&& self.allows(calls[0])
            &&& self.after(calls[0]).allows_all(calls.drop_first())
        }
    }

    pub open spec fn after_all(self, calls: Seq<RegistryCall>) -> JobDesk
        decreases calls.len(),
    {
        if calls.len() == 0 {
            self
        } else {
            self.after(calls[0]).after_all(calls.drop_first())
        }
    }

    /// Job ids count up from one; those of searches that are kept or worked on were handed
    /// out, and no search is both.
    pub open spec fn inv(self) -> bool {
        &&& self.drawn <= u64::MAX
        &&& self.registry.next_id == (if self.drawn == u64::MAX {
            0
        } else {
            self.drawn + 1
        })
        &&& forall|id: u64| #[trigger]
            self.registry.jobs.contains_key(id) ==> 1 <= id <= self.drawn && !self.held.contains(id)
        &&& forall|id: u64| #[trigger] self.held.contains(id) ==> 1 <= id <= self.drawn
    }
}

/// The invariant holds at first, and every call keeps it.
pub proof fn law_calls_keep_ids_apart(desk: JobDesk, calls: Seq<RegistryCall>)
    requires
        desk.allows_all(calls),
    ensures
        JobDesk::empty().inv(),
        desk.inv() ==> desk.after_all(calls).inv(),
        desk.after_all(calls).drawn >= desk.drawn,
    decreases calls.len(),
{
    if calls.len() > 0 {
        law_calls_keep_ids_apart(desk.after(calls[0]), calls.drop_first());
    }
}

/// While job ids have not started over, every one is below the next.
pub proof fn law_desk_keeps_ids_below_next(desk: JobDesk)
    requires
        desk.inv(),
        desk.drawn < u64::MAX,
    ensures
        desk.registry.ids_below_next(),
{
}

/// Of two job ids the later one is larger, whatever became of the search under the first one;
/// so no job id is handed out twice.
pub proof fn law_later_id_is_larger(desk: JobDesk, between: Seq<RegistryCall>)
    requires
        desk.inv(),
        desk.allows(RegistryCall::Draw),
        desk.after(RegistryCall::Draw).allows_all(between),
        desk.after(RegistryCall::Draw).after_all(between).allows(RegistryCall::Draw),
    ensures
        ({
            let later = desk.after(RegistryCall::Draw).after_all(between);
            &&& desk.registry.next_id < later.registry.next_id
            &&& !later.registry.jobs.contains_key(later.registry.next_id)
            &&& !later.held.contains(later.registry.next_id)
        }),
{
    let first = desk.after(RegistryCall::Draw);
    assert(first.inv());
    law_calls_keep_ids_apart(first, between);
}

/// A search that starts takes the place of no other: nothing is kept under its job id, and the
/// other searches stay unless they expired.
pub proof fn law_started_search_displaces_none(
    desk: JobDesk,
    id: u64,
    job: Option<SearchJob>,
    now: u64,
    other: u64,
)
    requires
        desk.inv(),
        desk.allows(RegistryCall::KeepStarted { id, job, now }),
    ensures
        !desk.registry.jobs.contains_key(id),
        ({
            let kept = desk.after(RegistryCall::KeepStarted { id, job, now }).registry.jobs;
            desk.registry.jobs.contains_key(other) && is_active(desk.registry.jobs[other], now)
                ==> kept.contains_key(other) && kept[other] == desk.registry.jobs[other]
        }),
{
}

/// The call neither asks for the search nor comes when the search has expired.
pub open spec fn spares(call: RegistryCall, id: u64, job: SearchJob) -> bool {
    match call {
        RegistryCall::Draw => true,
        RegistryCall::KeepStarted { now, .. } => is_active(job, now),
        RegistryCall::KeepResumed { .. } => true,
        RegistryCall::Take { id: other, now } => other != id && is_active(job, now),
    }
}

/// A search that is kept is there, as it was left, when it is asked for in time, whatever
/// calls for other searches came in between.
pub proof fn law_kept_search_waits(desk: JobDesk, calls: Seq<RegistryCall>, id: u64, now: u64)
    requires
        desk.inv(),
        desk.allows_all(calls),
        desk.registry.jobs.contains_key(id),
        forall|i: int|
            0 <= i < calls.len() ==> spares(#[trigger] calls[i], id, desk.registry.jobs[id]),
        is_active(desk.registry.jobs[id], now),
    ensures
        ({
            let jobs = desk.after_all(calls).registry.jobs;
            active_jobs(jobs, now).contains_key(id) && jobs[id] == desk.registry.jobs[id]
        }),
    decreases calls.len(),
{
    if calls.len() > 0 {
        let next = desk.after(calls[0]);
        assert(spares(calls[0], id, desk.registry.jobs[id]));
        assert(next.registry.jobs.contains_key(id));
        assert(next.inv());
        let rest = calls.drop_first();
        assert forall|i: int| 0 <= i < rest.len() implies spares(
            #[trigger] rest[i],
            id,
            next.registry.jobs[id],
        ) by {
            assert(rest[i] == calls[i + 1]);
        }
        law_kept_search_waits(next, rest, id, now);
    }
}

/// A search is kept for thirty seconds after it was last worked on, and not a moment longer.
pub proof fn law_search_is_kept_for_thirty_seconds(jobs: Map<u64, SearchJob>, now: u64, id: u64)
    ensures
        active_jobs(jobs, now).contains_key(id) <==> jobs.contains_key(id) && now
            < jobs[id]@.last_touched + 30_000_000_000,
        active_jobs(jobs, now).contains_key(id) ==> active_jobs(jobs, now)[id] == jobs[id],
{
}

/// What is kept under `other` after a call is what was kept there before, unless it had not been
/// worked on for thirty seconds.
pub open spec fn kept_unless_expired(
    before: Map<u64, SearchJob>,
    after: Map<u64, SearchJob>,
    now: u64,
    other: u64,
) -> bool {
    &&& after.contains_key(other) <==> before.contains_key(other) && now
        < before[other]@.last_touched + 30_000_000_000
    &&& after.contains_key(other) ==> after[other] == before[other]
}

/// Handing out a job id keeps all searches; ids count up, and start over from zero after the
/// last one.
pub proof fn law_drawing_an_id(registry: RegistryView)
    ensures
        ({
            let after = registry.after(RegistryCall::Draw);
            &&& after.jobs == registry.jobs
            &&& registry.next_id < 0xffff_ffff_ffff_ffff ==> after.next_id == registry.next_id + 1
            &&& registry.next_id == 0xffff_ffff_ffff_ffff ==> after.next_id == 0
        }),
{
}

/// A search that yielded is kept under its id, as it is; one that did not changes nothing. Where
/// it was its first slice, searches that expired go.
pub proof fn law_keeping_a_search(
    registry: RegistryView,
    id: u64,
    job: SearchJob,
    now: u64,
    other: u64,
)
    requires
        other != id,
    ensures
        ({
            let started = registry.after(
                RegistryCall::KeepStarted { id, job: Some(job), now },
            );
            let again = registry.after(RegistryCall::KeepResumed { id, job: Some(job) });
            &&& started.jobs.contains_key(id) && started.jobs[id] == job
            &&& kept_unless_expired(registry.jobs, started.jobs, now, other)
            &&& started.next_id == registry.next_id
            &&& again.jobs.contains_key(id) && again.jobs[id] == job
            &&& again.jobs.contains_key(other) == registry.jobs.contains_key(other)
            &&& registry.jobs.contains_key(other) ==> again.jobs[other] == registry.jobs[other]
            &&& again.next_id == registry.next_id
        }),
        registry.after(RegistryCall::KeepStarted { id, job: None, now }) == registry,
        registry.after(RegistryCall::KeepResumed { id, job: None }) == registry,
{
}

/// Taking a search out leaves nothing under its id, and the others unless they expired.
pub proof fn law_taking_a_search_out(registry: RegistryView, id: u64, now: u64, other: u64)
    requires
        other != id,
    ensures
        ({
            let after = registry.after(RegistryCall::Take { id, now });
            &&& !after.jobs.contains_key(id)
            &&& kept_unless_expired(registry.jobs, after.jobs, now, other)
            &&& after.next_id == registry.next_id
        }),
{
}

/// A job id is a whole number that is not negative, or a text that reads as a number.
pub proof fn law_job_ids_are_numbers_or_texts(number: u64, text: String)
    ensures
        job_id_of(JobIdValue::Number { whole: true, value: number }) == Some(number),
        job_id_of(JobIdValue::Number { whole: false, value: number }) is None,
        job_id_of(JobIdValue::Text(Some(text))) == parsed(text@),
        job_id_of(JobIdValue::Text(None)) is None,
{
}

/// Only a search that yielded is kept, as it is. Its caller is told its id, and gets a path, or
/// the reason of a failure, exactly if the search is over with one.
pub proof fn law_slices_are_concluded<P>(job: SearchJob, id: u64, path: P, reason: String)
    ensures
        ({
            let (kept, told) = conclusion(job, id, Ok(SliceOutcome::<P>::InProgress));
            &&& kept == Some(job)
            &&& told.job_id == Some(id) && told.path is None && told.error is None
            &&& told.status == "in_progress"@
        }),
        ({
            let (kept, told) = conclusion(job, id, Ok(SliceOutcome::NoPath(path)));
            &&& kept is None
            &&& told.job_id is None && told.path == Some(path) && told.error is None
            &&& told.status == "no_path"@
        }),
        ({
            let (kept, told) = conclusion(job, id, Ok(SliceOutcome::Found(path)));
            &&& kept is None
            &&& told.job_id is None && told.path == Some(path) && told.error is None
            &&& told.status == "complete"@
        }),
        ({
            let (kept, told) = conclusion::<P>(job, id, Err(reason));
            &&& kept is None
            &&& told.job_id == Some(id) && told.path is None && told.error == Some(reason@)
            &&& told.status == "error"@
        }),
{
}

/// Calling a search off tells its id; a job id that names none is told so, and what is no job
/// id at all likewise. None of these tells a path.
pub proof fn law_other_calls_are_answered<P>(id: u64)
    ensures
        ({
            let told = cancelled_view::<P>(id);
            &&& told.status == "cancelled"@
            &&& told.job_id == Some(id) && told.path is None && told.error is None
        }),
        ({
            let told = unknown_job_view::<P>(id);
            &&& told.status == "error"@
            &&& told.job_id == Some(id) && told.path is None
            &&& told.error == Some("unknown or expired navmap pathfinder job"@)
        }),
        ({
            let told = invalid_job_view::<P>();
            &&& told.status == "error"@
            &&& told.job_id is None && told.path is None
            &&& told.error == Some("invalid navmap pathfinder job ID"@)
        }),
{
}

/// A response shows its status first, then each of job id, path and error that it has, in this
/// order, and nothing else; the job id is shown as a text that reads as the id.
pub proof fn law_response_shows_its_fields<P>(r: ResponseView<P>)
    ensures
        ({
            let fields = response_fields(r);
            let ids: int = if r.job_id is Some {
                1
            } else {
                0
            };
            let paths: int = if r.path is Some {
                1
            } else {
                0
            };
            let errors: int = if r.error is Some {
                1
            } else {
                0
            };
            &&& fields.len() == 1 + ids + paths + errors
            &&& fields[0].0 == "status"@ && fields[0].1 == FieldView::<P>::Text(r.status)
            &&& r.job_id matches Some(id) ==> fields[1].0 == "job_id"@ && (fields[1].1 matches FieldView::Text(
                text,
            ) && parsed(text) == Some(id))
            &&& r.path matches Some(path) ==> fields[1 + ids].0 == "path"@ && fields[1 + ids].1
                == FieldView::Path(path)
            &&& r.error matches Some(error) ==> fields[1 + ids + paths].0 == "error"@ && fields[1
                + ids + paths].1 == FieldView::<P>::Text(error)
        }),
{
    if r.job_id is Some {
        law_decimal_reads_back(r.job_id->0);
    }
}

/// A search is kept under the id, and was worked on within the last thirty seconds.
pub open spec fn waits(registry: RegistryView, id: u64, now: u64) -> bool {
    registry.jobs.contains_key(id) && now < registry.jobs[id]@.last_touched + 30_000_000_000
}

/// Whoever names a search that waits gets it, or is told that it was called off, and it is gone;
/// whoever names another one, or none, is told so.
pub proof fn law_named_searches_are_found<P>(registry: RegistryView, named: JobIdValue, now: u64, id: u64)
    requires
        match named {
            JobIdValue::Number { whole, value } => whole && value == id,
            JobIdValue::Text(text) => text is Some && parsed((text->0)@) == Some(id),
        },
    ensures
        waits(registry, id, now) ==> {
            &&& resume_answer::<P>(registry, named, now) == Ok::<(u64, SearchJob), ResponseView<P>>(
                (id, registry.jobs[id]),
            )
            &&& cancel_answer::<P>(registry, named, now) == cancelled_view::<P>(id)
        },
        !waits(registry, id, now) ==> {
            &&& resume_answer::<P>(registry, named, now) == Err::<(u64, SearchJob), ResponseView<P>>(
                unknown_job_view(id),
            )
            &&& cancel_answer::<P>(registry, named, now) == unknown_job_view::<P>(id)
        },
        !after_naming(registry, named, now).jobs.contains_key(id),
        forall|other: u64|
            other != id ==> #[trigger] after_naming(registry, named, now).jobs.contains_key(other)
                == waits(registry, other, now),
        forall|other: u64| #[trigger]
            after_naming(registry, named, now).jobs.contains_key(other) ==> after_naming(
                registry,
                named,
                now,
            ).jobs[other] == registry.jobs[other],
        after_naming(registry, named, now).next_id == registry.next_id,
{
}

/// Whoever names what is no job id is told so, and nothing changes.
pub proof fn law_what_is_no_job_id_changes_nothing<P>(registry: RegistryView, named: JobIdValue, now: u64)
    requires
        match named {
            JobIdValue::Number { whole, value } => !whole,
            JobIdValue::Text(text) => text is None || parsed((text->0)@) is None,
        },
    ensures
        resume_answer::<P>(registry, named, now) == Err::<(u64, SearchJob), ResponseView<P>>(
            invalid_job_view(),
        ),
        cancel_answer::<P>(registry, named, now) == invalid_job_view::<P>(),
        after_naming(registry, named, now) == registry,
{
}

/// A request that names its ends on one z-level, and no false turf to avoid, gets a search under
/// the next id, unless it starts on the turf to avoid or its end lies out of reach; then it is
/// told that there is no path. Any other request is refused.
pub proof fn law_requests_get_a_search_or_an_answer<P>(
    registry: RegistryView,
    request: SearchRequest,
    now: u64,
    empty: P,
)
    ensures
        start_answer(registry, request, now, empty) is Err <==> request.start is None
            || request.end is None || (request.start->0).2 != (request.end->0).2 || request.avoid
            is NotATurf,
        start_answer(registry, request, now, empty) matches Ok(Err(told)) ==> {
            let start = request.start->0;
            let end = request.end->0;
            let range = asked_limit(request.max_range);
            let reach = asked_limit(request.min_target_distance);
            &&& told == no_path_view(empty)
            &&& (request.avoid matches AvoidTurf::At(c) && c == start) || (range > 0 && !within(
                (start.0, start.1),
                (end.0, end.1),
                range + reach,
            ))
        },
        start_answer(registry, request, now, empty) matches Ok(Ok((id, job))) ==> {
            let start = request.start->0;
            let end = request.end->0;
            let range = asked_limit(request.max_range);
            let reach = asked_limit(request.min_target_distance);
            &&& id == registry.next_id
            &&& job.rules.start == (start.0, start.1)
            &&& job.goal == (end.0, end.1)
            &&& job.z == end.2
            &&& job.last_touched == now
            &&& range > 0 ==> within((start.0, start.1), (end.0, end.1), range + reach)
        },
{
    law_mistaken_requests(request);
    if request.mistake() is None {
        law_hopeless_requests(request);
        law_request_is_read(request, now);
    }
}

} // verus!
