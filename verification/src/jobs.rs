//! The searches that yielded, by job id.
use vstd::prelude::*;
use std::collections::HashMap;
use crate::decimal::{decimal, law_decimal_reads_back, parse_decimal, parsed};
use crate::error::NavPathError;
use crate::request::{new_search_job, SearchRequest};
use crate::response::{
    cancelled_view, complete_view, failed_view, in_progress_view, invalid_job_view, no_path_view,
    unknown_job_view, ResponseView, StatusResponse,
};
use crate::search::SearchJob;
use crate::search_model::JobView;

verus! {

broadcast use vstd::std_specs::hash::group_hash_axioms;

/// How long a search that nobody resumes is kept, in nanoseconds.
pub const IDLE_TIMEOUT: u64 = 30_000_000_000;

/// A job id as a caller names it.
pub enum JobIdValue {
    /// A number: whether it is whole and not negative, and as much of it as 64 bits hold.
    Number {
        whole: bool,
        value: u64,
    },
    /// Anything else, as text where it has one.
    Text(Option<String>),
}

/// The job id that a caller names.
pub open spec fn job_id_of(value: JobIdValue) -> Option<u64> {
    match value {
        JobIdValue::Number { whole, value } => if whole {
            Some(value)
        } else {
            None
        },
        JobIdValue::Text(Some(text)) => parsed(text@),
        JobIdValue::Text(None) => None,
    }
}

pub fn parse_job_id(value: &JobIdValue) -> (r: Option<u64>)
    ensures
        r == job_id_of(*value),
{
    match value {
        JobIdValue::Number { whole, value } => if *whole {
            Some(*value)
        } else {
            None
        },
        JobIdValue::Text(Some(text)) => parse_decimal(text.as_str()),
        JobIdValue::Text(None) => None,
    }
}

/// The search was worked on recently enough to be kept.
pub open spec fn is_active(job: SearchJob, now: u64) -> bool {
    now - job@.last_touched < IDLE_TIMEOUT
}

/// The searches that are kept.
pub open spec fn active_jobs(jobs: Map<u64, SearchJob>, now: u64) -> Map<u64, SearchJob> {
    jobs.restrict(Set::new(|id: u64| jobs.contains_key(id) && is_active(jobs[id], now)))
}

/// Drops the searches that nobody resumed in time.
pub fn prune_expired_jobs(jobs: &mut HashMap<u64, SearchJob>, now: u64)
    ensures
        final(jobs)@ == active_jobs(old(jobs)@, now),
{
    let ghost before = jobs@;
    let mut expired: Vec<u64> = Vec::new();
    for entry in it: jobs.iter()
        invariant
            before == jobs@,
            forall|k: int|
                0 <= k < expired@.len() ==> before.contains_key(#[trigger] expired@[k])
                    && !is_active(before[expired@[k]], now),
            forall|k: int|
                #![trigger it.seq()[k]]
                0 <= k < it.index() && !is_active(*it.seq()[k].1, now) ==> expired@.contains(
                    *it.seq()[k].0,
                ),
    {
        let last_touched: u64 = entry.1.last_touched();
        if now >= last_touched && now - last_touched >= IDLE_TIMEOUT {
            let ghost shorter = expired@;
            expired.push(*entry.0);
            proof {
                assert(expired@[shorter.len() as int] == *entry.0);
                assert forall|id: u64| shorter.contains(id) implies expired@.contains(id) by {
                    let k = choose|k: int| 0 <= k < shorter.len() && shorter[k] == id;
                    assert(expired@[k] == id);
                }
            }
        }
    }
    let mut i: usize = 0;
    while i < expired.len()
        invariant
            i <= expired@.len(),
            forall|id: u64| #[trigger]
                jobs@.contains_key(id) <==> before.contains_key(id) && !expired@.take(
                    i as int,
                ).contains(id),
            forall|id: u64| #[trigger] jobs@.contains_key(id) ==> jobs@[id] == before[id],
        decreases expired@.len() - i,
    {
        let id: u64 = expired[i];
        jobs.remove(&id);
        proof {
            let taken = expired@.take(i as int);
            let more = expired@.take(i + 1);
            assert(more =~= taken.push(id));
            assert forall|other: u64| more.contains(other) <==> taken.contains(other) || other
                == id by {
                if taken.contains(other) {
                    let k = choose|k: int| 0 <= k < taken.len() && taken[k] == other;
                    assert(more[k] == other);
                }
                assert(more[i as int] == id);
            }
        }
        i += 1;
    }
    proof {
        assert(expired@.take(expired@.len() as int) =~= expired@);
        assert(jobs@ =~= active_jobs(before, now));
    }
}

/// How a slice of a search ended. `P` is the host's form of a path.
pub enum SliceOutcome<P> {
    InProgress,
    /// There is no path; holds the host's path without a step.
    NoPath(P),
    /// Holds what is handed out.
    Found(P),
}

/// What becomes of a search after a slice, and what its caller is told. Only a search that
/// yielded is kept.
pub fn run_job<P>(job: SearchJob, job_id: u64, outcome: SliceOutcome<P>) -> (r: (
    Option<SearchJob>,
    StatusResponse<P>,
))
    ensures
        match outcome {
            SliceOutcome::InProgress => r.0 == Some(job) && r.1@ == in_progress_view::<P>(job_id),
            SliceOutcome::NoPath(empty) => r.0 is None && r.1@ == no_path_view(empty),
            SliceOutcome::Found(path) => r.0 is None && r.1@ == complete_view(path),
        },
{
    match outcome {
        SliceOutcome::InProgress => (Some(job), StatusResponse::in_progress(job_id)),
        SliceOutcome::NoPath(empty) => (None, StatusResponse::no_path(empty)),
        SliceOutcome::Found(path) => (None, StatusResponse::complete(path)),
    }
}

/// What becomes of a search after a slice, and what its caller is told.
pub open spec fn conclusion<P>(job: SearchJob, job_id: u64, slice: Result<SliceOutcome<P>, String>) -> (
    Option<SearchJob>,
    ResponseView<P>,
) {
    match slice {
        Ok(SliceOutcome::InProgress) => (Some(job), in_progress_view(job_id)),
        Ok(SliceOutcome::NoPath(empty)) => (None, no_path_view(empty)),
        Ok(SliceOutcome::Found(path)) => (None, complete_view(path)),
        Err(reason) => (None, failed_view(job_id, reason@)),
    }
}

/// The same of a slice that may have failed, with the reason: a search that failed is not kept,
/// and its caller is told why.
pub fn conclude_slice<P>(job: SearchJob, job_id: u64, slice: Result<SliceOutcome<P>, String>) -> (r: (
    Option<SearchJob>,
    StatusResponse<P>,
))
    ensures
        match slice {
            Ok(SliceOutcome::InProgress) => r.0 == Some(job) && r.1@ == in_progress_view::<P>(
                job_id,
            ),
            Ok(SliceOutcome::NoPath(empty)) => r.0 is None && r.1@ == no_path_view(empty),
            Ok(SliceOutcome::Found(path)) => r.0 is None && r.1@ == complete_view(path),
            Err(reason) => r.0 is None && r.1@ == failed_view::<P>(job_id, reason@),
        },
        (r.0, r.1@) == conclusion(job, job_id, slice),
{
    match slice {
        Ok(outcome) => run_job(job, job_id, outcome),
        Err(reason) => (None, StatusResponse::failed(job_id, reason)),
    }
}

/// What a caller gets that wants to resume a search: the search, or what to be told.
pub open spec fn resume_answer<P>(registry: RegistryView, named: JobIdValue, now: u64) -> Result<
    (u64, SearchJob),
    ResponseView<P>,
> {
    match job_id_of(named) {
        None => Err(invalid_job_view()),
        Some(id) => if active_jobs(registry.jobs, now).contains_key(id) {
            Ok((id, registry.jobs[id]))
        } else {
            Err(unknown_job_view(id))
        },
    }
}

/// What a caller is told that calls a search off.
pub open spec fn cancel_answer<P>(registry: RegistryView, named: JobIdValue, now: u64) -> ResponseView<P> {
    match job_id_of(named) {
        None => invalid_job_view(),
        Some(id) => if active_jobs(registry.jobs, now).contains_key(id) {
            cancelled_view(id)
        } else {
            unknown_job_view(id)
        },
    }
}

/// The registry after a call that names a search to take out.
pub open spec fn after_naming(registry: RegistryView, named: JobIdValue, now: u64) -> RegistryView {
    match job_id_of(named) {
        None => registry,
        Some(id) => registry.after(RegistryCall::Take { id, now }),
    }
}

/// What a caller gets that starts a search: the search, or what to be told, or why not.
pub open spec fn start_answer<P>(
    registry: RegistryView,
    request: SearchRequest,
    now: u64,
    empty: P,
) -> Result<Result<(u64, JobView), ResponseView<P>>, NavPathError> {
    match request.mistake() {
        Some(e) => Err(e),
        None => if request.is_hopeless() {
            Ok(Err(no_path_view(empty)))
        } else {
            Ok(Ok((registry.next_id, request.job(now))))
        },
    }
}

/// The searches that yielded, and the next job id.
pub struct JobRegistry {
    jobs: HashMap<u64, SearchJob>,
    next_id: u64,
}

/// The same over mathematical types.
#[verifier::ext_equal]
pub struct RegistryView {
    pub jobs: Map<u64, SearchJob>,
    pub next_id: u64,
}

/// A call that changes the registry. One whose job id cannot be read changes nothing.
pub enum RegistryCall {
    /// A job id is handed out.
    Draw,
    /// A search is kept after its first slice, if it yielded.
    KeepStarted {
        id: u64,
        job: Option<SearchJob>,
        now: u64,
    },
    /// A search is kept after a later slice, if it yielded.
    KeepResumed {
        id: u64,
        job: Option<SearchJob>,
    },
    /// A search is taken out, to be resumed or to be called off.
    Take {
        id: u64,
        now: u64,
    },
}

impl RegistryView {
    pub open spec fn empty() -> RegistryView {
        RegistryView { jobs: Map::empty(), next_id: 1 }
    }

    /// The registry after a call. After the last job id of 64 bits they start over from zero.
    pub open spec fn after(self, call: RegistryCall) -> RegistryView {
        match call {
            RegistryCall::Draw => RegistryView {
                next_id: if self.next_id == u64::MAX {
                    0
                } else {
                    (self.next_id + 1) as u64
                },
                ..self
            },
            RegistryCall::KeepStarted { id, job: Some(j), now } => RegistryView {
                jobs: active_jobs(self.jobs, now).insert(id, j),
                ..self
            },
            RegistryCall::KeepResumed { id, job: Some(j) } => RegistryView {
                jobs: self.jobs.insert(id, j),
                ..self
            },
            RegistryCall::Take { id, now } => RegistryView {
                jobs: active_jobs(self.jobs, now).remove(id),
                ..self
            },
            _ => self,
        }
    }

    /// Every search that is kept has a job id that was handed out before the next one.
    pub open spec fn ids_below_next(self) -> bool {
        forall|id: u64| #[trigger] self.jobs.contains_key(id) ==> id < self.next_id
    }
}

impl View for JobRegistry {
    type V = RegistryView;

    closed spec fn view(&self) -> RegistryView {
        RegistryView { jobs: self.jobs@, next_id: self.next_id }
    }
}

/// The search can be stepped.
pub open spec fn is_resumable(job: SearchJob) -> bool {
    job.wf() && !(job@.phase is Finished)
}

impl JobRegistry {
    /// Every search that is kept can be resumed.
    pub open spec fn wf(&self) -> bool {
        forall|id: u64| #[trigger] self@.jobs.contains_key(id) ==> is_resumable(self@.jobs[id])
    }

    pub fn new() -> (r: Self)
        ensures
            r.wf(),
            r@ == RegistryView::empty(),
            r@.ids_below_next(),
    {
        let r = JobRegistry { jobs: HashMap::new(), next_id: 1 };
        assert(r@ =~= RegistryView::empty());
        r
    }

    /// Hands out a job id; after the last one of 64 bits they start over from zero.
    pub fn next_job_id(&mut self) -> (id: u64)
        requires
            old(self).wf(),
        ensures
            final(self).wf(),
            id == old(self)@.next_id,
            final(self)@ == old(self)@.after(RegistryCall::Draw),
            old(self)@.ids_below_next() && id < u64::MAX ==> final(self)@.ids_below_next(),
    {
        let id: u64 = self.next_id;
        self.next_id = if id == 0xffff_ffff_ffff_ffff {
            0
        } else {
            id + 1
        };
        assert(self@.jobs == old(self)@.jobs);
        id
    }

    /// Sets up the search that a request asks for, under a job id of its own. A request that
    /// makes no sense or has no hope draws no job id.
    pub fn start(&mut self, request: SearchRequest, now: u64) -> (r: Result<
        Option<(u64, SearchJob)>,
        NavPathError,
    >)
        requires
            old(self).wf(),
        ensures
            final(self).wf(),
            match request.mistake() {
                Some(e) => {
                    &&& r matches Err(f) && f == e
                    &&& final(self)@ == old(self)@
                },
                None => if request.is_hopeless() {
                    &&& r matches Ok(None)
                    &&& final(self)@ == old(self)@
                } else {
                    &&& r matches Ok(Some((id, job)))
                    &&& id == old(self)@.next_id
                    &&& job.wf()
                    &&& job@ == request.job(now)
                    &&& final(self)@ == old(self)@.after(RegistryCall::Draw)
                },
            },
            old(self)@.ids_below_next() && old(self)@.next_id < u64::MAX
                ==> final(self)@.ids_below_next(),
    {
        match new_search_job(request, now) {
            Err(e) => Err(e),
            Ok(None) => Ok(None),
            Ok(Some(job)) => {
                let id: u64 = self.next_job_id();
                Ok(Some((id, job)))
            },
        }
    }

    /// Starts the search that a request asks for, or says what to tell the caller: of a request
    /// without hope, that there is no path. `empty` is the host's path without a step.
    pub fn start_or_answer<P>(&mut self, request: SearchRequest, now: u64, empty: P) -> (r: Result<
        Result<(u64, SearchJob), StatusResponse<P>>,
        NavPathError,
    >)
        requires
            old(self).wf(),
        ensures
            final(self).wf(),
            match request.mistake() {
                Some(e) => {
                    &&& r matches Err(f) && f == e
                    &&& final(self)@ == old(self)@
                },
                None => if request.is_hopeless() {
                    &&& r matches Ok(Err(response)) && response@ == no_path_view(empty)
                    &&& final(self)@ == old(self)@
                } else {
                    &&& r matches Ok(Ok((id, job)))
                    &&& id == old(self)@.next_id
                    &&& is_resumable(job)
                    &&& job@ == request.job(now)
                    &&& final(self)@ == old(self)@.after(RegistryCall::Draw)
                },
            },
            match start_answer(old(self)@, request, now, empty) {
                Err(e) => r matches Err(f) && f == e,
                Ok(Err(told)) => r matches Ok(Err(response)) && response@ == told,
                Ok(Ok(started)) => r matches Ok(Ok((id, job))) && (id, job@) == started,
            },
            old(self)@.ids_below_next() && old(self)@.next_id < u64::MAX
                ==> final(self)@.ids_below_next(),
    {
        match self.start(request, now) {
            Err(e) => Err(e),
            Ok(None) => Ok(Err(StatusResponse::no_path(empty))),
            Ok(Some(started)) => Ok(Ok(started)),
        }
    }

    /// Keeps a search that yielded in its first slice; expired ones are dropped first.
    pub fn keep_started(&mut self, job_id: u64, job: Option<SearchJob>, now: u64)
        requires
            old(self).wf(),
            job matches Some(j) ==> is_resumable(j),
        ensures
            final(self).wf(),
            final(self)@ == old(self)@.after(RegistryCall::KeepStarted { id: job_id, job, now }),
            old(self)@.ids_below_next() && job_id < old(self)@.next_id
                ==> final(self)@.ids_below_next(),
    {
        if let Some(j) = job {
            prune_expired_jobs(&mut self.jobs, now);
            self.jobs.insert(job_id, j);
            assert(self@.jobs == active_jobs(old(self)@.jobs, now).insert(job_id, j));
        }
    }

    /// Keeps a search that yielded again.
    pub fn keep_resumed(&mut self, job_id: u64, job: Option<SearchJob>)
        requires
            old(self).wf(),
            job matches Some(j) ==> is_resumable(j),
        ensures
            final(self).wf(),
            final(self)@ == old(self)@.after(RegistryCall::KeepResumed { id: job_id, job }),
            old(self)@.ids_below_next() && job_id < old(self)@.next_id
                ==> final(self)@.ids_below_next(),
    {
        if let Some(j) = job {
            self.jobs.insert(job_id, j);
            assert(self@.jobs == old(self)@.jobs.insert(job_id, j));
        }
    }

    /// Takes a search out, once the expired ones are dropped.
    fn take(&mut self, job_id: u64, now: u64) -> (r: Option<SearchJob>)
        requires
            old(self).wf(),
        ensures
            final(self).wf(),
            final(self)@ == old(self)@.after(RegistryCall::Take { id: job_id, now }),
            match r {
                Some(job) => active_jobs(old(self)@.jobs, now).contains_key(job_id) && job == old(
                    self,
                )@.jobs[job_id],
                None => !active_jobs(old(self)@.jobs, now).contains_key(job_id),
            },
    {
        prune_expired_jobs(&mut self.jobs, now);
        let taken: Option<SearchJob> = self.jobs.remove(&job_id);
        assert(self@.jobs == active_jobs(old(self)@.jobs, now).remove(job_id));
        taken
    }

    /// Takes out the search that a caller wants to resume, or says what to tell the caller.
    pub fn resume<P>(&mut self, job_id: &JobIdValue, now: u64) -> (r: Result<
        (u64, SearchJob),
        StatusResponse<P>,
    >)
        requires
            old(self).wf(),
        ensures
            final(self).wf(),
            old(self)@.ids_below_next() ==> final(self)@.ids_below_next(),
            match job_id_of(*job_id) {
                None => {
                    &&& final(self)@ == old(self)@
                    &&& r matches Err(response) && response@ == invalid_job_view::<P>()
                },
                Some(id) => {
                    &&& final(self)@ == old(self)@.after(RegistryCall::Take { id, now })
                    &&& if active_jobs(old(self)@.jobs, now).contains_key(id) {
                        r matches Ok((i, job)) && i == id && job == old(self)@.jobs[id]
                            && is_resumable(job)
                    } else {
                        r matches Err(response) && response@ == unknown_job_view::<P>(id)
                    }
                },
            },
            final(self)@ == after_naming(old(self)@, *job_id, now),
            match resume_answer::<P>(old(self)@, *job_id, now) {
                Ok(found) => r == Ok::<(u64, SearchJob), StatusResponse<P>>(found),
                Err(told) => r matches Err(response) && response@ == told,
            },
    {
        let id: u64 = match parse_job_id(job_id) {
            Some(id) => id,
            None => {
                return Err(StatusResponse::invalid_job());
            },
        };
        match self.take(id, now) {
            Some(job) => Ok((id, job)),
            None => Err(StatusResponse::unknown_job(id)),
        }
    }

    /// Calls a search off, and says what to tell the caller.
    pub fn cancel<P>(&mut self, job_id: &JobIdValue, now: u64) -> (response: StatusResponse<P>)
        requires
            old(self).wf(),
        ensures
            final(self).wf(),
            old(self)@.ids_below_next() ==> final(self)@.ids_below_next(),
            match job_id_of(*job_id) {
                None => {
                    &&& final(self)@ == old(self)@
                    &&& response@ == invalid_job_view::<P>()
                },
                Some(id) => {
                    &&& final(self)@ == old(self)@.after(RegistryCall::Take { id, now })
                    &&& response@ == (if active_jobs(old(self)@.jobs, now).contains_key(id) {
                        cancelled_view::<P>(id)
                    } else {
                        unknown_job_view::<P>(id)
                    })
                },
            },
            final(self)@ == after_naming(old(self)@, *job_id, now),
            response@ == cancel_answer::<P>(old(self)@, *job_id, now),
    {
        let id: u64 = match parse_job_id(job_id) {
            Some(id) => id,
            None => {
                return StatusResponse::invalid_job();
            },
        };
        match self.take(id, now) {
            Some(_) => StatusResponse::cancelled(id),
            None => StatusResponse::unknown_job(id),
        }
    }
}

/// Dropping expired searches leaves the active ones as they are, and no others.
pub proof fn law_prune_keeps_active_jobs(jobs: Map<u64, SearchJob>, now: u64, id: u64)
    ensures
        active_jobs(jobs, now).contains_key(id) <==> jobs.contains_key(id) && is_active(
            jobs[id],
            now,
        ),
        active_jobs(jobs, now).contains_key(id) ==> active_jobs(jobs, now)[id] == jobs[id],
{
}

/// Dropping expired searches twice at one time drops no more than once.
pub proof fn law_prune_twice(jobs: Map<u64, SearchJob>, now: u64)
    ensures
        active_jobs(active_jobs(jobs, now), now) == active_jobs(jobs, now),
{
    assert(active_jobs(active_jobs(jobs, now), now) =~= active_jobs(jobs, now));
}

/// A search that was called off cannot be found again, while the others stay.
pub proof fn law_cancelled_job_is_gone(
    jobs: Map<u64, SearchJob>,
    id: u64,
    other: u64,
    now: u64,
    later: u64,
)
    ensures
        !active_jobs(active_jobs(jobs, now).remove(id), later).contains_key(id),
        other != id && jobs.contains_key(other) && is_active(jobs[other], now) && is_active(
            jobs[other],
            later,
        ) ==> active_jobs(active_jobs(jobs, now).remove(id), later).contains_key(other),
{
}

/// A search that is kept is found under its job id until it expires.
pub proof fn law_kept_job_is_found(
    jobs: Map<u64, SearchJob>,
    id: u64,
    job: SearchJob,
    now: u64,
    later: u64,
)
    requires
        is_active(job, later),
    ensures
        active_jobs(active_jobs(jobs, now).insert(id, job), later).contains_key(id),
        active_jobs(active_jobs(jobs, now).insert(id, job), later)[id] == job,
{
}

/// While job ids have not started over, a fresh one is that of no search that is kept, and
/// keeping a search under it displaces no other active one.
pub proof fn law_fresh_id_displaces_no_search(
    registry: RegistryView,
    job: SearchJob,
    other: u64,
    now: u64,
)
    requires
        registry.ids_below_next(),
    ensures
        !registry.jobs.contains_key(registry.next_id),
        ({
            let id = registry.next_id;
            let kept = registry.after(RegistryCall::Draw).after(
                RegistryCall::KeepStarted { id, job: Some(job), now },
            );
            registry.jobs.contains_key(other) && is_active(registry.jobs[other], now)
                ==> kept.jobs.contains_key(other) && kept.jobs[other] == registry.jobs[other]
        }),
{
}

/// The job id of a response names the same job when it is handed back.
pub proof fn law_job_id_reads_back(id: u64, text: String)
    requires
        text@ == decimal(id as nat),
    ensures
        job_id_of(JobIdValue::Text(Some(text))) == Some(id),
{
    law_decimal_reads_back(id);
}

} // verus!
