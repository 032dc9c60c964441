use navmap_pathfinder::coord_map::CoordMap;
use navmap_pathfinder::decimal::{decimal_text, parse_decimal};
use navmap_pathfinder::grid::Grid;
use navmap_pathfinder::error::NavPathError;
use navmap_pathfinder::host_value::HostValue;
use navmap_pathfinder::jobs::{
    conclude_slice, parse_job_id, prune_expired_jobs, run_job, JobIdValue, JobRegistry,
    SliceOutcome, IDLE_TIMEOUT,
};
use navmap_pathfinder::path::DiagonalHandling;
use navmap_pathfinder::request::{AvoidTurf, SearchRequest};
use navmap_pathfinder::response::{status_response, Field, StatusResponse};
use navmap_pathfinder::search::SearchJob;
use std::collections::HashMap;

const NOW: u64 = 90_000_000_000;

fn test_job(last_touched: u64) -> SearchJob {
    SearchJob::new(
        Grid {
            z: 1,
            pass_flags: 0,
            is_flying: false,
            start: (1, 1),
            max_range: 0,
            simulated_only: false,
            avoid: None,
            cache: CoordMap::new(),
        },
        (2, 2),
        0,
        DiagonalHandling::DoNothing,
        true,
        last_touched,
    )
}

#[test]
fn job_registry_prunes_expired_jobs_without_affecting_active_jobs() {
    let now = NOW;
    let mut jobs = HashMap::from([
        (1, test_job(now - IDLE_TIMEOUT - 1_000_000)),
        (2, test_job(now)),
        (3, test_job(now)),
    ]);
    prune_expired_jobs(&mut jobs, now);
    assert!(!jobs.contains_key(&1));
    assert!(jobs.contains_key(&2));
    assert!(jobs.contains_key(&3));
}

#[test]
fn a_job_expires_exactly_at_the_timeout() {
    let mut jobs = HashMap::from([
        (1, test_job(NOW - IDLE_TIMEOUT)),
        (2, test_job(NOW - IDLE_TIMEOUT + 1)),
        (3, test_job(NOW + 5)),
    ]);
    prune_expired_jobs(&mut jobs, NOW);
    assert_eq!(jobs.len(), 2);
    assert!(!jobs.contains_key(&1));
    prune_expired_jobs(&mut jobs, NOW);
    assert_eq!(jobs.len(), 2);
}

#[test]
fn numbers_in_decimal() {
    for n in [0, 7, 10, 99, 100, 1234567890, u64::MAX] {
        assert_eq!(decimal_text(n), n.to_string());
        assert_eq!(parse_decimal(&decimal_text(n)), Some(n));
    }
}

#[test]
fn text_is_read_as_std_reads_it() {
    let texts = [
        "", "+", "-", "+5", "++5", "-5", "-0", "007", " 7", "7 ", "1_000", "12a", "0",
        "18446744073709551615", "18446744073709551616", "99999999999999999999999", "\u{665}",
        "000000000000000000000000000000042",
    ];
    for text in texts {
        assert_eq!(parse_decimal(text), text.parse::<u64>().ok(), "{}", text);
    }
}

#[test]
fn job_ids_come_as_numbers_or_text() {
    let text = |s: &str| JobIdValue::Text(Some(s.to_string()));
    assert_eq!(parse_job_id(&JobIdValue::Number { whole: true, value: 12 }), Some(12));
    assert_eq!(parse_job_id(&JobIdValue::Number { whole: false, value: 12 }), None);
    assert_eq!(parse_job_id(&text("34")), Some(34));
    assert_eq!(parse_job_id(&text("job")), None);
    assert_eq!(parse_job_id(&JobIdValue::Text(None)), None);
}

fn shown(response: StatusResponse<u8>) -> Vec<(String, String)> {
    status_response(response)
        .into_iter()
        .map(|(name, field)| {
            let value = match field {
                Field::Text(text) => text,
                Field::Path(path) => format!("path {}", path),
            };
            (name, value)
        })
        .collect()
}

fn pairs(expected: &[(&str, &str)]) -> Vec<(String, String)> {
    expected.iter().map(|(a, b)| (a.to_string(), b.to_string())).collect()
}

#[test]
fn responses_show_their_fields_in_order() {
    let everything = StatusResponse {
        status: "odd".to_string(),
        job_id: Some(105),
        path: Some(3u8),
        error: Some("why".to_string()),
    };
    assert_eq!(
        shown(everything),
        pairs(&[("status", "odd"), ("job_id", "105"), ("path", "path 3"), ("error", "why")])
    );
    assert_eq!(
        shown(StatusResponse::failed(4, "broken".to_string())),
        pairs(&[("status", "error"), ("job_id", "4"), ("error", "broken")])
    );
}

#[test]
fn only_a_search_that_yielded_is_kept() {
    let (job, response) = run_job(test_job(0), 9, SliceOutcome::<u8>::InProgress);
    assert!(job.is_some());
    assert_eq!(shown(response), pairs(&[("status", "in_progress"), ("job_id", "9")]));
    let (job, response) = run_job(test_job(0), 9, SliceOutcome::NoPath(0u8));
    assert!(job.is_none());
    assert_eq!(shown(response), pairs(&[("status", "no_path"), ("path", "path 0")]));
    let (job, response) = run_job(test_job(0), 9, SliceOutcome::Found(5u8));
    assert!(job.is_none());
    assert_eq!(shown(response), pairs(&[("status", "complete"), ("path", "path 5")]));
}

#[test]
fn job_ids_count_up_from_one() {
    let mut registry = JobRegistry::new();
    assert_eq!(registry.next_job_id(), 1);
    assert_eq!(registry.next_job_id(), 2);
}

#[test]
fn a_kept_search_is_resumed_once() {
    let mut registry = JobRegistry::new();
    let id = registry.next_job_id();
    registry.keep_started(id, Some(test_job(NOW)), NOW);
    let handle = JobIdValue::Text(Some(decimal_text(id)));
    let (found, job) = registry.resume::<u8>(&handle, NOW + 1).ok().unwrap();
    assert_eq!(found, id);
    let again = registry.resume::<u8>(&handle, NOW + 1).err().unwrap();
    assert_eq!(
        shown(again),
        pairs(&[
            ("status", "error"),
            ("job_id", "1"),
            ("error", "unknown or expired navmap pathfinder job"),
        ])
    );
    registry.keep_resumed(id, Some(job));
    registry.keep_resumed(id, None);
    assert!(registry.resume::<u8>(&handle, NOW + 2).is_ok());
}

#[test]
fn an_expired_search_is_not_resumed() {
    let mut registry = JobRegistry::new();
    registry.keep_started(5, Some(test_job(NOW)), NOW);
    let handle = JobIdValue::Number { whole: true, value: 5 };
    assert!(registry.resume::<u8>(&handle, NOW + IDLE_TIMEOUT).is_err());
}

#[test]
fn keeping_a_started_search_drops_expired_ones() {
    let mut registry = JobRegistry::new();
    registry.keep_started(5, Some(test_job(NOW)), NOW);
    registry.keep_started(6, Some(test_job(NOW + IDLE_TIMEOUT)), NOW + IDLE_TIMEOUT);
    let five = JobIdValue::Number { whole: true, value: 5 };
    let six = JobIdValue::Number { whole: true, value: 6 };
    assert!(registry.resume::<u8>(&five, NOW + 1).is_err());
    assert!(registry.resume::<u8>(&six, NOW + 1).is_ok());
}

#[test]
fn a_cancelled_search_is_gone() {
    let mut registry = JobRegistry::new();
    registry.keep_started(5, Some(test_job(NOW)), NOW);
    registry.keep_started(6, Some(test_job(NOW)), NOW);
    let five = JobIdValue::Number { whole: true, value: 5 };
    assert_eq!(
        shown(registry.cancel(&five, NOW)),
        pairs(&[("status", "cancelled"), ("job_id", "5")])
    );
    assert_eq!(
        shown(registry.cancel(&five, NOW)),
        pairs(&[
            ("status", "error"),
            ("job_id", "5"),
            ("error", "unknown or expired navmap pathfinder job"),
        ])
    );
    assert!(registry.resume::<u8>(&five, NOW).is_err());
    let six = JobIdValue::Number { whole: true, value: 6 };
    assert!(registry.resume::<u8>(&six, NOW).is_ok());
}

#[test]
fn an_invalid_job_id_is_told_so() {
    let mut registry = JobRegistry::new();
    let handle = JobIdValue::Text(Some("seven".to_string()));
    let expected = pairs(&[("status", "error"), ("error", "invalid navmap pathfinder job ID")]);
    assert_eq!(shown(registry.cancel(&handle, NOW)), expected);
    assert_eq!(shown(registry.resume::<u8>(&handle, NOW).err().unwrap()), expected);
}

#[test]
fn a_fresh_job_id_displaces_no_search() {
    let mut registry = JobRegistry::new();
    let first = registry.next_job_id();
    registry.keep_started(first, Some(test_job(NOW)), NOW);
    let second = registry.next_job_id();
    registry.keep_started(second, Some(test_job(NOW + 1)), NOW + 1);
    assert!(first < second);
    let named = |id| JobIdValue::Number { whole: true, value: id };
    let (_, job) = registry.resume::<u8>(&named(first), NOW + 2).ok().unwrap();
    assert_eq!(job.last_touched(), NOW);
    let (_, job) = registry.resume::<u8>(&named(second), NOW + 2).ok().unwrap();
    assert_eq!(job.last_touched(), NOW + 1);
}

#[test]
fn job_ids_are_not_used_again() {
    let mut registry = JobRegistry::new();
    let named = |id| JobIdValue::Number { whole: true, value: id };
    let cancelled = registry.next_job_id();
    registry.keep_started(cancelled, Some(test_job(NOW)), NOW);
    registry.cancel::<u8>(&named(cancelled), NOW);
    let finished = registry.next_job_id();
    registry.keep_started(finished, None, NOW);
    let expired = registry.next_job_id();
    registry.keep_started(expired, Some(test_job(NOW)), NOW);
    assert!(registry.resume::<u8>(&named(expired), NOW + IDLE_TIMEOUT).is_err());
    let last = registry.next_job_id();
    assert_eq!(vec![cancelled, finished, expired, last], vec![1, 2, 3, 4]);
}

#[test]
fn a_kept_search_waits_while_others_come_and_go() {
    let mut registry = JobRegistry::new();
    let named = |id| JobIdValue::Number { whole: true, value: id };
    let waiting = registry.next_job_id();
    registry.keep_started(waiting, Some(test_job(NOW)), NOW);
    for i in 1..5 {
        let other = registry.next_job_id();
        registry.keep_started(other, Some(test_job(NOW + i)), NOW + i);
        let (id, job) = registry.resume::<u8>(&named(other), NOW + i).ok().unwrap();
        registry.keep_resumed(id, Some(job));
        registry.cancel::<u8>(&named(other), NOW + i);
    }
    let in_time = NOW + IDLE_TIMEOUT - 1;
    let (_, job) = registry.resume::<u8>(&named(waiting), in_time).ok().unwrap();
    assert_eq!(job.last_touched(), NOW);
}

#[test]
fn a_failed_search_is_not_kept_and_says_why() {
    let failure = Err::<SliceOutcome<u8>, String>("the turf is gone".to_string());
    let (job, response) = conclude_slice(test_job(0), 9, failure);
    assert!(job.is_none());
    assert_eq!(
        shown(response),
        pairs(&[("status", "error"), ("job_id", "9"), ("error", "the turf is gone")])
    );
}

#[test]
fn a_slice_that_did_not_fail_is_concluded_as_it_ended() {
    let (job, response) = conclude_slice(test_job(4), 9, Ok(SliceOutcome::<u8>::InProgress));
    assert_eq!(job.unwrap().last_touched(), 4);
    assert_eq!(shown(response), pairs(&[("status", "in_progress"), ("job_id", "9")]));
    let (job, response) = conclude_slice(test_job(4), 9, Ok(SliceOutcome::NoPath(0u8)));
    assert!(job.is_none());
    assert_eq!(shown(response), pairs(&[("status", "no_path"), ("path", "path 0")]));
    let (job, response) = conclude_slice(test_job(4), 9, Ok(SliceOutcome::Found(5u8)));
    assert!(job.is_none());
    assert_eq!(shown(response), pairs(&[("status", "complete"), ("path", "path 5")]));
}

fn start_request() -> SearchRequest {
    SearchRequest {
        start: Some((1, 1, 2)),
        end: Some((9, 1, 2)),
        is_flying: HostValue::Null,
        max_range: None,
        min_target_distance: None,
        simulated_only: HostValue::Null,
        avoid: AvoidTurf::Nowhere,
        diagonal_handling: None,
        skip_first: HostValue::Null,
        pass_flags: None,
    }
}

#[test]
fn a_sensible_request_starts_under_a_fresh_job_id() {
    let mut registry = JobRegistry::new();
    let (first, job) = registry.start(start_request(), 77).unwrap().unwrap();
    assert_eq!((first, job.z(), job.last_touched()), (1, 2, 77));
    let started = registry.start_or_answer(start_request(), 78, 0u8).unwrap();
    let (second, job) = started.ok().unwrap();
    assert_eq!((second, job.z(), job.last_touched()), (2, 2, 78));
    assert!(!job.is_finished());
}

#[test]
fn a_request_without_hope_is_told_that_there_is_no_path() {
    let mut registry = JobRegistry::new();
    let hopeless = || SearchRequest { avoid: AvoidTurf::At((1, 1, 2)), ..start_request() };
    assert!(registry.start(hopeless(), 0).unwrap().is_none());
    let response = registry.start_or_answer(hopeless(), 0, 0u8).unwrap().err().unwrap();
    assert_eq!(shown(response), pairs(&[("status", "no_path"), ("path", "path 0")]));
    assert_eq!(registry.next_job_id(), 1);
}

#[test]
fn a_mistaken_request_is_refused_and_draws_no_job_id() {
    let mut registry = JobRegistry::new();
    let astray = || SearchRequest { end: Some((9, 1, 3)), ..start_request() };
    assert_eq!(registry.start(astray(), 0).err(), Some(NavPathError::DifferentZLevels));
    let refused = registry.start_or_answer(astray(), 0, 0u8).err();
    assert_eq!(refused, Some(NavPathError::DifferentZLevels));
    let nowhere = SearchRequest { start: None, ..start_request() };
    assert_eq!(registry.start(nowhere, 0).err(), Some(NavPathError::NotATurf));
    assert_eq!(registry.next_job_id(), 1);
}
