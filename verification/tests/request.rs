use navmap_pathfinder::error::NavPathError;
use navmap_pathfinder::grid::TurfInfo;
use navmap_pathfinder::host_value::HostValue;
use navmap_pathfinder::path::DiagonalHandling;
use navmap_pathfinder::request::{new_search_job, AvoidTurf, SearchRequest};
use navmap_pathfinder::search::JobProgress;

fn request() -> SearchRequest {
    SearchRequest {
        start: Some((1, 1, 2)),
        end: Some((9, 1, 2)),
        is_flying: HostValue::Null,
        max_range: None,
        min_target_distance: None,
        simulated_only: HostValue::Number { zero: true },
        avoid: AvoidTurf::Nowhere,
        diagonal_handling: None,
        skip_first: HostValue::Null,
        pass_flags: Some(6),
    }
}

#[test]
fn diagonal_codes() {
    assert_eq!(DiagonalHandling::from_byond(Some(0)), DiagonalHandling::DoNothing);
    assert_eq!(DiagonalHandling::from_byond(Some(1)), DiagonalHandling::RemoveAll);
    assert_eq!(DiagonalHandling::from_byond(Some(2)), DiagonalHandling::RemoveClunky);
    assert_eq!(DiagonalHandling::from_byond(Some(3)), DiagonalHandling::DoNothing);
    assert_eq!(DiagonalHandling::from_byond(None), DiagonalHandling::DoNothing);
}

#[test]
fn a_sensible_request_gets_a_search() {
    let sensible = SearchRequest { is_flying: HostValue::Other, ..request() };
    let mut job = new_search_job(sensible, 77).unwrap().unwrap();
    assert_eq!(job.z(), 2);
    assert_eq!(job.pass_flags(), 6);
    assert!(job.is_flying());
    assert_eq!(job.last_touched(), 77);
    assert!(!job.is_finished());
    assert!(matches!(job.step(77), JobProgress::Resolve((1, 1))));
    job.record((1, 1), Some(TurfInfo { open_edges: 0, simulated: false }));
    assert!(matches!(job.step(77), JobProgress::Advanced));
    assert!(matches!(job.step(77), JobProgress::NoPath));
}

#[test]
fn what_is_no_turf_is_refused() {
    for wrong in [
        SearchRequest { start: None, ..request() },
        SearchRequest { end: None, ..request() },
        SearchRequest { avoid: AvoidTurf::NotATurf, ..request() },
    ] {
        assert_eq!(new_search_job(wrong, 0).err(), Some(NavPathError::NotATurf));
    }
}

#[test]
fn different_z_levels_are_refused() {
    let wrong = SearchRequest { end: Some((9, 1, 3)), avoid: AvoidTurf::NotATurf, ..request() };
    assert_eq!(new_search_job(wrong, 0).err(), Some(NavPathError::DifferentZLevels));
}

#[test]
fn a_forbidden_start_gets_no_search() {
    let hopeless = SearchRequest { avoid: AvoidTurf::At((1, 1, 2)), ..request() };
    assert!(new_search_job(hopeless, 0).unwrap().is_none());
    let elsewhere = SearchRequest { avoid: AvoidTurf::At((1, 1, 3)), ..request() };
    assert!(new_search_job(elsewhere, 0).unwrap().is_some());
}

#[test]
fn a_target_out_of_range_gets_no_search() {
    let far = SearchRequest { max_range: Some(5), min_target_distance: Some(2), ..request() };
    assert!(new_search_job(far, 0).unwrap().is_none());
    let near = SearchRequest { max_range: Some(5), min_target_distance: Some(3), ..request() };
    assert!(new_search_job(near, 0).unwrap().is_some());
    let unlimited = SearchRequest { max_range: Some(-5), ..request() };
    assert!(new_search_job(unlimited, 0).unwrap().is_some());
    let huge = SearchRequest {
        max_range: Some(i32::MAX),
        min_target_distance: Some(i32::MAX),
        ..request()
    };
    assert!(new_search_job(huge, 0).unwrap().is_some());
}
