use navmap_pathfinder::direction::{
    BAKED_FLAG, COND_SHIFT, EAST, FLYING_SHIFT, NORTH, SIMULATED_FLAG, SOUTH, WEST,
};
use navmap_pathfinder::grid::TurfInfo;
use navmap_pathfinder::host_value::{truthy, HostValue};
use navmap_pathfinder::nav_cache::NavPassCache;
use navmap_pathfinder::probe::{ProbeAction, ProbeEvent, TurfProbe};

const AT: (i16, i16, i16) = (4, 5, 1);

fn run(probe: &mut TurfProbe, cache: &mut NavPassCache, events: &[ProbeEvent]) {
    for event in events {
        probe.advance(*event, cache);
    }
}

fn done(probe: &TurfProbe) -> Option<TurfInfo> {
    match probe.action {
        ProbeAction::Done(info) => info,
        _ => panic!("the probe is not done"),
    }
}

#[test]
fn truth_is_anything_but_null_and_zero() {
    assert!(!truthy(HostValue::Null));
    assert!(!truthy(HostValue::Number { zero: true }));
    assert!(truthy(HostValue::Number { zero: false }));
    assert!(truthy(HostValue::Other));
}

#[test]
fn a_missing_turf_is_nothing() {
    let mut cache = NavPassCache::new();
    let mut probe = TurfProbe::new(AT, false, 0);
    assert!(matches!(probe.action, ProbeAction::Locate));
    run(&mut probe, &mut cache, &[ProbeEvent::Missing]);
    assert!(done(&probe).is_none());
}

#[test]
fn unconditional_edges_need_no_more_answers() {
    let mut cache = NavPassCache::new();
    let mut probe = TurfProbe::new(AT, false, 0);
    let value = BAKED_FLAG | SIMULATED_FLAG | NORTH | WEST;
    run(&mut probe, &mut cache, &[ProbeEvent::Present, ProbeEvent::NavPass(Some(value))]);
    let info = done(&probe).unwrap();
    assert_eq!(info.open_edges, NORTH | WEST);
    assert!(info.simulated);
    assert_eq!(cache.cached_nav_pass(AT), None);
}

#[test]
fn flyers_have_edges_of_their_own() {
    let mut cache = NavPassCache::new();
    let value = BAKED_FLAG | NORTH | ((SOUTH | EAST) << FLYING_SHIFT);
    let mut probe = TurfProbe::new(AT, true, 0);
    run(&mut probe, &mut cache, &[ProbeEvent::Present, ProbeEvent::NavPass(Some(value))]);
    let info = done(&probe).unwrap();
    assert_eq!(info.open_edges, SOUTH | EAST);
    assert!(!info.simulated);
}

#[test]
fn the_cache_comes_before_the_turf() {
    let mut cache = NavPassCache::new();
    cache.cache_nav_pass(AT, BAKED_FLAG | EAST);
    let mut probe = TurfProbe::new(AT, false, 0);
    run(
        &mut probe,
        &mut cache,
        &[ProbeEvent::Present, ProbeEvent::NavPass(Some(BAKED_FLAG | NORTH))],
    );
    assert_eq!(done(&probe).unwrap().open_edges, EAST);
}

#[test]
fn an_invalidated_turf_is_baked_and_published() {
    let mut cache = NavPassCache::new();
    cache.cache_nav_pass(AT, 0);
    let mut probe = TurfProbe::new(AT, false, 0);
    run(
        &mut probe,
        &mut cache,
        &[ProbeEvent::Present, ProbeEvent::NavPass(Some(BAKED_FLAG | NORTH))],
    );
    assert!(matches!(probe.action, ProbeAction::Bake));
    run(&mut probe, &mut cache, &[ProbeEvent::NavPass(Some(BAKED_FLAG | SOUTH))]);
    assert_eq!(done(&probe).unwrap().open_edges, SOUTH);
    assert_eq!(cache.cached_nav_pass(AT), Some(BAKED_FLAG | SOUTH));
}

#[test]
fn a_turf_that_stays_unbaked_is_shut() {
    let mut cache = NavPassCache::new();
    let mut probe = TurfProbe::new(AT, false, 0);
    run(&mut probe, &mut cache, &[ProbeEvent::Present, ProbeEvent::NavPass(None)]);
    assert!(matches!(probe.action, ProbeAction::Bake));
    run(&mut probe, &mut cache, &[ProbeEvent::NavPass(Some(SIMULATED_FLAG | NORTH))]);
    let info = done(&probe).unwrap();
    assert_eq!(info.open_edges, 0);
    assert!(info.simulated);
    assert_eq!(cache.cached_nav_pass(AT), None);
}

fn at_conditional_edges(value: i32, pass_flags: i32, cache: &mut NavPassCache) -> TurfProbe {
    let mut probe = TurfProbe::new(AT, false, pass_flags);
    run(&mut probe, cache, &[ProbeEvent::Present, ProbeEvent::NavPass(Some(value))]);
    probe
}

#[test]
fn numeric_blockers_are_held_against_the_pass_flags() {
    let mut cache = NavPassCache::new();
    let value = BAKED_FLAG | NORTH | EAST | ((NORTH | EAST) << COND_SHIFT);
    let mut probe = at_conditional_edges(value, 0b0110, &mut cache);
    assert!(matches!(probe.action, ProbeAction::ListBlockers(NORTH)));
    run(
        &mut probe,
        &mut cache,
        &[ProbeEvent::Blockers(2), ProbeEvent::Flags(0b0010), ProbeEvent::Flags(0b1001)],
    );
    assert!(matches!(probe.action, ProbeAction::ListBlockers(EAST)));
    run(&mut probe, &mut cache, &[ProbeEvent::Blockers(1)]);
    assert!(matches!(probe.action, ProbeAction::ExamineBlocker(0)));
    run(&mut probe, &mut cache, &[ProbeEvent::Flags(0b0100)]);
    assert_eq!(done(&probe).unwrap().open_edges, EAST);
}

#[test]
fn an_edge_without_blockers_is_open() {
    let mut cache = NavPassCache::new();
    let value = BAKED_FLAG | SOUTH | (SOUTH << COND_SHIFT);
    let mut probe = at_conditional_edges(value, 0, &mut cache);
    run(&mut probe, &mut cache, &[ProbeEvent::Blockers(0)]);
    assert_eq!(done(&probe).unwrap().open_edges, SOUTH);
}

#[test]
fn a_conditional_edge_without_its_pass_bit_stays_shut() {
    let mut cache = NavPassCache::new();
    let value = BAKED_FLAG | WEST | (SOUTH << COND_SHIFT);
    let probe = at_conditional_edges(value, 0, &mut cache);
    assert_eq!(done(&probe).unwrap().open_edges, WEST);
}

#[test]
fn blockers_on_the_far_side_see_the_way_reversed() {
    let mut cache = NavPassCache::new();
    let value = BAKED_FLAG | WEST | (WEST << COND_SHIFT);
    let mut probe = at_conditional_edges(value, 0, &mut cache);
    run(
        &mut probe,
        &mut cache,
        &[ProbeEvent::Blockers(2), ProbeEvent::Object { on_turf: true }],
    );
    assert!(matches!(probe.action, ProbeAction::AskBlocker { index: 0, dir: WEST }));
    run(
        &mut probe,
        &mut cache,
        &[ProbeEvent::Answer(HostValue::Other), ProbeEvent::Object { on_turf: false }],
    );
    assert!(matches!(probe.action, ProbeAction::AskBlocker { index: 1, dir: EAST }));
    let mut shut = probe;
    run(&mut probe, &mut cache, &[ProbeEvent::Answer(HostValue::Number { zero: false })]);
    assert_eq!(done(&probe).unwrap().open_edges, WEST);
    run(&mut shut, &mut cache, &[ProbeEvent::Answer(HostValue::Number { zero: true })]);
    assert_eq!(done(&shut).unwrap().open_edges, 0);
}

#[test]
fn an_answer_to_another_question_changes_nothing() {
    let mut cache = NavPassCache::new();
    let mut probe = TurfProbe::new(AT, false, 0);
    run(&mut probe, &mut cache, &[ProbeEvent::Blockers(3), ProbeEvent::NavPass(Some(0))]);
    assert!(matches!(probe.action, ProbeAction::Locate));
    run(&mut probe, &mut cache, &[ProbeEvent::Missing, ProbeEvent::Present]);
    assert!(done(&probe).is_none());
}

#[test]
fn an_edge_without_a_list_has_no_blockers() {
    assert!(matches!(ProbeEvent::blockers(None), ProbeEvent::Blockers(0)));
    assert!(matches!(ProbeEvent::blockers(Some(0)), ProbeEvent::Blockers(0)));
    assert!(matches!(ProbeEvent::blockers(Some(3)), ProbeEvent::Blockers(3)));
}
