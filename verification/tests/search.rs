use navmap_pathfinder::coord_map::CoordMap;
use navmap_pathfinder::direction::{neighbour, EAST, NORTH, SOUTH, WEST};
use navmap_pathfinder::grid::{Grid, TurfInfo};
use navmap_pathfinder::path::DiagonalHandling;
use navmap_pathfinder::search::{JobProgress, SearchJob};
use navmap_pathfinder::search_model::SLICE_BUDGET;
use std::collections::HashMap;

type Coord = (i16, i16);

type World = HashMap<Coord, TurfInfo>;

fn open_field(size: i16) -> World {
    let mut world = World::new();
    for x in 1..=size {
        for y in 1..=size {
            let open_edges = NORTH | SOUTH | EAST | WEST;
            world.insert((x, y), TurfInfo { open_edges, simulated: true });
        }
    }
    world
}

fn grid(start: Coord) -> Grid {
    Grid {
        z: 1,
        pass_flags: 0,
        is_flying: false,
        start,
        max_range: 0,
        simulated_only: false,
        avoid: None,
        cache: CoordMap::new(),
    }
}

fn job(grid: Grid, goal: Coord, distance: i32) -> SearchJob {
    SearchJob::new(grid, goal, distance, DiagonalHandling::DoNothing, false, 0)
}

fn run(job: &mut SearchJob, world: &World) -> Option<Vec<Coord>> {
    loop {
        match job.step(0) {
            JobProgress::Resolve(c) => job.record(c, world.get(&c).copied()),
            JobProgress::Advanced => {}
            JobProgress::InProgress => panic!("no time passed"),
            JobProgress::Found(path) => return Some(path),
            JobProgress::NoPath => return None,
            JobProgress::OutOfRange => panic!("out of range"),
        }
    }
}

fn cost(path: &[Coord]) -> u32 {
    path.windows(2)
        .map(|w| if w[0].0 != w[1].0 && w[0].1 != w[1].1 { 14 } else { 10 })
        .sum()
}

fn dir(a: Coord, b: Coord) -> i32 {
    match (b.0 - a.0, b.1 - a.1) {
        (0, 1) => NORTH,
        (0, -1) => SOUTH,
        (1, 0) => EAST,
        _ => WEST,
    }
}

fn cardinal_ok(world: &World, a: Coord, b: Coord) -> bool {
    world.get(&a).is_some_and(|t| t.open_edges & dir(a, b) != 0) && world.contains_key(&b)
}

fn step_ok(world: &World, a: Coord, b: Coord) -> bool {
    if a.0 == b.0 || a.1 == b.1 {
        return cardinal_ok(world, a, b);
    }
    let corners = [(a.0, b.1), (b.0, a.1)];
    corners.iter().any(|&c| cardinal_ok(world, a, c) && cardinal_ok(world, c, b))
}

fn least_cost(world: &World, start: Coord, goal: Coord, distance: i16) -> Option<u32> {
    if !world.contains_key(&start) {
        return None;
    }
    let mut best: HashMap<Coord, u32> = HashMap::from([(start, 0)]);
    let mut changed = true;
    while changed {
        changed = false;
        for (a, so_far) in best.clone() {
            for i in 0..8 {
                let b = neighbour(a, i);
                let total = so_far + if i < 4 { 10 } else { 14 };
                if step_ok(world, a, b) && best.get(&b).is_none_or(|&old| total < old) {
                    best.insert(b, total);
                    changed = true;
                }
            }
        }
    }
    best.iter()
        .filter(|(c, _)| (c.0 - goal.0).abs().max((c.1 - goal.1).abs()) <= distance)
        .map(|(_, &total)| total)
        .min()
}

#[test]
fn a_straight_way_is_found() {
    let world = open_field(6);
    let path = run(&mut job(grid((1, 1)), (1, 4), 0), &world).unwrap();
    assert_eq!(path, vec![(1, 1), (1, 2), (1, 3), (1, 4)]);
}

#[test]
fn diagonals_are_taken_where_they_pay() {
    let world = open_field(6);
    let path = run(&mut job(grid((1, 1)), (4, 3), 0), &world).unwrap();
    assert_eq!(path.first(), Some(&(1, 1)));
    assert_eq!(path.last(), Some(&(4, 3)));
    assert_eq!(cost(&path), 38);
}

#[test]
fn the_target_range_is_enough() {
    let mut world = open_field(6);
    world.remove(&(6, 6));
    let path = run(&mut job(grid((1, 1)), (6, 6), 2), &world).unwrap();
    assert_eq!(path, vec![(1, 1), (2, 2), (3, 3), (4, 4)]);
    assert!(run(&mut job(grid((1, 1)), (6, 6), 0), &world).is_none());
}

#[test]
fn a_start_in_the_target_range_is_a_path_by_itself() {
    let world = open_field(3);
    assert_eq!(run(&mut job(grid((2, 2)), (3, 3), 1), &world), Some(vec![(2, 2)]));
}

#[test]
fn a_start_without_a_turf_has_no_path() {
    let world = open_field(3);
    let mut search = job(grid((9, 9)), (3, 3), 0);
    assert!(run(&mut search, &world).is_none());
    assert!(search.is_finished());
}

#[test]
fn best_routes_are_found_on_many_maps() {
    let mut seed: u64 = 99;
    let mut found = 0;
    let mut missing = 0;
    for _ in 0..60 {
        let mut world = open_field(7);
        for x in 1..=7i16 {
            for y in 1..=7i16 {
                seed = seed.wrapping_mul(6364136223846793005).wrapping_add(1442695040888963407);
                let dice = (seed >> 40) as i32;
                if dice % 11 == 0 {
                    world.remove(&(x, y));
                } else if let Some(turf) = world.get_mut(&(x, y)) {
                    turf.open_edges = (dice >> 4) & (dice >> 8) & 15 ^ 15;
                }
            }
        }
        let path = run(&mut job(grid((1, 1)), (6, 7), 1), &world);
        let expected = least_cost(&world, (1, 1), (6, 7), 1);
        assert_eq!(path.as_ref().map(|p| cost(p)), expected);
        match path {
            Some(path) => {
                assert!(path.windows(2).all(|w| step_ok(&world, w[0], w[1])));
                found += 1;
            }
            None => missing += 1,
        }
    }
    assert!(found > 5 && missing > 0);
}

#[test]
fn range_avoidance_and_space_restrict_a_search() {
    let mut world = open_field(5);
    let near = Grid { max_range: 2, ..grid((1, 1)) };
    assert!(run(&mut job(near, (5, 5), 1), &world).is_none());
    let wary = Grid { avoid: Some((2, 1)), ..grid((1, 1)) };
    let path = run(&mut job(wary, (3, 1), 0), &world).unwrap();
    assert!(!path.contains(&(2, 1)));
    assert_eq!(cost(&path), 28);
    world.get_mut(&(2, 1)).unwrap().simulated = false;
    world.get_mut(&(2, 2)).unwrap().simulated = false;
    let grounded = Grid { simulated_only: true, ..grid((1, 1)) };
    let path = run(&mut job(grounded, (3, 1), 0), &world).unwrap();
    assert_eq!(cost(&path), 10 + 14 + 14 + 10);
}

#[test]
fn slices_yield_and_go_on() {
    let world = open_field(8);
    let whole = run(&mut job(grid((1, 1)), (8, 5), 0), &world).unwrap();
    let mut search = job(grid((1, 1)), (8, 5), 0);
    let mut now = 0;
    let mut yields = 0;
    search.begin_slice(now);
    let path = loop {
        now += SLICE_BUDGET / 3;
        match search.step(now) {
            JobProgress::Resolve(c) => search.record(c, world.get(&c).copied()),
            JobProgress::Advanced => {}
            JobProgress::InProgress => {
                yields += 1;
                now += 1000 * SLICE_BUDGET;
                search.begin_slice(now);
                assert_eq!(search.last_touched(), now);
            }
            JobProgress::Found(path) => break path,
            JobProgress::NoPath => panic!("there is a path"),
            JobProgress::OutOfRange => panic!("out of range"),
        }
    };
    assert_eq!(path, whole);
    assert!(yields > 3);
}

#[test]
fn the_slice_ends_exactly_at_its_budget() {
    let world = open_field(3);
    let mut search = job(grid((1, 1)), (3, 3), 0);
    search.record((1, 1), world.get(&(1, 1)).copied());
    search.begin_slice(100);
    assert!(matches!(search.step(100 + SLICE_BUDGET), JobProgress::InProgress));
    assert!(matches!(search.step(99 + SLICE_BUDGET), JobProgress::Resolve(_)));
}

#[test]
fn the_first_state_of_a_turf_stays() {
    let world = open_field(3);
    let mut search = job(grid((1, 1)), (1, 3), 0);
    search.record((1, 2), None);
    search.record((1, 2), world.get(&(1, 2)).copied());
    let path = run(&mut search, &world).unwrap();
    assert!(!path.contains(&(1, 2)));
}

#[test]
fn a_turf_is_asked_for_only_once() {
    let world = open_field(5);
    let mut search = job(grid((1, 1)), (5, 5), 0);
    let mut asked = Vec::new();
    loop {
        match search.step(0) {
            JobProgress::Resolve(c) => {
                assert!(!asked.contains(&c));
                asked.push(c);
                search.record(c, world.get(&c).copied());
            }
            JobProgress::Advanced => {}
            _ => break,
        }
    }
    assert_eq!(asked.first(), Some(&(1, 1)));
}

#[test]
fn successors_come_with_their_costs() {
    let mut here = grid((2, 2));
    let info = |open_edges| Some(TurfInfo { open_edges, simulated: true });
    here.record((2, 2), info(NORTH | EAST));
    assert_eq!(here.successors((2, 2)).err().unwrap().coord, (2, 3));
    here.record((2, 3), info(EAST));
    here.record((3, 2), None);
    here.record((3, 3), info(0));
    here.record((1, 3), info(0));
    assert_eq!(here.successors((2, 2)).unwrap(), vec![((2, 3), 10), ((3, 3), 14)]);
    let routes = here.diagonal_routes((2, 2), (3, 3)).unwrap();
    assert!(routes.north_south_first && !routes.east_west_first);
    assert!(here.can_occupy((3, 3)).unwrap());
    assert!(!here.can_occupy((3, 2)).unwrap());
    assert!(here.lookup(9, 9).is_err());
    here.record((5, 5), None);
    assert_eq!(here.successors((5, 5)).unwrap(), vec![]);
    let none = here.diagonal_routes((5, 5), (6, 6)).unwrap();
    assert!(!none.north_south_first && !none.east_west_first);
}

#[test]
fn both_ways_around_a_corner_are_looked_at() {
    let mut here = grid((2, 2));
    let info = |open_edges| Some(TurfInfo { open_edges, simulated: true });
    here.record((2, 2), info(SOUTH | WEST));
    here.record((2, 1), info(0));
    here.record((1, 2), info(SOUTH));
    here.record((1, 1), info(0));
    let routes = here.diagonal_routes((2, 2), (1, 1)).unwrap();
    assert!(!routes.north_south_first && routes.east_west_first);
}

#[test]
fn a_search_that_leaves_the_coordinates_says_so() {
    let mut search = job(grid((i16::MAX, 0)), (0, 0), 0);
    search.record((i16::MAX, 0), Some(TurfInfo { open_edges: EAST, simulated: true }));
    assert!(matches!(search.step(0), JobProgress::OutOfRange));
    assert!(search.is_finished());
}

#[test]
fn found_paths_are_handed_out_in_shape() {
    let mut world = open_field(4);
    // The vertical-first way around the first corner is shut.
    world.get_mut(&(1, 1)).unwrap().open_edges = EAST;
    let hand_out = |handling, skip_first| {
        let mut search = SearchJob::new(grid((1, 1)), (3, 3), 0, handling, skip_first, 0);
        let nodes = run(&mut search, &world).unwrap();
        assert_eq!(nodes, vec![(1, 1), (2, 2), (3, 3)]);
        search.final_path(&nodes).unwrap().unwrap()
    };
    assert_eq!(
        hand_out(DiagonalHandling::DoNothing, false),
        vec![(1, 1), (2, 2), (3, 3)]
    );
    assert_eq!(
        hand_out(DiagonalHandling::RemoveAll, false),
        vec![(1, 1), (2, 1), (2, 2), (2, 3), (3, 3)]
    );
    assert_eq!(
        hand_out(DiagonalHandling::RemoveClunky, true),
        vec![(2, 1), (2, 2), (3, 3)]
    );
}

#[test]
fn a_path_over_unseen_turfs_is_not_handed_out() {
    let search = SearchJob::new(grid((1, 1)), (3, 3), 0, DiagonalHandling::RemoveAll, false, 0);
    let unknown = search.final_path(&vec![(1, 1), (2, 2)]).err().unwrap();
    assert_eq!(unknown.coord, (1, 1));
    let mut search = search;
    search.record((1, 1), None);
    assert_eq!(search.final_path(&vec![(1, 1), (2, 2)]).unwrap(), None);
}

fn run_sliced(job: &mut SearchJob, world: &World, per_move: u64) -> (Option<Vec<Coord>>, u32) {
    let mut now = 7;
    let mut yields = 0;
    job.begin_slice(now);
    loop {
        now += per_move;
        match job.step(now) {
            JobProgress::Resolve(c) => job.record(c, world.get(&c).copied()),
            JobProgress::Advanced => {}
            JobProgress::InProgress => {
                yields += 1;
                now += 11 * SLICE_BUDGET;
                job.begin_slice(now);
            }
            JobProgress::Found(path) => return (Some(path), yields),
            JobProgress::NoPath => return (None, yields),
            JobProgress::OutOfRange => panic!("out of range"),
        }
    }
}

#[test]
fn slices_do_not_change_what_is_handed_out() {
    let mut walled = open_field(7);
    for y in 2..=7 {
        walled.remove(&(4, y));
    }
    let mut split = walled.clone();
    split.remove(&(4, 1));
    for (world, found) in [(walled, true), (split, false)] {
        let search = || SearchJob::new(grid((1, 5)), (7, 6), 0, DiagonalHandling::RemoveAll, true, 0);
        let mut whole = search();
        let nodes = run(&mut whole, &world);
        assert_eq!(nodes.is_some(), found);
        for per_move in [1, SLICE_BUDGET / 7, SLICE_BUDGET / 2, SLICE_BUDGET - 1] {
            let mut sliced = search();
            let (same, yields) = run_sliced(&mut sliced, &world, per_move);
            assert_eq!(same, nodes);
            assert_eq!(yields > 0, per_move > 1);
            if let Some(nodes) = &nodes {
                let turfs = whole.final_turfs(nodes).unwrap();
                assert!(!turfs.is_empty());
                assert_eq!(sliced.final_turfs(nodes).unwrap(), turfs);
            }
        }
    }
}

#[test]
fn the_turfs_of_a_path_lie_on_its_level() {
    let mut world = open_field(3);
    world.get_mut(&(1, 1)).unwrap().open_edges = EAST;
    let level = Grid { z: 9, ..grid((1, 1)) };
    let mut search = SearchJob::new(level, (2, 2), 0, DiagonalHandling::RemoveAll, false, 0);
    let nodes = run(&mut search, &world).unwrap();
    assert_eq!(search.final_turfs(&nodes).unwrap(), vec![(1, 1, 9), (2, 1, 9), (2, 2, 9)]);
    let mut search = job(grid((1, 1)), (2, 2), 0);
    search.record((1, 1), None);
    assert_eq!(search.final_turfs(&vec![(1, 1)]).unwrap(), vec![(1, 1, 1)]);
}

#[test]
fn a_path_without_a_way_around_a_corner_has_no_turfs() {
    let mut search =
        SearchJob::new(grid((1, 1)), (2, 2), 0, DiagonalHandling::RemoveAll, false, 0);
    assert_eq!(search.final_turfs(&vec![(1, 1), (2, 2)]).err().unwrap().coord, (1, 1));
    search.record((1, 1), None);
    assert_eq!(search.final_turfs(&vec![(1, 1), (2, 2)]).unwrap(), vec![]);
}

#[test]
fn a_search_over_a_closed_room_ends() {
    let world = open_field(3);
    let mut search = job(grid((2, 2)), (30, 30), 0);
    search.begin_slice(7);
    let mut moves = 0;
    loop {
        moves += 1;
        match search.step(7) {
            JobProgress::Resolve(c) => search.record(c, world.get(&c).copied()),
            JobProgress::Advanced => {}
            JobProgress::NoPath => break,
            _ => panic!("there is no way out"),
        }
    }
    let mut sliced = job(grid((2, 2)), (30, 30), 0);
    let (path, yields) = run_sliced(&mut sliced, &world, SLICE_BUDGET / 2);
    assert!(path.is_none());
    assert!(yields > 0 && moves > 9);
}
