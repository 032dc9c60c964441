use navmap_pathfinder::coord::{
    chebyshev_distance, coordinate_allowed, heuristic_to_target_range, interior, turf_allowed,
};
use navmap_pathfinder::coord_map::CoordMap;
use navmap_pathfinder::direction::{
    cardinal, nav_pass_is_simulated, neighbour, reverse_dir, BAKED_FLAG, EAST, NORTH,
    SIMULATED_FLAG, SOUTH, WEST,
};

#[test]
fn option_helpers_cover_target_range_space_and_avoidance() {
    assert!(chebyshev_distance((7, 7), (10, 10)) <= 3);
    assert!(!turf_allowed(true, false));
    assert!(turf_allowed(false, false));
    assert!(!coordinate_allowed((12, 12), (10, 10), 2, Some((12, 12))));
    assert!(!coordinate_allowed((13, 10), (10, 10), 2, None));
}

#[test]
fn chebyshev_distance_is_the_longer_axis() {
    assert_eq!(chebyshev_distance((1, 2), (4, -5)), 7);
    assert_eq!(chebyshev_distance((9, 9), (9, 9)), 0);
    assert_eq!(chebyshev_distance((-3, 0), (5, 1)), 8);
}

#[test]
fn heuristic_is_octile_distance_to_the_target_range() {
    assert_eq!(heuristic_to_target_range((0, 0), (3, 5), 0), 62);
    assert_eq!(heuristic_to_target_range((0, 0), (5, 0), 0), 50);
    assert_eq!(heuristic_to_target_range((0, 0), (4, 4), 0), 56);
    assert_eq!(heuristic_to_target_range((0, 0), (3, 5), 2), 14 + 20);
    assert_eq!(heuristic_to_target_range((1, 1), (2, 2), 3), 0);
}

#[test]
fn heuristic_is_consistent_over_the_eight_steps() {
    for x in -6..=6i16 {
        for y in -6..=6i16 {
            for i in 0..8usize {
                let to = neighbour((x, y), i);
                let cost = if i < 4 { 10 } else { 14 };
                let here = heuristic_to_target_range((x, y), (1, -2), 1);
                assert!(here <= cost + heuristic_to_target_range(to, (1, -2), 1));
            }
        }
    }
}

#[test]
fn unlimited_range_allows_everything_but_the_avoided_turf() {
    assert!(coordinate_allowed((1000, 1000), (0, 0), 0, None));
    assert!(coordinate_allowed((1000, 1000), (0, 0), -1, Some((0, 1000))));
    assert!(!coordinate_allowed((1000, 1000), (0, 0), 0, Some((1000, 1000))));
    assert!(coordinate_allowed((12, 8), (10, 10), 2, None));
}

#[test]
fn simulated_only_needs_simulated_turfs() {
    assert!(turf_allowed(true, true));
    assert!(turf_allowed(false, true));
    assert!(nav_pass_is_simulated(SIMULATED_FLAG | NORTH));
    assert!(!nav_pass_is_simulated(BAKED_FLAG | NORTH));
}

#[test]
fn directions_reverse() {
    assert_eq!(reverse_dir(NORTH), SOUTH);
    assert_eq!(reverse_dir(SOUTH), NORTH);
    assert_eq!(reverse_dir(EAST), WEST);
    assert_eq!(reverse_dir(WEST), EAST);
    assert_eq!(reverse_dir(NORTH | EAST), NORTH | EAST);
    for i in 0..4 {
        assert_eq!(reverse_dir(reverse_dir(cardinal(i))), cardinal(i));
    }
}

#[test]
fn steps_come_in_order() {
    let all: Vec<(i16, i16)> = (0..8).map(|i| neighbour((5, 5), i)).collect();
    assert_eq!(
        all,
        vec![(5, 6), (5, 4), (6, 5), (4, 5), (6, 6), (6, 4), (4, 6), (4, 4)]
    );
    assert_eq!((cardinal(0), cardinal(1), cardinal(2), cardinal(3)), (NORTH, SOUTH, EAST, WEST));
}

#[test]
fn interior_excludes_the_edge_of_the_type() {
    assert!(interior((0, 0)));
    assert!(!interior((i16::MAX, 0)));
    assert!(!interior((0, i16::MIN)));
}

#[test]
fn coordinate_map_tells_keys_apart() {
    let mut map = CoordMap::new();
    map.insert((1, 2), 10);
    map.insert((2, 1), 20);
    map.insert((-1, 2), 30);
    map.insert((i16::MIN, i16::MAX), 40);
    map.insert((1, 2), 11);
    assert_eq!(map.get((1, 2)), Some(&11));
    assert_eq!(map.get((2, 1)), Some(&20));
    assert_eq!(map.get((-1, 2)), Some(&30));
    assert_eq!(map.get((i16::MIN, i16::MAX)), Some(&40));
    assert_eq!(map.get((0, 0)), None);
}
