use navmap_pathfinder::direction::{BAKED_FLAG, NORTH, SIMULATED_FLAG};
use navmap_pathfinder::error::{BulkUpdateError, NavPathError};
use navmap_pathfinder::nav_cache::{coords_from_values, NavPassCache};

#[test]
fn cache_retains_simulated_invalidations() {
    let mut cache = NavPassCache::new();
    let coords = (i16::MIN, i16::MIN, i16::MIN);
    cache.cache_nav_pass(coords, BAKED_FLAG | SIMULATED_FLAG | NORTH);
    assert_eq!(cache.cached_nav_pass(coords), Some(BAKED_FLAG | SIMULATED_FLAG | NORTH));
    cache.cache_nav_pass(coords, 0);
    assert_eq!(cache.cached_nav_pass(coords), Some(0));
}

#[test]
fn turfs_are_told_apart() {
    let mut cache = NavPassCache::new();
    cache.cache_nav_pass((1, 2, 3), 7);
    cache.cache_nav_pass((3, 2, 1), 8);
    cache.cache_nav_pass((1, 3, 2), 9);
    assert_eq!(cache.cached_nav_pass((1, 2, 3)), Some(7));
    assert_eq!(cache.cached_nav_pass((3, 2, 1)), Some(8));
    assert_eq!(cache.cached_nav_pass((1, 3, 2)), Some(9));
    assert_eq!(cache.cached_nav_pass((2, 2, 2)), None);
}

#[test]
fn numbers_out_of_range_name_the_nearest_turf() {
    assert_eq!(
        coords_from_values(Some(40000), Some(-40000), Some(5)),
        Ok((i16::MAX, i16::MIN, 5))
    );
    assert_eq!(coords_from_values(Some(1), None, None), Err(1));
    assert_eq!(coords_from_values(None, None, None), Err(0));
    assert_eq!(coords_from_values(Some(1), Some(2), None), Err(2));
}

#[test]
fn single_updates_publish_one_turf() {
    let mut cache = NavPassCache::new();
    assert_eq!(cache.update(Some(1), Some(2), Some(3), Some(4096)), Ok(()));
    assert_eq!(cache.cached_nav_pass((1, 2, 3)), Some(4096));
    assert_eq!(cache.update(Some(1), Some(2), Some(3), None), Err(3));
    assert_eq!(cache.update(Some(1), Some(2), None, None), Err(2));
    assert_eq!(cache.cached_nav_pass((1, 2, 3)), Some(4096));
}

#[test]
fn bulk_updates_publish_groups_of_four() {
    let mut cache = NavPassCache::new();
    let values: Vec<Option<i32>> = [1, 1, 1, 10, 2, 1, 1, 20, 1, 1, 1, 30].map(Some).to_vec();
    assert_eq!(cache.bulk_update(&values), Ok(()));
    assert_eq!(cache.cached_nav_pass((1, 1, 1)), Some(30));
    assert_eq!(cache.cached_nav_pass((2, 1, 1)), Some(20));
    assert_eq!(cache.bulk_update(&vec![]), Ok(()));
}

#[test]
fn bulk_updates_of_another_length_are_rejected() {
    let mut cache = NavPassCache::new();
    let values: Vec<Option<i32>> = [1, 1, 1, 10, 2].map(Some).to_vec();
    assert_eq!(
        cache.bulk_update(&values),
        Err(BulkUpdateError::Rejected(NavPathError::InvalidBulkUpdateLength))
    );
    assert_eq!(cache.cached_nav_pass((1, 1, 1)), None);
}

#[test]
fn bulk_updates_stop_at_a_value_that_is_no_number() {
    let mut cache = NavPassCache::new();
    let mut values: Vec<Option<i32>> = [1, 1, 1, 10, 2, 1, 1, 20, 3, 1, 1, 30].map(Some).to_vec();
    values[6] = None;
    assert_eq!(cache.bulk_update(&values), Err(BulkUpdateError::NotANumber(6)));
    assert_eq!(cache.cached_nav_pass((1, 1, 1)), Some(10));
    assert_eq!(cache.cached_nav_pass((2, 1, 1)), None);
    assert_eq!(cache.cached_nav_pass((3, 1, 1)), None);
}

#[test]
fn errors_have_words() {
    assert_eq!(
        NavPathError::DifferentZLevels.message(),
        "start and end turfs are on different z-levels"
    );
    assert_eq!(NavPathError::NotATurf.message(), "argument was not a turf");
    assert_eq!(
        NavPathError::InvalidBulkUpdateLength.message(),
        "navmap bulk update list length must be a multiple of 4"
    );
}
