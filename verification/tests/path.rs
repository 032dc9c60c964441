use navmap_pathfinder::grid::DiagonalRoutes;
use navmap_pathfinder::path::{
    all_located, apply_skip_first, expand_diagonals, expand_diagonals_checked, DiagonalHandling,
};

#[test]
fn path_shape_and_diagonal_modes_are_preserved() {
    let path = [(0, 0), (1, 1)];
    let both_routes = |_, _| DiagonalRoutes {
        north_south_first: true,
        east_west_first: true,
    };
    assert_eq!(
        expand_diagonals(&path, DiagonalHandling::RemoveAll, both_routes),
        Some(vec![(0, 0), (0, 1), (1, 1)])
    );
    let east_west_only = |_, _| DiagonalRoutes {
        north_south_first: false,
        east_west_first: true,
    };
    assert_eq!(
        expand_diagonals(&path, DiagonalHandling::RemoveClunky, east_west_only),
        Some(vec![(0, 0), (1, 0), (1, 1)])
    );
    assert_eq!(
        expand_diagonals(&path, DiagonalHandling::RemoveClunky, both_routes),
        Some(vec![(0, 0), (1, 1)])
    );
    assert_eq!(apply_skip_first(vec![(0, 0), (1, 0)], true), vec![(1, 0)]);
}

fn routes(north_south_first: bool, east_west_first: bool) -> DiagonalRoutes {
    DiagonalRoutes { north_south_first, east_west_first }
}

#[test]
fn remove_all_falls_back_to_the_horizontal_way() {
    let path = [(0, 0), (1, -1), (2, -1)];
    assert_eq!(
        expand_diagonals(&path, DiagonalHandling::RemoveAll, |_, _| routes(false, true)),
        Some(vec![(0, 0), (1, 0), (1, -1), (2, -1)])
    );
}

#[test]
fn remove_all_gives_nothing_where_a_diagonal_is_blocked() {
    let path = [(0, 0), (1, 0), (2, 1)];
    assert_eq!(
        expand_diagonals(&path, DiagonalHandling::RemoveAll, |_, _| routes(false, false)),
        None
    );
    assert_eq!(
        expand_diagonals(&path, DiagonalHandling::RemoveClunky, |_, _| routes(false, false)),
        Some(path.to_vec())
    );
    assert_eq!(
        expand_diagonals(&path, DiagonalHandling::DoNothing, |_, _| routes(false, false)),
        Some(path.to_vec())
    );
}

#[test]
fn a_failing_lookup_ends_the_expansion() {
    let path = [(0, 0), (1, 1), (2, 2)];
    let look_up = |from: (i16, i16), _to: (i16, i16)| {
        if from == (1, 1) {
            Err("gone")
        } else {
            Ok(routes(true, true))
        }
    };
    assert_eq!(
        expand_diagonals_checked(&path, DiagonalHandling::DoNothing, look_up),
        Err("gone")
    );
    let blocked_first = |from: (i16, i16), _to: (i16, i16)| {
        if from == (1, 1) {
            Err("gone")
        } else {
            Ok(routes(false, false))
        }
    };
    assert_eq!(
        expand_diagonals_checked(&path, DiagonalHandling::RemoveAll, blocked_first),
        Ok(None)
    );
}

#[test]
fn short_paths_stay() {
    let none: [(i16, i16); 0] = [];
    assert_eq!(
        expand_diagonals(&none, DiagonalHandling::RemoveAll, |_, _| routes(false, false)),
        Some(vec![])
    );
    assert_eq!(
        expand_diagonals(&[(4, 4)], DiagonalHandling::RemoveAll, |_, _| routes(false, false)),
        Some(vec![(4, 4)])
    );
}

#[test]
fn skip_first_leaves_an_empty_path_alone() {
    assert_eq!(apply_skip_first(vec![], true), vec![]);
    assert_eq!(apply_skip_first(vec![(1, 1), (2, 2)], false), vec![(1, 1), (2, 2)]);
}

#[test]
fn a_list_holds_every_turf_in_order() {
    assert_eq!(all_located(vec![Some('c'), Some('a'), Some('b')]), vec!['c', 'a', 'b']);
    assert_eq!(all_located(Vec::<Option<char>>::new()), Vec::<char>::new());
}

#[test]
fn a_path_is_never_handed_out_in_part() {
    for missing in 0..3 {
        let mut turfs = vec![Some('a'), Some('b'), Some('c')];
        turfs[missing] = None;
        assert!(all_located(turfs.clone()).is_empty());
        turfs.truncate(missing + 1);
        assert!(all_located(turfs).is_empty());
    }
}
