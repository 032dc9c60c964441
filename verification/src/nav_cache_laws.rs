//! What is published for a turf is what is read of it.
use vstd::prelude::*;
use crate::coord::TurfCoords;
use crate::host_value::nearest_coordinate;
use crate::nav_cache::{bulk_published, cached_value, first_missing, published, turf_named};

verus! {

/// A number names the coordinate that is nearest to it: itself, where it is one.
pub proof fn law_number_names_the_nearest_coordinate(n: i32, k: i16)
    ensures
        -32768 <= n <= 32767 ==> nearest_coordinate(n) == n,
        n <= k ==> n <= nearest_coordinate(n) <= k || nearest_coordinate(n) == n,
        n >= k ==> k <= nearest_coordinate(n) <= n || nearest_coordinate(n) == n,
{
}

/// The number `n` names the coordinate `c`: it is `c`, or lies beyond the last coordinate on the
/// side of `c`.
pub open spec fn names_coordinate(n: i32, c: i16) -> bool {
    ||| n == c
    ||| n < -32768 && c == -32768
    ||| n > 32767 && c == 32767
}

/// Three numbers name a turf: column, row and z-level in this order.
pub open spec fn names_turf(x: i32, y: i32, z: i32, turf: TurfCoords) -> bool {
    names_coordinate(x, turf.0) && names_coordinate(y, turf.1) && names_coordinate(z, turf.2)
}

/// The turf that three numbers name is the only one that they name.
pub proof fn law_three_numbers_name_one_turf(x: i32, y: i32, z: i32, turf: TurfCoords)
    ensures
        names_turf(x, y, z, turf) <==> turf == turf_named(x, y, z),
{
}

/// The first value that is no number is no number, and all before it are numbers.
pub proof fn law_first_missing_value(values: Seq<Option<i32>>)
    ensures
        match first_missing(values) {
            Some(i) => 0 <= i < values.len() && values[i] is None && forall|j: int|
                0 <= j < i ==> (#[trigger] values[j]) is Some,
            None => forall|j: int| 0 <= j < values.len() ==> (#[trigger] values[j]) is Some,
        },
    decreases values.len(),
{
    if values.len() > 0 {
        let shorter = values.drop_last();
        law_first_missing_value(shorter);
        match first_missing(shorter) {
            Some(i) => {
                assert(values[i] == shorter[i]);
                assert forall|j: int| 0 <= j < i implies (#[trigger] values[j]) is Some by {
                    assert(shorter[j] is Some);
                }
            },
            None => {
                assert forall|j: int| 0 <= j < values.len() - 1 implies (#[trigger] values[j])
                    is Some by {
                    assert(shorter[j] is Some);
                }
            },
        }
    }
}

/// After an update with four numbers the turf that they name has the very value that was
/// published, and every other turf has the value that it had.
pub proof fn law_update_publishes_the_value(
    cache: Map<TurfCoords, i32>,
    x: i32,
    y: i32,
    z: i32,
    value: i32,
    turf: TurfCoords,
)
    ensures
        ({
            let (after, bad) = published(cache, seq![Some(x), Some(y), Some(z), Some(value)], 1);
            &&& bad is None
            &&& names_turf(x, y, z, turf) ==> cached_value(after, turf) == Some(value)
            &&& !names_turf(x, y, z, turf) ==> cached_value(after, turf) == cached_value(
                cache,
                turf,
            )
            &&& cached_value(after, turf) matches Some(v) ==> after.contains_key(turf) && after[turf]
                == v
            &&& cached_value(after, turf) is None ==> !after.contains_key(turf)
        }),
{
    let values = seq![Some(x), Some(y), Some(z), Some(value)];
    reveal_with_fuel(published, 2);
    law_first_missing_value(values.subrange(0, 4));
    law_three_numbers_name_one_turf(x, y, z, turf);
}

/// An update with a value that is no number publishes nothing, and tells the place of the first
/// such value.
pub proof fn law_update_without_a_number_publishes_nothing(
    cache: Map<TurfCoords, i32>,
    values: Seq<Option<i32>>,
    i: int,
)
    requires
        values.len() == 4,
        0 <= i < 4,
        values[i] is None,
        forall|j: int| 0 <= j < i ==> (#[trigger] values[j]) is Some,
    ensures
        published(cache, values, 1).0 == cache,
        published(cache, values, 1).1 == Some(i),
{
    reveal_with_fuel(published, 2);
    assert(values.subrange(0, 4) =~= values);
    law_first_missing_value(values);
}

/// The group `g` names the turf.
pub open spec fn group_names(values: Seq<Option<i32>>, g: int, turf: TurfCoords) -> bool {
    names_turf(values[4 * g]->0, values[4 * g + 1]->0, values[4 * g + 2]->0, turf)
}

/// The first `n` groups hold numbers alone.
pub open spec fn all_numbers(values: Seq<Option<i32>>, n: nat) -> bool {
    forall|i: int| 0 <= i < 4 * n ==> (#[trigger] values[i]) is Some
}

/// After a bulk update of numbers each turf has the fourth number of the last group that names
/// it, as it stands; a turf that no group names has the value that it had.
pub proof fn law_bulk_update_publishes_the_values(
    cache: Map<TurfCoords, i32>,
    values: Seq<Option<i32>>,
    n: nat,
    turf: TurfCoords,
)
    requires
        4 * n <= values.len(),
        all_numbers(values, n),
    ensures
        published(cache, values, n).1 is None,
        forall|g: int|
            0 <= g < n && #[trigger] group_names(values, g, turf) && (forall|h: int|
                g < h < n ==> !#[trigger] group_names(values, h, turf)) ==> cached_value(
                published(cache, values, n).0,
                turf,
            ) == values[4 * g + 3],
        (forall|g: int| 0 <= g < n ==> !#[trigger] group_names(values, g, turf)) ==> cached_value(
            published(cache, values, n).0,
            turf,
        ) == cached_value(cache, turf),
    decreases n,
{
    if n > 0 {
        let at = 4 * (n - 1);
        law_bulk_update_publishes_the_values(cache, values, (n - 1) as nat, turf);
        let group = values.subrange(at, at + 4);
        law_first_missing_value(group);
        if first_missing(group) is Some {
            let i = first_missing(group)->0;
            assert(values[at + i] is Some);
        }
        law_three_numbers_name_one_turf(
            values[at]->0,
            values[at + 1]->0,
            values[at + 2]->0,
            turf,
        );
        assert(values[at + 3] is Some);
        let before = published(cache, values, (n - 1) as nat).0;
        let after = published(cache, values, n).0;
        assert(group_names(values, n - 1, turf) ==> cached_value(after, turf) == values[at + 3]);
        assert(!group_names(values, n - 1, turf) ==> cached_value(after, turf) == cached_value(
            before,
            turf,
        ));
        if forall|g: int| 0 <= g < n ==> !#[trigger] group_names(values, g, turf) {
            assert(!group_names(values, n - 1, turf));
        }
        assert forall|g: int|
            0 <= g < n && #[trigger] group_names(values, g, turf) && (forall|h: int|
                g < h < n ==> !#[trigger] group_names(values, h, turf)) implies cached_value(
            after,
            turf,
        ) == values[4 * g + 3] by {
            if g < n - 1 {
                assert(!group_names(values, n - 1, turf));
            }
        }
    }
}

/// A bulk update stops at the first value that is no number, and tells its place; what it has
/// published is what the groups before that one hold.
pub proof fn law_bulk_update_stops_at_what_is_no_number(
    cache: Map<TurfCoords, i32>,
    values: Seq<Option<i32>>,
    n: nat,
)
    requires
        4 * n <= values.len(),
    ensures
        published(cache, values, n).1 is None <==> all_numbers(values, n),
        published(cache, values, n).1 matches Some(i) ==> {
            &&& 0 <= i < 4 * n
            &&& values[i] is None
            &&& forall|j: int| 0 <= j < i ==> (#[trigger] values[j]) is Some
            &&& published(cache, values, n).0 == published(cache, values, (i / 4) as nat).0
            &&& published(cache, values, (i / 4) as nat).1 is None
        },
    decreases n,
{
    if n > 0 {
        let at = 4 * (n - 1);
        law_bulk_update_stops_at_what_is_no_number(cache, values, (n - 1) as nat);
        let group = values.subrange(at, at + 4);
        law_first_missing_value(group);
        match published(cache, values, (n - 1) as nat).1 {
            Some(i) => {
                assert(values[i] is None);
            },
            None => {
                match first_missing(group) {
                    Some(k) => {
                        assert(group[k] == values[at + k]);
                        assert forall|j: int| 0 <= j < at + k implies (#[trigger] values[j])
                            is Some by {
                            if j >= at {
                                assert(group[j - at] is Some);
                            }
                        }
                    },
                    None => {
                        assert forall|j: int| 0 <= j < 4 * n implies (#[trigger] values[j])
                            is Some by {
                            if j >= at {
                                assert(group[j - at] is Some);
                            }
                        }
                    },
                }
            },
        }
    }
}

/// A list that is not made of groups of four publishes nothing; one that is has each of its
/// groups published, up to the first value that is no number.
pub proof fn law_bulk_update_takes_groups_of_four(
    cache: Map<TurfCoords, i32>,
    values: Seq<Option<i32>>,
    n: nat,
)
    ensures
        values.len() == 4 * n + 1 || values.len() == 4 * n + 2 || values.len() == 4 * n + 3
            ==> bulk_published(cache, values) == cache,
        values.len() == 4 * n ==> bulk_published(cache, values) == published(cache, values, n).0,
{
}

} // verus!
