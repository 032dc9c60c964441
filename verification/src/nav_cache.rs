//! The packed navigation values that the host published.
use vstd::prelude::*;
use std::collections::HashMap;
use crate::coord::TurfCoords;
use crate::error::{BulkUpdateError, NavPathError};
use crate::host_value::{nearest_coordinate, to_coordinate};

verus! {

/// The key under which the value of a turf is stored.
pub open spec fn turf_key(c: TurfCoords) -> u64 {
    ((c.0 + 32768) * 0x1_0000_0000 + (c.1 + 32768) * 0x1_0000 + (c.2 + 32768)) as u64
}

fn key_of(c: TurfCoords) -> (k: u64)
    ensures
        k == turf_key(c),
{
    let x: u64 = (c.0 as i32 + 32768) as u64;
    let y: u64 = (c.1 as i32 + 32768) as u64;
    let z: u64 = (c.2 as i32 + 32768) as u64;
    x * 0x1_0000_0000 + y * 0x1_0000 + z
}

/// Different turfs have different keys.
proof fn lemma_key_injective(a: TurfCoords, b: TurfCoords)
    ensures
        turf_key(a) == turf_key(b) ==> a == b,
{
}

/// The last value published for each turf. Unbaked values are kept too: they mark a turf
/// whose value has to be baked anew before it is used.
pub struct NavPassCache {
    entries: HashMap<u64, i32>,
}

impl View for NavPassCache {
    type V = Map<TurfCoords, i32>;

    closed spec fn view(&self) -> Map<TurfCoords, i32> {
        Map::new(
            |c: TurfCoords| self.entries@.contains_key(turf_key(c)),
            |c: TurfCoords| self.entries@[turf_key(c)],
        )
    }
}

/// What the cache says of a turf.
pub open spec fn cached_value(cache: Map<TurfCoords, i32>, coords: TurfCoords) -> Option<i32> {
    if cache.contains_key(coords) {
        Some(cache[coords])
    } else {
        None
    }
}

/// The place of the first value that is no number.
pub open spec fn first_missing(values: Seq<Option<i32>>) -> Option<int>
    decreases values.len(),
{
    if values.len() == 0 {
        None
    } else {
        match first_missing(values.drop_last()) {
            Some(i) => Some(i),
            None => if values.last() is None {
                Some(values.len() - 1)
            } else {
                None
            },
        }
    }
}

/// The turf that three numbers name.
pub open spec fn turf_named(x: i32, y: i32, z: i32) -> TurfCoords {
    (nearest_coordinate(x), nearest_coordinate(y), nearest_coordinate(z))
}

/// The cache after the first `n` groups of `x, y, z, value` were published in turn, and the
/// place of the value that is no number, where there is one: it ends the update.
pub open spec fn published(
    cache: Map<TurfCoords, i32>,
    values: Seq<Option<i32>>,
    n: nat,
) -> (Map<TurfCoords, i32>, Option<int>)
    decreases n,
{
    if n == 0 {
        (cache, None)
    } else {
        let (before, bad) = published(cache, values, (n - 1) as nat);
        let at = 4 * (n - 1);
        match bad {
            Some(i) => (before, Some(i)),
            None => match first_missing(values.subrange(at, at + 4)) {
                Some(i) => (before, Some(at + i)),
                None => (
                    before.insert(
                        turf_named(values[at]->0, values[at + 1]->0, values[at + 2]->0),
                        values[at + 3]->0,
                    ),
                    None,
                ),
            },
        }
    }
}

/// The cache after a bulk update: nothing is published of a list that is not made of groups.
pub open spec fn bulk_published(cache: Map<TurfCoords, i32>, values: Seq<Option<i32>>) -> Map<
    TurfCoords,
    i32,
> {
    if values.len() % 4 != 0 {
        cache
    } else {
        published(cache, values, values.len() / 4).0
    }
}

/// The turf that three values name, or which of them is no number.
pub fn coords_from_values(x: Option<i32>, y: Option<i32>, z: Option<i32>) -> (r: Result<
    TurfCoords,
    usize,
>)
    ensures
        match first_missing(seq![x, y, z]) {
            None => r == Ok::<TurfCoords, usize>(turf_named(x->0, y->0, z->0)),
            Some(i) => r matches Err(j) && j == i,
        },
{
    proof {
        reveal_with_fuel(first_missing, 4);
        assert(seq![x, y, z].drop_last() =~= seq![x, y]);
        assert(seq![x, y].drop_last() =~= seq![x]);
        assert(seq![x].drop_last() =~= Seq::<Option<i32>>::empty());
    }
    match x {
        None => Err(0),
        Some(x) => match y {
            None => Err(1),
            Some(y) => match z {
                None => Err(2),
                Some(z) => Ok((to_coordinate(x), to_coordinate(y), to_coordinate(z))),
            },
        },
    }
}

impl NavPassCache {
    pub fn new() -> (c: Self)
        ensures
            c@ == Map::<TurfCoords, i32>::empty(),
    {
        broadcast use vstd::std_specs::hash::group_hash_axioms;

        let c = NavPassCache { entries: HashMap::new() };
        assert(c@ =~= Map::<TurfCoords, i32>::empty());
        c
    }

    pub fn cached_nav_pass(&self, coords: TurfCoords) -> (r: Option<i32>)
        ensures
            r == cached_value(self@, coords),
    {
        broadcast use vstd::std_specs::hash::group_hash_axioms;

        match self.entries.get(&key_of(coords)) {
            Some(v) => Some(*v),
            None => None,
        }
    }

    /// Replaces the value of a turf. The host publishes baked values and invalidations alike.
    pub fn cache_nav_pass(&mut self, coords: TurfCoords, nav_pass: i32)
        ensures
            final(self)@ == old(self)@.insert(coords, nav_pass),
    {
        broadcast use vstd::std_specs::hash::group_hash_axioms;

        self.entries.insert(key_of(coords), nav_pass);
        proof {
            assert forall|d: TurfCoords| turf_key(d) == turf_key(coords) implies d == coords by {
                lemma_key_injective(coords, d);
            }
            assert(self@ =~= old(self)@.insert(coords, nav_pass));
        }
    }

    /// Publishes the value of one turf, or tells which of the four values is no number.
    pub fn update(
        &mut self,
        x: Option<i32>,
        y: Option<i32>,
        z: Option<i32>,
        nav_pass: Option<i32>,
    ) -> (r: Result<(), usize>)
        ensures
            final(self)@ == published(old(self)@, seq![x, y, z, nav_pass], 1).0,
            match published(old(self)@, seq![x, y, z, nav_pass], 1).1 {
                None => r is Ok,
                Some(i) => r matches Err(j) && j == i,
            },
    {
        proof {
            let all = seq![x, y, z, nav_pass];
            reveal_with_fuel(published, 2);
            assert(all.subrange(0, 4) =~= all);
            assert(all.drop_last() =~= seq![x, y, z]);
        }
        let coords: TurfCoords = coords_from_values(x, y, z)?;
        match nav_pass {
            None => Err(3),
            Some(value) => {
                self.cache_nav_pass(coords, value);
                Ok(())
            },
        }
    }

    /// Publishes groups of `x, y, z, value`. A value that is no number ends the update; the
    /// groups before it stay published.
    pub fn bulk_update(&mut self, values: &Vec<Option<i32>>) -> (r: Result<(), BulkUpdateError>)
        ensures
            values@.len() % 4 != 0 ==> {
                &&& final(self)@ == old(self)@
                &&& r == Err::<(), BulkUpdateError>(
                    BulkUpdateError::Rejected(NavPathError::InvalidBulkUpdateLength),
                )
            },
            values@.len() % 4 == 0 ==> {
                &&& final(self)@ == published(old(self)@, values@, values@.len() / 4).0
                &&& match published(old(self)@, values@, values@.len() / 4).1 {
                    None => r is Ok,
                    Some(i) => r matches Err(BulkUpdateError::NotANumber(j)) && j == i,
                }
            },
            final(self)@ == bulk_published(old(self)@, values@),
    {
        if values.len() % 4 != 0 {
            return Err(BulkUpdateError::Rejected(NavPathError::InvalidBulkUpdateLength));
        }
        let len: usize = values.len();
        let groups: usize = len / 4;
        let mut n: usize = 0;
        while n < groups
            invariant
                n <= groups,
                len == values@.len(),
                groups == len / 4,
                values@.len() % 4 == 0,
                published(old(self)@, values@, n as nat) == (self@, None::<int>),
            decreases groups - n,
        {
            let at: usize = 4 * n;
            let ghost group = values@.subrange(at as int, at + 4);
            proof {
                assert(group =~= seq![
                    values@[at as int],
                    values@[at + 1],
                    values@[at + 2],
                    values@[at + 3],
                ]);
                reveal_with_fuel(published, 2);
                assert(group.subrange(0, 4) =~= group);
            }
            match self.update(values[at], values[at + 1], values[at + 2], values[at + 3]) {
                Ok(()) => {},
                Err(i) => {
                    proof {
                        assert(published(old(self)@, values@, (n + 1) as nat).1 == Some(at + i));
                        lemma_update_ended(old(self)@, values@, (n + 1) as nat, groups as nat);
                        lemma_missing_bound(group);
                    }
                    return Err(BulkUpdateError::NotANumber(at + i));
                },
            }
            n += 1;
        }
        Ok(())
    }
}

proof fn lemma_missing_bound(values: Seq<Option<i32>>)
    ensures
        first_missing(values) matches Some(i) ==> 0 <= i < values.len(),
    decreases values.len(),
{
    if values.len() > 0 {
        lemma_missing_bound(values.drop_last());
    }
}

/// An update that ended is not resumed.
proof fn lemma_update_ended(
    cache: Map<TurfCoords, i32>,
    values: Seq<Option<i32>>,
    n: nat,
    m: nat,
)
    requires
        n <= m,
        published(cache, values, n).1 is Some,
    ensures
        published(cache, values, m) == published(cache, values, n),
    decreases m,
{
    if n < m {
        lemma_update_ended(cache, values, n, (m - 1) as nat);
    }
}

/// What was published last is what is read, invalidations among it; other turfs keep their
/// values.
pub proof fn law_cache_reads_what_was_published(
    cache: Map<TurfCoords, i32>,
    coords: TurfCoords,
    nav_pass: i32,
    other: TurfCoords,
)
    ensures
        cached_value(cache.insert(coords, nav_pass), coords) == Some(nav_pass),
        other != coords ==> cached_value(cache.insert(coords, nav_pass), other) == cached_value(
            cache,
            other,
        ),
{
}

/// A bulk update of numbers alone is complete.
pub proof fn law_bulk_update_of_numbers_is_complete(
    cache: Map<TurfCoords, i32>,
    values: Seq<Option<i32>>,
    n: nat,
)
    requires
        4 * n <= values.len(),
        forall|i: int| 0 <= i < values.len() ==> #[trigger] values[i] is Some,
    ensures
        published(cache, values, n).1 is None,
    decreases n,
{
    if n > 0 {
        law_bulk_update_of_numbers_is_complete(cache, values, (n - 1) as nat);
        let group = values.subrange(4 * (n - 1), 4 * (n - 1) + 4);
        reveal_with_fuel(first_missing, 5);
        assert(first_missing(group) is None);
    }
}

} // verus!
