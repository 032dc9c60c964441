//! A hash map keyed by coordinates.
use vstd::prelude::*;
use std::collections::HashMap;
use crate::coord::Coord;

verus! {

/// The key under which a coordinate is stored.
pub open spec fn coord_key(c: Coord) -> u32 {
    ((c.0 + 32768) * 65536 + (c.1 + 32768)) as u32
}

fn key_of(c: Coord) -> (k: u32)
    ensures
        k == coord_key(c),
{
    let x: u32 = (c.0 as i32 + 32768) as u32;
    let y: u32 = (c.1 as i32 + 32768) as u32;
    x * 65536 + y
}

/// Different coordinates have different keys.
proof fn lemma_key_injective(a: Coord, b: Coord)
    ensures
        coord_key(a) == coord_key(b) ==> a == b,
{
}

/// A map from coordinates to values.
pub struct CoordMap<V> {
    entries: HashMap<u32, V>,
}

impl<V> View for CoordMap<V> {
    type V = Map<Coord, V>;

    closed spec fn view(&self) -> Map<Coord, V> {
        Map::new(
            |c: Coord| self.entries@.contains_key(coord_key(c)),
            |c: Coord| self.entries@[coord_key(c)],
        )
    }
}

impl<V> CoordMap<V> {
    pub fn new() -> (m: Self)
        ensures
            m@ == Map::<Coord, V>::empty(),
    {
        broadcast use vstd::std_specs::hash::group_hash_axioms;

        let m = CoordMap { entries: HashMap::new() };
        assert(m@ =~= Map::<Coord, V>::empty());
        m
    }

    pub fn get(&self, c: Coord) -> (r: Option<&V>)
        ensures
            match r {
                Some(v) => self@.contains_key(c) && *v == self@[c],
                None => !self@.contains_key(c),
            },
    {
        broadcast use vstd::std_specs::hash::group_hash_axioms;

        self.entries.get(&key_of(c))
    }

    pub fn insert(&mut self, c: Coord, v: V)
        ensures
            final(self)@ == old(self)@.insert(c, v),
    {
        broadcast use vstd::std_specs::hash::group_hash_axioms;

        self.entries.insert(key_of(c), v);
        proof {
            assert forall|d: Coord| coord_key(d) == coord_key(c) implies d == c by {
                lemma_key_injective(c, d);
            }
            assert(self@ =~= old(self)@.insert(c, v));
        }
    }
}

} // verus!
