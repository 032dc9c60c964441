//! The frontier of a search: a priority queue of the coordinates left to expand.
use vstd::prelude::*;
use vstd::multiset::Multiset;
use vstd::std_specs::cmp::{PartialEqSpec, PartialOrdSpec};
use core::cmp::Ordering;
use crate::coord::Coord;

verus! {

/// A coordinate that waits for its expansion.
#[derive(Clone, Copy, Debug)]
pub struct QueueEntry {
    pub coord: Coord,
    /// The cost of the way from the start.
    pub cost: u32,
    /// The cost, plus the estimate of the rest of the way.
    pub estimate: u32,
    /// The number of the push that queued the entry.
    pub sequence: u64,
}

/// `a` leaves the queue before `b`: it has the lower estimate; on a tie the lower
/// cost; on a tie of both it was pushed earlier.
pub open spec fn precedes(a: QueueEntry, b: QueueEntry) -> bool {
    a.estimate < b.estimate || (a.estimate == b.estimate && (a.cost < b.cost || (a.cost == b.cost
        && a.sequence < b.sequence)))
}

/// The entry is in the queue, and no entry of the queue leaves before it.
pub open spec fn is_first(queue: Multiset<QueueEntry>, e: QueueEntry) -> bool {
    queue.contains(e) && forall|o: QueueEntry| #[trigger] queue.contains(o) ==> !precedes(o, e)
}

/// How a queue entry compares: the greater entry leaves the queue first.
pub open spec fn entry_order(a: QueueEntry, b: QueueEntry) -> Ordering {
    if precedes(a, b) {
        Ordering::Greater
    } else if precedes(b, a) {
        Ordering::Less
    } else {
        Ordering::Equal
    }
}

impl QueueEntry {
    /// The greater entry is the one that leaves the queue first.
    pub fn cmp(&self, other: &Self) -> (r: Ordering)
        ensures
            r == entry_order(*self, *other),
    {
        if self.estimate != other.estimate {
            if self.estimate < other.estimate {
                Ordering::Greater
            } else {
                Ordering::Less
            }
        } else if self.cost != other.cost {
            if self.cost < other.cost {
                Ordering::Greater
            } else {
                Ordering::Less
            }
        } else if self.sequence != other.sequence {
            if self.sequence < other.sequence {
                Ordering::Greater
            } else {
                Ordering::Less
            }
        } else {
            Ordering::Equal
        }
    }
}

impl PartialEq for QueueEntry {
    fn eq(&self, other: &Self) -> (r: bool) {
        self.coord.0 == other.coord.0 && self.coord.1 == other.coord.1 && self.cost == other.cost
            && self.estimate == other.estimate && self.sequence == other.sequence
    }
}

impl Eq for QueueEntry {

}

impl vstd::std_specs::cmp::PartialEqSpecImpl for QueueEntry {
    open spec fn obeys_eq_spec() -> bool {
        true
    }

    open spec fn eq_spec(&self, other: &Self) -> bool {
        *self == *other
    }
}

impl PartialOrd for QueueEntry {
    fn partial_cmp(&self, other: &Self) -> (r: Option<Ordering>) {
        Some(QueueEntry::cmp(self, other))
    }
}

impl vstd::std_specs::cmp::PartialOrdSpecImpl for QueueEntry {
    open spec fn obeys_partial_cmp_spec() -> bool {
        true
    }

    open spec fn partial_cmp_spec(&self, other: &Self) -> Option<Ordering> {
        Some(entry_order(*self, *other))
    }
}

fn before(a: &QueueEntry, b: &QueueEntry) -> (r: bool)
    ensures
        r == precedes(*a, *b),
{
    match a.cmp(b) {
        Ordering::Greater => true,
        _ => false,
    }
}

/// A binary heap of queue entries.
pub struct Frontier {
    entries: Vec<QueueEntry>,
}

/// The position above `i` in the heap.
spec fn parent(i: int) -> int {
    (i - 1) / 2
}

/// No entry precedes its parent, except that the entry at `hole` may.
spec fn heap_except_up(s: Seq<QueueEntry>, hole: int) -> bool {
    &&& forall|i: int|
        #![trigger s[i]]
        0 < i < s.len() && i != hole ==> !precedes(s[i], s[parent(i)])
    &&& forall|i: int|
        #![trigger s[i]]
        0 < i < s.len() && parent(i) == hole && hole > 0 ==> !precedes(s[i], s[parent(hole)])
}

/// No entry precedes its parent, except that the children of `hole` may.
spec fn heap_except_down(s: Seq<QueueEntry>, hole: int) -> bool {
    &&& forall|i: int|
        #![trigger s[i]]
        0 < i < s.len() && parent(i) != hole ==> !precedes(s[i], s[parent(i)])
    &&& forall|i: int|
        #![trigger s[i]]
        0 < i < s.len() && parent(i) == hole && hole > 0 ==> !precedes(s[i], s[parent(hole)])
}

spec fn is_heap(s: Seq<QueueEntry>) -> bool {
    forall|i: int| #![trigger s[i]] 0 < i < s.len() ==> !precedes(s[i], s[parent(i)])
}

/// No entry of a heap precedes its root.
proof fn lemma_root_is_first(s: Seq<QueueEntry>, i: int)
    requires
        is_heap(s),
        0 <= i < s.len(),
    ensures
        !precedes(s[i], s[0]),
    decreases i,
{
    if i > 0 {
        lemma_root_is_first(s, parent(i));
    }
}

/// Swapping two positions keeps the contents.
proof fn lemma_swap_keeps_contents(s: Seq<QueueEntry>, i: int, j: int)
    requires
        0 <= i < s.len(),
        0 <= j < s.len(),
        i != j,
    ensures
        s.update(i, s[j]).update(j, s[i]).to_multiset() =~= s.to_multiset(),
{
    broadcast use vstd::seq_lib::group_to_multiset_ensures;

    let t = s.update(i, s[j]);
    assert(t[j] == s[j]);
    vstd::seq_lib::to_multiset_update(s, i, s[j]);
    vstd::seq_lib::to_multiset_update(t, j, s[i]);
    assert(s.to_multiset().count(s[i]) > 0);
}

fn swap(v: &mut Vec<QueueEntry>, i: usize, j: usize)
    requires
        i < old(v).len(),
        j < old(v).len(),
        i != j,
    ensures
        final(v)@ == old(v)@.update(i as int, old(v)@[j as int]).update(j as int, old(v)@[i as int]),
        final(v)@.to_multiset() == old(v)@.to_multiset(),
{
    let a: QueueEntry = v[i];
    let b: QueueEntry = v[j];
    v[i] = b;
    v[j] = a;
    proof {
        lemma_swap_keeps_contents(old(v)@, i as int, j as int);
    }
}

fn sift_up(v: &mut Vec<QueueEntry>, start: usize)
    requires
        start < old(v).len(),
        heap_except_up(old(v)@, start as int),
    ensures
        is_heap(final(v)@),
        final(v)@.to_multiset() == old(v)@.to_multiset(),
{
    let mut hole: usize = start;
    while hole > 0
        invariant
            hole < v.len(),
            heap_except_up(v@, hole as int),
            v@.to_multiset() == old(v)@.to_multiset(),
        ensures
            is_heap(v@),
            v@.to_multiset() == old(v)@.to_multiset(),
        decreases hole,
    {
        let up: usize = (hole - 1) / 2;
        if !before(&v[hole], &v[up]) {
            break;
        }
        swap(v, hole, up);
        hole = up;
    }
}

fn sift_down(v: &mut Vec<QueueEntry>)
    requires
        old(v).len() > 0,
        heap_except_down(old(v)@, 0),
    ensures
        is_heap(final(v)@),
        final(v)@.to_multiset() == old(v)@.to_multiset(),
{
    let mut hole: usize = 0;
    loop
        invariant
            hole < v.len(),
            heap_except_down(v@, hole as int),
            v@.to_multiset() == old(v)@.to_multiset(),
        ensures
            is_heap(v@),
            v@.to_multiset() == old(v)@.to_multiset(),
        decreases v.len() - hole,
    {
        if hole >= v.len() / 2 {
            break;
        }
        let left: usize = 2 * hole + 1;
        let mut child: usize = left;
        if left + 1 < v.len() && before(&v[left + 1], &v[left]) {
            child = left + 1;
        }
        if !before(&v[child], &v[hole]) {
            break;
        }
        swap(v, hole, child);
        hole = child;
    }
}

impl View for Frontier {
    type V = Multiset<QueueEntry>;

    closed spec fn view(&self) -> Multiset<QueueEntry> {
        self.entries@.to_multiset()
    }
}

impl Frontier {
    pub closed spec fn wf(&self) -> bool {
        is_heap(self.entries@)
    }

    pub fn new() -> (f: Self)
        ensures
            f.wf(),
            f@ == Multiset::<QueueEntry>::empty(),
    {
        let f = Frontier { entries: Vec::new() };
        proof {
            broadcast use vstd::seq_lib::group_to_multiset_ensures;

            assert(f.entries@.to_multiset().len() == 0);
            assert(f@ =~= Multiset::<QueueEntry>::empty());
        }
        f
    }

    pub fn push(&mut self, e: QueueEntry)
        requires
            old(self).wf(),
        ensures
            final(self).wf(),
            final(self)@ == old(self)@.insert(e),
    {
        broadcast use vstd::seq_lib::group_to_multiset_ensures;

        self.entries.push(e);
        let last: usize = self.entries.len() - 1;
        sift_up(&mut self.entries, last);
    }

    /// Takes out an entry that no other entry precedes.
    pub fn pop(&mut self) -> (r: Option<QueueEntry>)
        requires
            old(self).wf(),
        ensures
            final(self).wf(),
            match r {
                Some(e) => is_first(old(self)@, e) && final(self)@ == old(self)@.remove(e),
                None => old(self)@ == Multiset::<QueueEntry>::empty() && final(self)@ == old(self)@,
            },
    {
        broadcast use vstd::seq_lib::group_to_multiset_ensures;

        let ghost before_pop = self.entries@;
        if self.entries.len() == 0 {
            proof {
                assert(self@ =~= Multiset::<QueueEntry>::empty());
            }
            return None;
        }
        let first: QueueEntry = self.entries[0];
        proof {
            assert forall|o: QueueEntry| #[trigger] self@.contains(o) implies !precedes(o, first) by {
                let i = choose|i: int| 0 <= i < before_pop.len() && before_pop[i] == o;
                lemma_root_is_first(before_pop, i);
            }
            assert(self@.contains(first)) by {
                assert(before_pop.contains(before_pop[0]));
            }
        }
        let last: QueueEntry = match self.entries.pop() {
            Some(e) => e,
            None => first,
        };
        proof {
            assert(self.entries@.push(last) =~= before_pop);
            vstd::seq_lib::to_multiset_remove(before_pop, before_pop.len() - 1);
            assert(before_pop.remove(before_pop.len() - 1) =~= self.entries@);
        }
        if self.entries.len() > 0 {
            let ghost shortened = self.entries@;
            self.entries[0] = last;
            proof {
                vstd::seq_lib::to_multiset_update(shortened, 0, last);
                assert(before_pop.to_multiset() == shortened.to_multiset().insert(last));
                assert(self.entries@.to_multiset() =~= before_pop.to_multiset().remove(first));
            }
            sift_down(&mut self.entries);
        } else {
            proof {
                assert(self@ =~= before_pop.to_multiset().remove(first));
            }
        }
        Some(first)
    }
}

/// Of two different entries with different sequence numbers, one precedes the other.
pub proof fn law_queue_order_total(a: QueueEntry, b: QueueEntry)
    requires
        a.sequence != b.sequence,
    ensures
        precedes(a, b) != precedes(b, a),
{
}

/// The order of the queue is transitive, and no entry precedes itself.
pub proof fn law_queue_order_strict(a: QueueEntry, b: QueueEntry, c: QueueEntry)
    ensures
        !precedes(a, a),
        precedes(a, b) && precedes(b, c) ==> precedes(a, c),
{
}

/// The greater entry is the one with the lower estimate, then the lower cost, then the one that
/// was queued earlier; entries that agree in all three are equal.
pub proof fn law_greater_entry_leaves_first(a: QueueEntry, b: QueueEntry)
    ensures
        entry_order(a, b) is Greater <==> entry_order(b, a) is Less,
        a.estimate < b.estimate ==> entry_order(a, b) is Greater,
        a.estimate == b.estimate && a.cost < b.cost ==> entry_order(a, b) is Greater,
        a.estimate == b.estimate && a.cost == b.cost && a.sequence < b.sequence ==> entry_order(
            a,
            b,
        ) is Greater,
        a.estimate == b.estimate && a.cost == b.cost && a.sequence == b.sequence ==> entry_order(
            a,
            b,
        ) is Equal,
{
}

/// Entries are equal exactly if they agree in everything, and compare as the order says.
pub proof fn law_entries_are_equal_in_everything(a: QueueEntry, b: QueueEntry)
    ensures
        a.eq_spec(&b) <==> a.coord.0 == b.coord.0 && a.coord.1 == b.coord.1 && a.cost == b.cost
            && a.estimate == b.estimate && a.sequence == b.sequence,
        a.partial_cmp_spec(&b) == Some(entry_order(a, b)),
{
}

} // verus!
