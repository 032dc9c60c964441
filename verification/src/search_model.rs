//! The search as a mathematical object: its state, its moves, and what it looks for.
use vstd::prelude::*;
use vstd::multiset::Multiset;
use crate::coord::{chebyshev, is_interior, range_heuristic, step_cost, Coord, TurfCoords};
use crate::grid::{
    agrees, occupancy, occupiable, successor_steps, Cells, GridRules, UnknownTurf, World,
};
use crate::path::{handed_out, legal_chain, on_level, DiagonalHandling};
use crate::queue::{is_first, QueueEntry};

verus! {

/// How long a slice of a search may run, in nanoseconds.
pub const SLICE_BUDGET: u64 = 5_000_000;

/// Where a search stands.
#[derive(Clone, Copy)]
pub enum Phase {
    /// Nothing was queued yet.
    Fresh,
    /// The next move takes a coordinate from the frontier.
    Searching,
    /// The entry was taken from the frontier, and its successors are being looked up.
    Expanding(QueueEntry),
    /// A path was found, or there is none.
    Finished,
}

/// What a search has found out so far.
#[verifier::ext_equal]
pub struct SearchState {
    /// The coordinates left to expand.
    pub frontier: Multiset<QueueEntry>,
    /// The least cost found so far of reaching a coordinate.
    pub costs: Map<Coord, u32>,
    /// The coordinate from which another one was reached at that cost.
    pub previous: Map<Coord, Coord>,
    /// The number of entries queued so far.
    pub sequence: u64,
}

/// A search: what it looks for, what it knows, and where it stands.
#[verifier::ext_equal]
pub struct JobView {
    pub rules: GridRules,
    pub cells: Cells,
    pub z: i16,
    pub pass_flags: i32,
    pub is_flying: bool,
    pub goal: Coord,
    pub min_target_distance: i32,
    pub diagonal_handling: DiagonalHandling,
    pub skip_first: bool,
    pub state: SearchState,
    pub phase: Phase,
    pub last_touched: u64,
    pub slice_started: u64,
}

/// What one move of a search leads to.
pub enum Move {
    /// The turf at the coordinate has to be resolved first.
    Resolve(Coord),
    /// The search went on.
    Advanced,
    /// The slice is used up.
    InProgress,
    /// The coordinate is within reach of the goal, and there is no cheaper way to one.
    Found(Coord),
    /// No way leads to the goal.
    NoPath,
    /// A coordinate, a cost or a count would leave the range of its type.
    OutOfRange,
}

/// A way from the start of a search to within its target distance of the goal.
pub open spec fn is_route(
    rules: GridRules,
    world: World,
    goal: Coord,
    min_target_distance: int,
    path: Seq<Coord>,
) -> bool {
    &&& path.len() > 0
    &&& path[0] == rules.start
    &&& occupiable(rules, world, rules.start)
    &&& legal_chain(rules, world, path)
    &&& chebyshev(path.last(), goal) <= min_target_distance
}

/// What the steps of a path cost together.
pub open spec fn route_cost(path: Seq<Coord>) -> int
    decreases path.len(),
{
    if path.len() <= 1 {
        0
    } else {
        route_cost(path.drop_last()) + step_cost(path[path.len() - 2], path.last())
    }
}

/// `previous` leads from `path[i + 1]` to `path[i]`.
pub open spec fn traced_leg(previous: Map<Coord, Coord>, path: Seq<Coord>, i: int) -> bool {
    previous.contains_key(path[i + 1]) && previous[path[i + 1]] == path[i]
}

/// `path` is what following `previous` back from `end` as far as it leads gives, in the
/// order from the far end to `end`.
pub open spec fn is_trace(previous: Map<Coord, Coord>, path: Seq<Coord>, end: Coord) -> bool {
    &&& path.len() > 0
    &&& path.last() == end
    &&& !previous.contains_key(path[0])
    &&& forall|i: int| 0 <= i < path.len() - 1 ==> #[trigger] traced_leg(previous, path, i)
}

impl SearchState {
    pub open spec fn empty() -> SearchState {
        SearchState {
            frontier: Multiset::empty(),
            costs: Map::empty(),
            previous: Map::empty(),
            sequence: 0,
        }
    }
}

impl JobView {
    /// The estimate of the whole way over `coord`, when reaching it costs `cost`.
    pub open spec fn estimate(self, coord: Coord, cost: int) -> int {
        cost + range_heuristic(coord, self.goal, self.min_target_distance as int)
    }

    /// Queueing `coord` at `cost` leaves every number within its type.
    pub open spec fn push_fits(self, s: SearchState, coord: Coord, cost: int) -> bool {
        self.estimate(coord, cost) <= u32::MAX && s.sequence < u64::MAX
    }

    /// The state once `coord` is queued at `cost`.
    pub open spec fn pushed(self, s: SearchState, coord: Coord, cost: int) -> SearchState {
        let sequence = (s.sequence + 1) as u64;
        SearchState {
            frontier: s.frontier.insert(
                QueueEntry {
                    coord,
                    cost: cost as u32,
                    estimate: self.estimate(coord, cost) as u32,
                    sequence,
                },
            ),
            costs: s.costs.insert(coord, cost as u32),
            previous: s.previous,
            sequence,
        }
    }

    /// Reaching `coord` at `cost` is news: it is the first way there, or a cheaper one.
    pub open spec fn improves(self, s: SearchState, coord: Coord, cost: int) -> bool {
        !s.costs.contains_key(coord) || cost < s.costs[coord]
    }

    /// The state once one successor of `current` was looked at; nothing where a number
    /// leaves its type.
    pub open spec fn relaxed(self, s: SearchState, current: QueueEntry, step: (Coord, u32)) -> Option<
        SearchState,
    > {
        let cost = current.cost + step.1;
        if cost > u32::MAX {
            None
        } else if !self.improves(s, step.0, cost) {
            Some(s)
        } else if !self.push_fits(s, step.0, cost) {
            None
        } else {
            Some(
                self.pushed(
                    SearchState { previous: s.previous.insert(step.0, current.coord), ..s },
                    step.0,
                    cost,
                ),
            )
        }
    }

    /// The state once the successors of `current` were looked at in turn, and whether all of
    /// them were: the first one at which a number would leave its type ends the search.
    pub open spec fn relaxed_all(
        self,
        s: SearchState,
        current: QueueEntry,
        steps: Seq<(Coord, u32)>,
    ) -> (SearchState, bool)
        decreases steps.len(),
    {
        if steps.len() == 0 {
            (s, true)
        } else {
            let (t, complete) = self.relaxed_all(s, current, steps.drop_last());
            if !complete {
                (t, false)
            } else {
                match self.relaxed(t, current, steps.last()) {
                    None => (t, false),
                    Some(u) => (u, true),
                }
            }
        }
    }

    /// The entry still carries the least known cost of its coordinate: no cheaper way was
    /// queued after it.
    pub open spec fn is_current(self, s: SearchState, e: QueueEntry) -> bool {
        s.costs.contains_key(e.coord) && s.costs[e.coord] == e.cost
    }

    /// The coordinate is within the target distance of the goal.
    pub open spec fn in_target(self, c: Coord) -> bool {
        chebyshev(c, self.goal) <= self.min_target_distance
    }

    /// The search ended in the state `s`.
    pub open spec fn finished(self, s: SearchState) -> JobView {
        JobView { state: s, phase: Phase::Finished, ..self }
    }

    /// The move that expands `e`, once it was taken from the frontier of `s`.
    pub open spec fn expand(self, s: SearchState, e: QueueEntry) -> (JobView, Move) {
        if !is_interior(e.coord) {
            (self.finished(s), Move::OutOfRange)
        } else {
            match successor_steps(self.rules, self.cells, e.coord) {
                Err(unknown) => (
                    JobView { state: s, phase: Phase::Expanding(e), ..self },
                    Move::Resolve(unknown.coord),
                ),
                Ok(steps) => {
                    let (t, complete) = self.relaxed_all(s, e, steps);
                    if complete {
                        (JobView { state: t, phase: Phase::Searching, ..self }, Move::Advanced)
                    } else {
                        (self.finished(t), Move::OutOfRange)
                    }
                },
            }
        }
    }

    /// The entry that leaves the frontier next.
    pub open spec fn next_entry(s: SearchState) -> QueueEntry {
        choose|e: QueueEntry| is_first(s.frontier, e)
    }

    /// The move that takes the next entry from the frontier of `s`.
    pub open spec fn take_next(self, s: SearchState, now: u64) -> (JobView, Move) {
        if now - self.slice_started >= SLICE_BUDGET {
            (JobView { state: s, phase: Phase::Searching, ..self }, Move::InProgress)
        } else if s.frontier.len() == 0 {
            (self.finished(s), Move::NoPath)
        } else {
            let e = Self::next_entry(s);
            let t = SearchState { frontier: s.frontier.remove(e), ..s };
            if !self.is_current(t, e) {
                (JobView { state: t, phase: Phase::Searching, ..self }, Move::Advanced)
            } else if self.in_target(e.coord) {
                (self.finished(t), Move::Found(e.coord))
            } else {
                self.expand(t, e)
            }
        }
    }

    /// One move, at time `now`, of a search that has not finished.
    pub open spec fn step(self, now: u64) -> (JobView, Move) {
        match self.phase {
            Phase::Fresh => match occupancy(self.rules, self.cells, self.rules.start) {
                Err(unknown) => (self, Move::Resolve(unknown.coord)),
                Ok(false) => (self.finished(self.state), Move::NoPath),
                Ok(true) => if self.push_fits(self.state, self.rules.start, 0) {
                    self.take_next(self.pushed(self.state, self.rules.start, 0), now)
                } else {
                    (self.finished(self.state), Move::OutOfRange)
                },
            },
            Phase::Searching => self.take_next(self.state, now),
            Phase::Expanding(e) => self.expand(self.state, e),
            Phase::Finished => (self, Move::NoPath),
        }
    }

    /// The turfs that a path is handed out as, in order; none where a diagonal that has to be
    /// replaced has no open way around its corner.
    pub open spec fn turfs_handed_out(self, nodes: Seq<Coord>) -> Result<
        Seq<TurfCoords>,
        UnknownTurf,
    > {
        match handed_out(
            self.rules,
            self.cells,
            self.diagonal_handling,
            self.skip_first,
            nodes,
        ) {
            Err(e) => Err(e),
            Ok(None) => Ok(Seq::empty()),
            Ok(Some(path)) => Ok(on_level(path, self.z)),
        }
    }

    /// The search once the turf at `coord` is known.
    pub open spec fn resolved(self, coord: Coord, entry: Option<crate::grid::TurfInfo>) -> JobView {
        if self.cells.contains_key(coord) {
            self
        } else {
            JobView { cells: self.cells.insert(coord, entry), ..self }
        }
    }

    /// `path` is a route on every map that the turfs seen so far can be part of, and no
    /// route on such a map is cheaper.
    pub open spec fn is_best_route(self, path: Seq<Coord>) -> bool {
        forall|world: World| #[trigger]
            agrees(self.cells, world) ==> {
                &&& is_route(self.rules, world, self.goal, self.min_target_distance as int, path)
                &&& forall|other: Seq<Coord>| #[trigger]
                    is_route(
                        self.rules,
                        world,
                        self.goal,
                        self.min_target_distance as int,
                        other,
                    ) ==> route_cost(path) <= route_cost(other)
            }
    }

    /// No map that the turfs seen so far can be part of has a route.
    pub open spec fn has_no_route(self) -> bool {
        forall|world: World, path: Seq<Coord>|
            #[trigger] agrees(self.cells, world) ==> !#[trigger] is_route(
                self.rules,
                world,
                self.goal,
                self.min_target_distance as int,
                path,
            )
    }

    /// The entry waits for its expansion, in the frontier or as the one taken out last.
    pub open spec fn queued(self, taken: Option<QueueEntry>, e: QueueEntry) -> bool {
        self.state.frontier.contains(e) || taken == Some(e)
    }

    /// The entry was queued by this search.
    pub open spec fn entry_ok(self, e: QueueEntry) -> bool {
        &&& e.estimate == self.estimate(e.coord, e.cost as int)
        &&& self.state.costs.contains_key(e.coord)
        &&& self.state.costs[e.coord] <= e.cost
        &&& e.sequence <= self.state.sequence
    }

    /// The coordinate waits for its expansion at its least known cost.
    pub open spec fn is_open(self, taken: Option<QueueEntry>, c: Coord) -> bool {
        exists|e: QueueEntry| #[trigger]
            self.queued(taken, e) && e.coord == c && e.cost == self.state.costs[c]
    }

    /// Going over `c` is no news for any of its successors.
    pub open spec fn no_news_over(self, c: Coord, steps: Seq<(Coord, u32)>, n: int) -> bool {
        forall|j: int|
            #![trigger steps[j]]
            0 <= j < n ==> self.state.costs.contains_key(steps[j].0)
                && self.state.costs[steps[j].0] <= self.state.costs[c] + steps[j].1
    }

    /// The coordinate was expanded at its least known cost, and is not a target.
    pub open spec fn is_closed(self, c: Coord) -> bool {
        &&& is_interior(c)
        &&& !self.in_target(c)
        &&& successor_steps(self.rules, self.cells, c) matches Ok(steps) && self.no_news_over(
            c,
            steps,
            steps.len() as int,
        )
    }

    /// `c` was reached by a known step from the coordinate that `previous` names.
    pub open spec fn is_linked(self, c: Coord) -> bool {
        let p = self.state.previous[c];
        &&& self.state.costs.contains_key(c)
        &&& self.state.costs.contains_key(p)
        &&& is_interior(p)
        &&& successor_steps(self.rules, self.cells, p) matches Ok(steps) && steps.contains(
            (c, step_cost(p, c) as u32),
        )
        &&& self.state.costs[p] + step_cost(p, c) <= self.state.costs[c]
    }

    pub open spec fn inv_start(self) -> bool {
        &&& self.state.costs.contains_key(self.rules.start)
        &&& self.state.costs[self.rules.start] == 0
        &&& !self.state.previous.contains_key(self.rules.start)
    }

    pub open spec fn inv_occupied(self) -> bool {
        forall|c: Coord| #[trigger]
            self.state.costs.contains_key(c) ==> occupancy(self.rules, self.cells, c) == Ok::<
                bool,
                UnknownTurf,
            >(true)
    }

    pub open spec fn inv_linked(self) -> bool {
        &&& forall|c: Coord| #[trigger]
            self.state.previous.contains_key(c) ==> self.is_linked(c)
        &&& forall|c: Coord| #[trigger]
            self.state.costs.contains_key(c) && c != self.rules.start
                ==> self.state.previous.contains_key(c)
    }

    pub open spec fn inv_open_or_closed(self, taken: Option<QueueEntry>) -> bool {
        forall|c: Coord| #[trigger]
            self.state.costs.contains_key(c) ==> self.is_open(taken, c) || self.is_closed(c)
    }

    pub open spec fn inv_entries(self, taken: Option<QueueEntry>) -> bool {
        &&& forall|e: QueueEntry| #[trigger] self.queued(taken, e) ==> self.entry_ok(e)
        &&& forall|e: QueueEntry|
            #![trigger self.state.frontier.count(e)]
            self.state.frontier.count(e) <= 1
        &&& forall|e: QueueEntry, f: QueueEntry|
            #[trigger] self.state.frontier.contains(e) && #[trigger] self.state.frontier.contains(f)
                && e.sequence == f.sequence ==> e == f
    }

    /// What holds of a search between two moves, when `taken` was taken from the frontier
    /// and is not expanded yet.
    pub open spec fn inv_search(self, taken: Option<QueueEntry>) -> bool {
        &&& self.inv_start()
        &&& self.inv_occupied()
        &&& self.inv_linked()
        &&& self.inv_open_or_closed(taken)
        &&& self.inv_entries(taken)
    }

    /// What holds of a search between two moves.
    pub open spec fn inv(self) -> bool {
        match self.phase {
            Phase::Fresh => self.state == SearchState::empty(),
            Phase::Searching => self.inv_search(None),
            Phase::Expanding(e) => self.inv_search(Some(e)) && self.is_current(self.state, e)
                && !self.in_target(e.coord),
            Phase::Finished => true,
        }
    }
}

} // verus!
