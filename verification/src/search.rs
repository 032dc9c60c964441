//! A search that can be run in slices.
use vstd::prelude::*;
use crate::coord::{
    chebyshev_distance, heuristic_to_target_range, interior, is_interior, wide_heuristic, Coord, TurfCoords,
};
use crate::coord_map::CoordMap;
use crate::grid::{routes, successor_steps, DiagonalRoutes, Grid, TurfInfo, UnknownTurf};
use crate::path::{
    apply_skip_first, bends, expand_diagonals_checked, expanded, handed_out,
    lemma_known_expansion_prefix, lemma_told_expansion, routes_known, told_routes_checked,
    turfs_on_level, DiagonalHandling,
};
use crate::queue::{Frontier, QueueEntry};
use crate::search_laws::{
    law_empty_frontier_means_no_route, law_forbidden_start_means_no_route, law_found_route_is_best,
    law_trace_knows_routes, lemma_expand_ignores_time, lemma_expanded, lemma_next_entry,
    lemma_relaxed, lemma_resolved, lemma_same_knowledge, lemma_start, lemma_take_next_ignores_time,
    lemma_taken,
};
use crate::search_model::{is_trace, traced_leg, JobView, Move, Phase, SearchState, SLICE_BUDGET};
use crate::search_runs::resumed;

verus! {

/// What one move of a search leads to.
pub enum JobProgress {
    /// The turf at the coordinate has to be resolved and recorded before the next move.
    Resolve(Coord),
    /// The search went on.
    Advanced,
    /// The slice is used up.
    InProgress,
    /// The nodes of a best route, from the start on.
    Found(Vec<Coord>),
    /// No way leads to the goal.
    NoPath,
    /// A coordinate, a cost or a count would leave the range of its type.
    OutOfRange,
}

impl JobProgress {
    pub open spec fn as_move(&self) -> Move {
        match *self {
            JobProgress::Resolve(c) => Move::Resolve(c),
            JobProgress::Advanced => Move::Advanced,
            JobProgress::InProgress => Move::InProgress,
            JobProgress::Found(path) => Move::Found(path@.last()),
            JobProgress::NoPath => Move::NoPath,
            JobProgress::OutOfRange => Move::OutOfRange,
        }
    }
}

/// One search, between its slices.
pub struct SearchJob {
    grid: Grid,
    goal: Coord,
    min_target_distance: i32,
    diagonal_handling: DiagonalHandling,
    skip_first: bool,
    frontier: Frontier,
    costs: CoordMap<u32>,
    previous: CoordMap<Coord>,
    phase: Phase,
    sequence: u64,
    last_touched: u64,
    slice_started: u64,
}

impl View for SearchJob {
    type V = JobView;

    closed spec fn view(&self) -> JobView {
        JobView {
            rules: self.grid.rules(),
            cells: self.grid.cells(),
            z: self.grid.z,
            pass_flags: self.grid.pass_flags,
            is_flying: self.grid.is_flying,
            goal: self.goal,
            min_target_distance: self.min_target_distance,
            diagonal_handling: self.diagonal_handling,
            skip_first: self.skip_first,
            state: SearchState {
                frontier: self.frontier@,
                costs: self.costs@,
                previous: self.previous@,
                sequence: self.sequence,
            },
            phase: self.phase,
            last_touched: self.last_touched,
            slice_started: self.slice_started,
        }
    }
}

/// The elements in the opposite order.
fn reversed(path: Vec<Coord>) -> (out: Vec<Coord>)
    ensures
        out@ == path@.reverse(),
{
    let mut out: Vec<Coord> = Vec::with_capacity(path.len());
    let mut i: usize = path.len();
    while i > 0
        invariant
            i <= path@.len(),
            out@.len() == path@.len() - i,
            forall|j: int| 0 <= j < out@.len() ==> #[trigger] out@[j] == path@[path@.len() - 1 - j],
        decreases i,
    {
        i -= 1;
        out.push(path[i]);
    }
    assert(out@ =~= path@.reverse());
    out
}

impl SearchJob {
    /// The frontier is in the order of a heap.
    pub closed spec fn frontier_in_order(&self) -> bool {
        self.frontier.wf()
    }

    /// The frontier is in order, and the search has kept its promises so far.
    pub open spec fn wf(&self) -> bool {
        self.frontier_in_order() && self@.inv()
    }

    pub fn new(
        grid: Grid,
        goal: Coord,
        min_target_distance: i32,
        diagonal_handling: DiagonalHandling,
        skip_first: bool,
        now: u64,
    ) -> (job: Self)
        ensures
            job.wf(),
            job@ == (JobView {
                rules: grid.rules(),
                cells: grid.cells(),
                z: grid.z,
                pass_flags: grid.pass_flags,
                is_flying: grid.is_flying,
                goal,
                min_target_distance,
                diagonal_handling,
                skip_first,
                state: SearchState::empty(),
                phase: Phase::Fresh,
                last_touched: now,
                slice_started: now,
            }),
    {
        let job = SearchJob {
            grid,
            goal,
            min_target_distance,
            diagonal_handling,
            skip_first,
            frontier: Frontier::new(),
            costs: CoordMap::new(),
            previous: CoordMap::new(),
            phase: Phase::Fresh,
            sequence: 0,
            last_touched: now,
            slice_started: now,
        };
        assert(job@.state =~= SearchState::empty());
        job
    }

    /// When the search was last worked on.
    pub fn last_touched(&self) -> (t: u64)
        ensures
            t == self@.last_touched,
    {
        self.last_touched
    }

    /// The z-level of the search.
    pub fn z(&self) -> (z: i16)
        ensures
            z == self@.z,
    {
        self.grid.z
    }

    /// The flags that numeric blockers are held against.
    pub fn pass_flags(&self) -> (f: i32)
        ensures
            f == self@.pass_flags,
    {
        self.grid.pass_flags
    }

    /// Whether the search is for a flyer.
    pub fn is_flying(&self) -> (f: bool)
        ensures
            f == self@.is_flying,
    {
        self.grid.is_flying
    }

    /// Whether the search is over.
    pub fn is_finished(&self) -> (f: bool)
        ensures
            f == (self@.phase is Finished),
    {
        match self.phase {
            Phase::Finished => true,
            _ => false,
        }
    }

    /// Starts a slice at time `now`.
    pub fn begin_slice(&mut self, now: u64)
        requires
            old(self).wf(),
        ensures
            final(self).wf(),
            final(self)@ == (JobView { last_touched: now, slice_started: now, ..old(self)@ }),
            final(self)@ == resumed(old(self)@, now),
    {
        self.last_touched = now;
        self.slice_started = now;
        proof {
            match old(self)@.phase {
                Phase::Searching => lemma_same_knowledge(old(self)@, self@, None),
                Phase::Expanding(e) => lemma_same_knowledge(old(self)@, self@, Some(e)),
                _ => {},
            }
        }
    }

    /// Records the state of a turf that the search asked for.
    pub fn record(&mut self, coord: Coord, entry: Option<TurfInfo>)
        requires
            old(self).wf(),
        ensures
            final(self).wf(),
            final(self)@ == old(self)@.resolved(coord, entry),
    {
        self.grid.record(coord, entry);
        proof {
            assert(self@ =~= old(self)@.resolved(coord, entry));
            assert(old(self)@.cells.submap_of(self@.cells));
            match old(self)@.phase {
                Phase::Searching => lemma_resolved(old(self)@, self@, None),
                Phase::Expanding(e) => lemma_resolved(old(self)@, self@, Some(e)),
                _ => {},
            }
        }
    }

    /// Whether queueing `coord` at `cost` leaves every number within its type.
    fn can_push(&self, coord: Coord, cost: u32) -> (r: bool)
        ensures
            r == self@.push_fits(self@.state, coord, cost as int),
    {
        let estimate: u64 = cost as u64 + wide_heuristic(coord, self.goal, self.min_target_distance);
        estimate <= 0xffff_ffff && self.sequence < 0xffff_ffff_ffff_ffff
    }

    fn push(&mut self, coord: Coord, cost: u32)
        requires
            old(self).frontier.wf(),
            old(self)@.push_fits(old(self)@.state, coord, cost as int),
        ensures
            final(self).frontier.wf(),
            final(self)@ == (JobView {
                state: old(self)@.pushed(old(self)@.state, coord, cost as int),
                ..old(self)@
            }),
    {
        let estimate: u32 = cost + heuristic_to_target_range(
            coord,
            self.goal,
            self.min_target_distance,
        );
        self.costs.insert(coord, cost);
        self.sequence = self.sequence + 1;
        let sequence: u64 = self.sequence;
        self.frontier.push(QueueEntry { coord, cost, estimate, sequence });
        assert(self@ =~= JobView {
            state: old(self)@.pushed(old(self)@.state, coord, cost as int),
            ..old(self)@
        });
    }

    /// The way on record from the start to `goal`.
    fn reconstruct(&self, goal: Coord) -> (path: Vec<Coord>)
        requires
            self@.inv_linked(),
            self@.state.costs.contains_key(goal),
        ensures
            is_trace(self@.state.previous, path@, goal),
    {
        let mut back: Vec<Coord> = Vec::new();
        back.push(goal);
        let mut at: Coord = goal;
        let ghost previous = self@.state.previous;
        loop
            invariant
                self@.inv_linked(),
                previous == self@.state.previous,
                self@.state.costs.contains_key(at),
                back@.len() > 0,
                back@[0] == goal,
                back@.last() == at,
                forall|i: int|
                    0 <= i < back@.len() - 1 ==> previous.contains_key(#[trigger] back@[i])
                        && previous[back@[i]] == back@[i + 1],
            ensures
                !previous.contains_key(at),
                back@.len() > 0,
                back@[0] == goal,
                back@.last() == at,
                forall|i: int|
                    0 <= i < back@.len() - 1 ==> previous.contains_key(#[trigger] back@[i])
                        && previous[back@[i]] == back@[i + 1],
            decreases self@.state.costs[at],
        {
            match self.previous.get(at) {
                Some(p) => {
                    let ghost before = back@;
                    assert(self@.is_linked(at));
                    back.push(*p);
                    at = *p;
                    proof {
                        assert forall|i: int|
                            0 <= i < back@.len() - 1 implies previous.contains_key(
                            #[trigger] back@[i],
                        ) && previous[back@[i]] == back@[i + 1] by {
                            assert(back@[i] == before[i]);
                        }
                    }
                },
                None => {
                    break;
                },
            }
        }
        let ghost backwards = back@;
        let path: Vec<Coord> = reversed(back);
        proof {
            assert forall|i: int| 0 <= i < path@.len() - 1 implies #[trigger] traced_leg(
                previous,
                path@,
                i,
            ) by {
                let k = backwards.len() - 2 - i;
                assert(path@[i + 1] == backwards[k]);
                assert(path@[i] == backwards[k + 1]);
            }
        }
        path
    }

    /// Looks at the successors of an entry that was taken from the frontier.
    fn relax(&mut self, e: QueueEntry, steps: &Vec<(Coord, u32)>) -> (complete: bool)
        requires
            old(self).frontier.wf(),
            old(self)@.inv_search(Some(e)),
            old(self)@.is_current(old(self)@.state, e),
            !old(self)@.in_target(e.coord),
            is_interior(e.coord),
            successor_steps(old(self)@.rules, old(self)@.cells, e.coord) == Ok::<
                Seq<(Coord, u32)>,
                UnknownTurf,
            >(steps@),
        ensures
            final(self).frontier.wf(),
            (final(self)@.state, complete) == old(self)@.relaxed_all(old(self)@.state, e, steps@),
            final(self)@ == (JobView { state: final(self)@.state, ..old(self)@ }),
            complete ==> final(self)@.inv_search(None),
    {
        let ghost v0 = self@;
        let mut i: usize = 0;
        proof {
            assert(steps@.take(0) =~= Seq::<(Coord, u32)>::empty());
            assert(v0 =~= JobView { state: v0.state, ..v0 });
        }
        while i < steps.len()
            invariant
                i <= steps@.len(),
                self.frontier.wf(),
                self@.inv_search(Some(e)),
                self@.is_current(self@.state, e),
                !v0.in_target(e.coord),
                is_interior(e.coord),
                successor_steps(v0.rules, v0.cells, e.coord) == Ok::<
                    Seq<(Coord, u32)>,
                    UnknownTurf,
                >(steps@),
                v0 == old(self)@,
                self@ == (JobView { state: self@.state, ..v0 }),
                v0.relaxed_all(v0.state, e, steps@.take(i as int)) == (self@.state, true),
                self@.no_news_over(e.coord, steps@, i as int),
            decreases steps@.len() - i,
        {
            let (to, movement_cost) = steps[i];
            let ghost before = self@;
            proof {
                assert(steps@.take(i + 1).drop_last() =~= steps@.take(i as int));
                assert(steps@.take(i + 1).last() == steps@[i as int]);
            }
            let wide: u64 = e.cost as u64 + movement_cost as u64;
            if wide > 0xffff_ffff {
                proof {
                    lemma_incomplete(v0, v0.state, e, steps@, i + 1);
                }
                return false;
            }
            let next_cost: u32 = wide as u32;
            let improves: bool = match self.costs.get(to) {
                Some(known) => next_cost < *known,
                None => true,
            };
            if improves {
                if !self.can_push(to, next_cost) {
                    proof {
                        lemma_incomplete(v0, v0.state, e, steps@, i + 1);
                    }
                    return false;
                }
                self.previous.insert(to, e.coord);
                let ghost linked = self@;
                proof {
                    assert(linked =~= JobView {
                        state: SearchState {
                            previous: before.state.previous.insert(to, e.coord),
                            ..before.state
                        },
                        ..before
                    });
                }
                self.push(to, next_cost);
                proof {
                    assert(before.relaxed(before.state, e, steps@[i as int]) == Some(self@.state));
                }
            }
            proof {
                assert(before.relaxed(before.state, e, steps@[i as int]) == Some(self@.state));
                assert(v0.relaxed(before.state, e, steps@[i as int]) == Some(self@.state));
                lemma_relaxed(before, self@, e, i as int);
            }
            i += 1;
        }
        proof {
            assert(steps@.take(steps@.len() as int) =~= steps@);
            lemma_expanded(self@, self@, e);
        }
        true
    }

    /// Expands an entry that was taken from the frontier.
    fn expand(&mut self, e: QueueEntry) -> (r: JobProgress)
        requires
            old(self).frontier.wf(),
            old(self)@.inv_search(Some(e)),
            old(self)@.is_current(old(self)@.state, e),
            !old(self)@.in_target(e.coord),
        ensures
            final(self).wf(),
            (final(self)@, r.as_move()) == old(self)@.expand(old(self)@.state, e),
            !(r is Found),
    {
        let ghost v0 = self@;
        if !interior(e.coord) {
            self.phase = Phase::Finished;
            assert(self@ =~= v0.finished(v0.state));
            return JobProgress::OutOfRange;
        }
        match self.grid.successors(e.coord) {
            Err(unknown) => {
                self.phase = Phase::Expanding(e);
                proof {
                    assert(self@ =~= JobView { phase: Phase::Expanding(e), ..v0 });
                    lemma_same_knowledge(v0, self@, Some(e));
                }
                JobProgress::Resolve(unknown.coord)
            },
            Ok(steps) => {
                if self.relax(e, &steps) {
                    let ghost v1 = self@;
                    self.phase = Phase::Searching;
                    proof {
                        assert(self@ =~= JobView {
                            state: v1.state,
                            phase: Phase::Searching,
                            ..v0
                        });
                        lemma_same_knowledge(v1, self@, None);
                    }
                    JobProgress::Advanced
                } else {
                    let ghost v1 = self@;
                    self.phase = Phase::Finished;
                    assert(self@ =~= v0.finished(v1.state));
                    JobProgress::OutOfRange
                }
            },
        }
    }

    /// Takes the next entry from the frontier.
    fn take_next(&mut self, now: u64) -> (r: JobProgress)
        requires
            old(self).frontier.wf(),
            old(self)@.inv_search(None),
            old(self)@.phase is Searching,
        ensures
            final(self).wf(),
            (final(self)@, r.as_move()) == old(self)@.take_next(old(self)@.state, now),
            match r {
                JobProgress::Found(path) => {
                    &&& is_trace(final(self)@.state.previous, path@, path@.last())
                    &&& final(self)@.is_best_route(path@)
                    &&& routes_known(final(self)@.rules, final(self)@.cells, path@)
                },
                JobProgress::NoPath => final(self)@.has_no_route(),
                _ => true,
            },
    {
        let ghost v0 = self@;
        if now >= self.slice_started && now - self.slice_started >= SLICE_BUDGET {
            assert(self@ =~= JobView { state: v0.state, phase: Phase::Searching, ..v0 });
            return JobProgress::InProgress;
        }
        let current: QueueEntry = match self.frontier.pop() {
            Some(e) => e,
            None => {
                self.phase = Phase::Finished;
                proof {
                    assert(v0.state.frontier.len() == 0);
                    assert(self@ =~= v0.finished(v0.state));
                    law_empty_frontier_means_no_route(v0);
                    lemma_no_route_stays(v0, self@);
                }
                return JobProgress::NoPath;
            },
        };
        let ghost v1 = self@;
        proof {
            lemma_next_entry(v0, current);
            assert(v1 =~= JobView {
                state: SearchState { frontier: v0.state.frontier.remove(current), ..v0.state },
                ..v0
            });
        }
        let is_current: bool = match self.costs.get(current.coord) {
            Some(cost) => *cost == current.cost,
            None => false,
        };
        if !is_current {
            // A cheaper way was queued after this entry.
            proof {
                lemma_taken(v0, self@, current, None);
            }
            return JobProgress::Advanced;
        }
        proof {
            lemma_taken(v0, v1, current, Some(current));
        }
        if chebyshev_distance(current.coord, self.goal) <= self.min_target_distance {
            // Reaching the target range is enough: nothing has to stand on the goal itself.
            let path: Vec<Coord> = self.reconstruct(current.coord);
            self.phase = Phase::Finished;
            proof {
                assert(self@ =~= v0.finished(v1.state));
                law_found_route_is_best(v0, current, path@);
                law_trace_knows_routes(v0, None, path@, current.coord);
                lemma_best_route_stays(v0, self@, path@);
            }
            return JobProgress::Found(path);
        }
        let progress: JobProgress = self.expand(current);
        proof {
            lemma_expand_ignores_time(v0, v1, v1.state, current);
        }
        progress
    }

    /// Makes one move at time `now`. A found path is a best route on every map that the turfs
    /// seen so far can be part of; where there is no path, no such map has a route.
    pub fn step(&mut self, now: u64) -> (r: JobProgress)
        requires
            old(self).wf(),
            !(old(self)@.phase is Finished),
        ensures
            final(self).wf(),
            (final(self)@, r.as_move()) == old(self)@.step(now),
            match r {
                JobProgress::Found(path) => {
                    &&& is_trace(final(self)@.state.previous, path@, path@.last())
                    &&& final(self)@.is_best_route(path@)
                    &&& routes_known(final(self)@.rules, final(self)@.cells, path@)
                },
                JobProgress::NoPath => final(self)@.has_no_route(),
                _ => true,
            },
    {
        let ghost v0 = self@;
        match self.phase {
            Phase::Fresh => {
                match self.grid.can_occupy(self.grid.start) {
                    Err(unknown) => JobProgress::Resolve(unknown.coord),
                    Ok(false) => {
                        self.phase = Phase::Finished;
                        proof {
                            assert(self@ =~= v0.finished(v0.state));
                            law_forbidden_start_means_no_route(self@);
                        }
                        JobProgress::NoPath
                    },
                    Ok(true) => {
                        let start: Coord = self.grid.start;
                        if !self.can_push(start, 0) {
                            self.phase = Phase::Finished;
                            assert(self@ =~= v0.finished(v0.state));
                            return JobProgress::OutOfRange;
                        }
                        self.push(start, 0);
                        let ghost pushed = self@.state;
                        self.phase = Phase::Searching;
                        let ghost v1 = self@;
                        proof {
                            assert(v1 =~= JobView { state: pushed, phase: Phase::Searching, ..v0 });
                            lemma_start(v1);
                            lemma_take_next_ignores_time(v0, v1, pushed, now, now);
                        }
                        self.take_next(now)
                    },
                }
            },
            Phase::Searching => self.take_next(now),
            Phase::Expanding(e) => self.expand(e),
            Phase::Finished => JobProgress::NoPath,
        }
    }

    /// What is handed out of a found path: its diagonals are looked up again and replaced as
    /// the search was told to, and the first node may be left out. Nothing is handed out where
    /// a diagonal that has to be replaced has no open way around its corner.
    pub fn final_path(&self, nodes: &Vec<Coord>) -> (r: Result<Option<Vec<Coord>>, UnknownTurf>)
        ensures
            match handed_out(
                self@.rules,
                self@.cells,
                self@.diagonal_handling,
                self@.skip_first,
                nodes@,
            ) {
                Ok(Some(out)) => r matches Ok(Some(v)) && v@ == out,
                Ok(None) => r matches Ok(None),
                Err(e) => r matches Err(f) && f == e,
            },
    {
        let grid: &Grid = &self.grid;
        let ghost rules = grid.rules();
        let ghost cells = grid.cells();
        let ghost handling = self.diagonal_handling;
        let look_up = |from: Coord, to: Coord| -> (r: Result<DiagonalRoutes, UnknownTurf>)
            ensures
                r == routes(grid.rules(), grid.cells(), from, to),
            { grid.diagonal_routes(from, to) };
        let expansion: Result<Option<Vec<Coord>>, UnknownTurf> = expand_diagonals_checked(
            nodes.as_slice(),
            self.diagonal_handling,
            look_up,
        );
        proof {
            let s = nodes@;
            match &expansion {
                Ok(Some(out)) => {
                    let told = choose|told: Seq<DiagonalRoutes>|
                        #![trigger told_routes_checked(look_up, s, told, s.len() - 1)]
                        told_routes_checked(look_up, s, told, s.len() - 1) && expanded(
                            s,
                            handling,
                            told,
                        ) == Some(out@);
                    assert(s.take(s.len() as int) =~= s);
                    lemma_told_expansion(rules, cells, handling, s, told, s.len() as int);
                },
                Ok(None) => {
                    let (told, legs) = choose|told: Seq<DiagonalRoutes>, legs: int|
                        #![trigger told_routes_checked(look_up, s, told, legs)]
                        0 < legs < s.len() && told_routes_checked(look_up, s, told, legs)
                            && expanded(s.take(legs), handling, told) is Some && expanded(
                            s.take(legs + 1),
                            handling,
                            told,
                        ) is None;
                    lemma_told_expansion(rules, cells, handling, s, told, legs + 1);
                    lemma_known_expansion_prefix(rules, cells, handling, s, legs + 1);
                },
                Err(e) => {
                    let (told, legs) = choose|told: Seq<DiagonalRoutes>, legs: int|
                        #![trigger told_routes_checked(look_up, s, told, legs)]
                        0 <= legs < s.len() - 1 && told_routes_checked(look_up, s, told, legs)
                            && expanded(s.take(legs + 1), handling, told) is Some && bends(s, legs)
                            && call_ensures(
                            look_up,
                            (s[legs], s[legs + 1]),
                            Err::<DiagonalRoutes, UnknownTurf>(*e),
                        );
                    lemma_told_expansion(rules, cells, handling, s, told, legs + 1);
                    let here = s.take(legs + 2);
                    assert(here.drop_last() =~= s.take(legs + 1));
                    assert(bends(here, legs));
                    lemma_known_expansion_prefix(rules, cells, handling, s, legs + 2);
                },
            }
        }
        match expansion {
            Ok(Some(out)) => Ok(Some(apply_skip_first(out, self.skip_first))),
            Ok(None) => Ok(None),
            Err(e) => Err(e),
        }
    }

    /// The turfs to locate for a found path, in order: those of its final path on the z-level of
    /// the search.
    pub fn final_turfs(&self, nodes: &Vec<Coord>) -> (r: Result<Vec<TurfCoords>, UnknownTurf>)
        ensures
            match self@.turfs_handed_out(nodes@) {
                Ok(turfs) => r matches Ok(v) && v@ == turfs,
                Err(e) => r matches Err(f) && f == e,
            },
    {
        match self.final_path(nodes) {
            Ok(Some(path)) => Ok(turfs_on_level(&path, self.grid.z)),
            Ok(None) => Ok(Vec::new()),
            Err(e) => Err(e),
        }
    }
}

/// A look at the successors that ended early is not resumed.
proof fn lemma_incomplete(v: JobView, s: SearchState, e: QueueEntry, steps: Seq<(Coord, u32)>, k: int)
    requires
        0 <= k <= steps.len(),
        !v.relaxed_all(s, e, steps.take(k)).1,
    ensures
        v.relaxed_all(s, e, steps) == v.relaxed_all(s, e, steps.take(k)),
    decreases steps.len(),
{
    if k == steps.len() {
        assert(steps.take(k) =~= steps);
    } else {
        assert(steps.drop_last().take(k) =~= steps.take(k));
        lemma_incomplete(v, s, e, steps.drop_last(), k);
    }
}

proof fn lemma_no_route_stays(v: JobView, w: JobView)
    requires
        v.has_no_route(),
        w.rules == v.rules,
        w.cells == v.cells,
        w.goal == v.goal,
        w.min_target_distance == v.min_target_distance,
    ensures
        w.has_no_route(),
{
}

proof fn lemma_best_route_stays(v: JobView, w: JobView, path: Seq<Coord>)
    requires
        v.is_best_route(path),
        w.rules == v.rules,
        w.cells == v.cells,
        w.goal == v.goal,
        w.min_target_distance == v.min_target_distance,
    ensures
        w.is_best_route(path),
{
}

} // verus!
