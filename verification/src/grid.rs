//! The turfs a search has seen, and the steps they allow.
use vstd::prelude::*;
use crate::coord::{
    coordinate_allowed, is_allowed, is_cardinal_step, is_diagonal_step, is_interior, step_cost,
    turf_allowed, Coord, CARDINAL_COST, DIAGONAL_COST,
};
use crate::coord_map::CoordMap;
use crate::direction::{
    cardinal, cardinal_at, has_flag, law_neighbour_is_a_step, neighbour, neighbour_at,
    step_direction, CARDINAL_COUNT, EAST, NORTH, SOUTH, STEP_COUNT, WEST,
};

verus! {

/// What a search knows of a turf that exists.
#[derive(Clone, Copy, Debug)]
pub struct TurfInfo {
    /// A bit for each edge through which the turf can be left.
    pub open_edges: i32,
    pub simulated: bool,
}

/// Which of the two cardinal detours around the corner of a diagonal are legal.
#[derive(Clone, Copy, Debug)]
pub struct DiagonalRoutes {
    pub north_south_first: bool,
    pub east_west_first: bool,
}

/// The turf whose state has to be resolved before a question can be answered.
#[derive(Clone, Copy, Debug)]
pub struct UnknownTurf {
    pub coord: Coord,
}

/// The map as one search sees it.
pub struct Grid {
    pub z: i16,
    pub pass_flags: i32,
    pub is_flying: bool,
    pub start: Coord,
    pub max_range: i32,
    pub simulated_only: bool,
    pub avoid: Option<Coord>,
    /// The turfs seen so far; `None` for a coordinate without a turf.
    pub cache: CoordMap<Option<TurfInfo>>,
}

/// The restrictions of a search, apart from what the turfs themselves say.
pub struct GridRules {
    pub start: Coord,
    pub max_range: i32,
    pub simulated_only: bool,
    pub avoid: Option<Coord>,
}

/// The turfs seen so far.
pub type Cells = Map<Coord, Option<TurfInfo>>;

/// A state of the whole map.
pub type World = spec_fn(Coord) -> Option<TurfInfo>;

/// The world is one that the turfs seen so far can be part of.
pub open spec fn agrees(cells: Cells, world: World) -> bool {
    forall|c: Coord| #[trigger] cells.contains_key(c) ==> cells[c] == world(c)
}

/// There is a turf at `c`, and the rules let a search stand on it.
pub open spec fn occupiable(rules: GridRules, world: World, c: Coord) -> bool {
    &&& is_allowed(c, rules.start, rules.max_range, rules.avoid)
    &&& world(c) matches Some(info) && (rules.simulated_only ==> info.simulated)
}

/// The step along one axis from `a` to `b` leaves through an open edge, and ends where
/// the search may stand.
pub open spec fn legal_cardinal(rules: GridRules, world: World, a: Coord, b: Coord) -> bool {
    &&& is_cardinal_step(a, b)
    &&& world(a) matches Some(info) && has_flag(info.open_edges, step_direction(a, b))
    &&& occupiable(rules, world, b)
}

/// The two cardinal steps from `a` over `via` to `b` are both legal.
pub open spec fn legal_detour(rules: GridRules, world: World, a: Coord, via: Coord, b: Coord) -> bool {
    legal_cardinal(rules, world, a, via) && legal_cardinal(rules, world, via, b)
}

/// A step along one axis is legal by itself; a diagonal step is legal if at least one
/// of the two cardinal detours around its corner is.
pub open spec fn legal_step(rules: GridRules, world: World, a: Coord, b: Coord) -> bool {
    ||| legal_cardinal(rules, world, a, b)
    ||| is_diagonal_step(a, b) && legal_detour(rules, world, a, (a.0, b.1), b)
    ||| is_diagonal_step(a, b) && legal_detour(rules, world, a, (b.0, a.1), b)
}

/// What is known of the turf at `c`.
pub open spec fn known(cells: Cells, c: Coord) -> Result<Option<TurfInfo>, UnknownTurf> {
    if cells.contains_key(c) {
        Ok(cells[c])
    } else {
        Err(UnknownTurf { coord: c })
    }
}

/// Whether the search may stand on `c`. The turf is asked for only where the
/// coordinate is allowed.
pub open spec fn occupancy(rules: GridRules, cells: Cells, c: Coord) -> Result<bool, UnknownTurf> {
    if !is_allowed(c, rules.start, rules.max_range, rules.avoid) {
        Ok(false)
    } else {
        match known(cells, c) {
            Err(e) => Err(e),
            Ok(None) => Ok(false),
            Ok(Some(info)) => Ok(rules.simulated_only ==> info.simulated),
        }
    }
}

/// Whether the way that leaves `source` by `first`, goes over `via`, and leaves that by
/// `second` to `to` is open. A turf is asked for only where the way is open so far.
pub open spec fn detour(
    rules: GridRules,
    cells: Cells,
    source: TurfInfo,
    first: i32,
    via: Coord,
    second: i32,
    to: Coord,
) -> Result<bool, UnknownTurf> {
    if !has_flag(source.open_edges, first) {
        Ok(false)
    } else {
        match occupancy(rules, cells, via) {
            Err(e) => Err(e),
            Ok(false) => Ok(false),
            Ok(true) => match known(cells, via) {
                Err(e) => Err(e),
                Ok(None) => Ok(false),
                Ok(Some(info)) => if has_flag(info.open_edges, second) {
                    occupancy(rules, cells, to)
                } else {
                    Ok(false)
                },
            },
        }
    }
}

/// The direction of the vertical part of the way from `from` to `to`.
pub open spec fn vertical_direction(from: Coord, to: Coord) -> i32 {
    if to.1 > from.1 {
        NORTH
    } else {
        SOUTH
    }
}

/// The direction of the horizontal part of the way from `from` to `to`.
pub open spec fn horizontal_direction(from: Coord, to: Coord) -> i32 {
    if to.0 > from.0 {
        EAST
    } else {
        WEST
    }
}

/// The open detours between two corners of a diagonal; none where there is no turf to
/// start from.
pub open spec fn routes(rules: GridRules, cells: Cells, from: Coord, to: Coord) -> Result<
    DiagonalRoutes,
    UnknownTurf,
> {
    let vertical = vertical_direction(from, to);
    let horizontal = horizontal_direction(from, to);
    match known(cells, from) {
        Err(e) => Err(e),
        Ok(None) => Ok(DiagonalRoutes { north_south_first: false, east_west_first: false }),
        Ok(Some(source)) => match detour(
            rules,
            cells,
            source,
            vertical,
            (from.0, to.1),
            horizontal,
            to,
        ) {
            Err(e) => Err(e),
            Ok(north_south_first) => match detour(
                rules,
                cells,
                source,
                horizontal,
                (to.0, from.1),
                vertical,
                to,
            ) {
                Err(e) => Err(e),
                Ok(east_west_first) => Ok(
                    DiagonalRoutes { north_south_first, east_west_first },
                ),
            },
        },
    }
}

/// Whether the `i`-th step from `from` is open.
pub open spec fn step_open(
    rules: GridRules,
    cells: Cells,
    source: TurfInfo,
    from: Coord,
    i: int,
) -> Result<bool, UnknownTurf> {
    let to = neighbour_at(from, i);
    if i < CARDINAL_COUNT {
        if has_flag(source.open_edges, cardinal_at(i)) {
            occupancy(rules, cells, to)
        } else {
            Ok(false)
        }
    } else {
        match routes(rules, cells, from, to) {
            Err(e) => Err(e),
            Ok(r) => Ok(r.north_south_first || r.east_west_first),
        }
    }
}

/// The open ones among the first `n` steps from `from`, in order, each with its cost.
pub open spec fn open_steps(
    rules: GridRules,
    cells: Cells,
    source: TurfInfo,
    from: Coord,
    n: nat,
) -> Result<Seq<(Coord, u32)>, UnknownTurf>
    decreases n,
{
    if n == 0 {
        Ok(Seq::empty())
    } else {
        match open_steps(rules, cells, source, from, (n - 1) as nat) {
            Err(e) => Err(e),
            Ok(steps) => match step_open(rules, cells, source, from, n - 1) {
                Err(e) => Err(e),
                Ok(open) => Ok(
                    if open {
                        let to = neighbour_at(from, n - 1);
                        steps.push((to, step_cost(from, to) as u32))
                    } else {
                        steps
                    },
                ),
            },
        }
    }
}

/// The coordinates that one step leads to from `from`, each with the cost of the step.
pub open spec fn successor_steps(rules: GridRules, cells: Cells, from: Coord) -> Result<
    Seq<(Coord, u32)>,
    UnknownTurf,
> {
    match known(cells, from) {
        Err(e) => Err(e),
        Ok(None) => Ok(Seq::empty()),
        Ok(Some(source)) => open_steps(rules, cells, source, from, STEP_COUNT as nat),
    }
}

impl Grid {
    pub open spec fn rules(&self) -> GridRules {
        GridRules {
            start: self.start,
            max_range: self.max_range,
            simulated_only: self.simulated_only,
            avoid: self.avoid,
        }
    }

    pub open spec fn cells(&self) -> Cells {
        self.cache@
    }

    /// What the search saw at `(x, y)`.
    pub fn lookup(&self, x: i16, y: i16) -> (r: Result<Option<TurfInfo>, UnknownTurf>)
        ensures
            r == known(self.cells(), (x, y)),
    {
        match self.cache.get((x, y)) {
            Some(hit) => Ok(*hit),
            None => Err(UnknownTurf { coord: (x, y) }),
        }
    }

    /// Keeps the state of a turf for the rest of the search. The first state that was
    /// recorded stays: a search uses one consistent view of each turf, even if it yields
    /// and resumes.
    pub fn record(&mut self, coord: Coord, entry: Option<TurfInfo>)
        ensures
            final(self).cells() == (if old(self).cells().contains_key(coord) {
                old(self).cells()
            } else {
                old(self).cells().insert(coord, entry)
            }),
            final(self).rules() == old(self).rules(),
            final(self).z == old(self).z,
            final(self).pass_flags == old(self).pass_flags,
            final(self).is_flying == old(self).is_flying,
    {
        if self.cache.get(coord).is_none() {
            self.cache.insert(coord, entry);
        }
    }

    pub fn can_occupy(&self, coord: Coord) -> (r: Result<bool, UnknownTurf>)
        ensures
            r == occupancy(self.rules(), self.cells(), coord),
    {
        if !coordinate_allowed(coord, self.start, self.max_range, self.avoid) {
            return Ok(false);
        }
        match self.lookup(coord.0, coord.1)? {
            Some(info) => Ok(turf_allowed(self.simulated_only, info.simulated)),
            None => Ok(false),
        }
    }

    fn detour_open(
        &self,
        source: TurfInfo,
        first: i32,
        via: Coord,
        second: i32,
        to: Coord,
    ) -> (r: Result<bool, UnknownTurf>)
        ensures
            r == detour(self.rules(), self.cells(), source, first, via, second, to),
    {
        if source.open_edges & first == 0 {
            return Ok(false);
        }
        if !self.can_occupy(via)? {
            return Ok(false);
        }
        match self.lookup(via.0, via.1)? {
            Some(info) => if info.open_edges & second != 0 {
                self.can_occupy(to)
            } else {
                Ok(false)
            },
            None => Ok(false),
        }
    }

    /// Which two-cardinal ways around the corner between `from` and `to` are open.
    pub fn diagonal_routes(&self, from: Coord, to: Coord) -> (r: Result<DiagonalRoutes, UnknownTurf>)
        ensures
            r == routes(self.rules(), self.cells(), from, to),
    {
        let source: TurfInfo = match self.lookup(from.0, from.1)? {
            Some(info) => info,
            None => {
                return Ok(DiagonalRoutes { north_south_first: false, east_west_first: false });
            },
        };
        let vertical: i32 = if to.1 > from.1 {
            NORTH
        } else {
            SOUTH
        };
        let horizontal: i32 = if to.0 > from.0 {
            EAST
        } else {
            WEST
        };
        let north_south_first: bool = self.detour_open(
            source,
            vertical,
            (from.0, to.1),
            horizontal,
            to,
        )?;
        let east_west_first: bool = self.detour_open(
            source,
            horizontal,
            (to.0, from.1),
            vertical,
            to,
        )?;
        Ok(DiagonalRoutes { north_south_first, east_west_first })
    }

    /// The coordinates that one step leads to from `from`, each with the cost of the step.
    pub fn successors(&self, from: Coord) -> (r: Result<Vec<(Coord, u32)>, UnknownTurf>)
        requires
            is_interior(from) || !(known(self.cells(), from) matches Ok(Some(_))),
        ensures
            match successor_steps(self.rules(), self.cells(), from) {
                Ok(steps) => r matches Ok(v) && v@ == steps,
                Err(e) => r == Err::<Vec<(Coord, u32)>, UnknownTurf>(e),
            },
    {
        let source: TurfInfo = match self.lookup(from.0, from.1)? {
            Some(info) => info,
            None => {
                return Ok(Vec::new());
            },
        };
        let mut out: Vec<(Coord, u32)> = Vec::with_capacity(STEP_COUNT);
        let mut i: usize = 0;
        while i < STEP_COUNT
            invariant
                i <= STEP_COUNT,
                is_interior(from),
                known(self.cells(), from) == Ok::<Option<TurfInfo>, UnknownTurf>(Some(source)),
                open_steps(self.rules(), self.cells(), source, from, i as nat) == Ok::<
                    Seq<(Coord, u32)>,
                    UnknownTurf,
                >(out@),
            decreases STEP_COUNT - i,
        {
            let to: Coord = neighbour(from, i);
            proof {
                law_neighbour_is_a_step(from, i as int);
            }
            let open: Result<bool, UnknownTurf> = if i < CARDINAL_COUNT {
                if source.open_edges & cardinal(i) != 0 {
                    self.can_occupy(to)
                } else {
                    Ok(false)
                }
            } else {
                match self.diagonal_routes(from, to) {
                    Ok(found) => Ok(found.north_south_first || found.east_west_first),
                    Err(e) => Err(e),
                }
            };
            match open {
                Err(e) => {
                    proof {
                        lemma_unknown_stays_unknown(
                            self.rules(),
                            self.cells(),
                            source,
                            from,
                            (i + 1) as nat,
                            STEP_COUNT as nat,
                            e,
                        );
                    }
                    return Err(e);
                },
                Ok(walkable) => {
                    if walkable {
                        out.push(
                            (
                                to,
                                if i < CARDINAL_COUNT {
                                    CARDINAL_COST
                                } else {
                                    DIAGONAL_COST
                                },
                            ),
                        );
                    }
                },
            }
            i += 1;
        }
        Ok(out)
    }
}

/// A turf that a shorter list of steps asks for, a longer one asks for too.
proof fn lemma_unknown_stays_unknown(
    rules: GridRules,
    cells: Cells,
    source: TurfInfo,
    from: Coord,
    n: nat,
    m: nat,
    e: UnknownTurf,
)
    requires
        n <= m,
        open_steps(rules, cells, source, from, n) == Err::<Seq<(Coord, u32)>, UnknownTurf>(e),
    ensures
        open_steps(rules, cells, source, from, m) == Err::<Seq<(Coord, u32)>, UnknownTurf>(e),
    decreases m,
{
    if n < m {
        lemma_unknown_stays_unknown(rules, cells, source, from, n, (m - 1) as nat, e);
    }
}

} // verus!
