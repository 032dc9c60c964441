//! What a search is asked for.
use vstd::prelude::*;
use crate::coord::{
    chebyshev, chebyshev_distance, law_chebyshev_triangle, max_int, Coord, TurfCoords,
};
use crate::coord_map::CoordMap;
use crate::error::NavPathError;
use crate::grid::{occupiable, Grid, GridRules, TurfInfo, World};
use crate::host_value::{is_truthy, number_or_zero, or_zero, truthy, HostValue};
use crate::path::{legal_leg, DiagonalHandling};
use crate::search::SearchJob;
use crate::search_model::{is_route, JobView, Phase, SearchState};

verus! {

/// The code with which a caller asks for every diagonal to be replaced.
pub const DIAGONAL_REMOVE_ALL: i32 = 1;

/// The code with which a caller asks for clunky diagonals to be replaced.
pub const DIAGONAL_REMOVE_CLUNKY: i32 = 2;

/// The handling that a code asks for; any other code, or none, leaves diagonals alone.
pub open spec fn handling_for(code: Option<i32>) -> DiagonalHandling {
    if code == Some(DIAGONAL_REMOVE_ALL) {
        DiagonalHandling::RemoveAll
    } else if code == Some(DIAGONAL_REMOVE_CLUNKY) {
        DiagonalHandling::RemoveClunky
    } else {
        DiagonalHandling::DoNothing
    }
}

impl DiagonalHandling {
    pub fn from_byond(code: Option<i32>) -> (h: Self)
        ensures
            h == handling_for(code),
    {
        let code: i32 = or_zero(code);
        if code == DIAGONAL_REMOVE_ALL {
            DiagonalHandling::RemoveAll
        } else if code == DIAGONAL_REMOVE_CLUNKY {
            DiagonalHandling::RemoveClunky
        } else {
            DiagonalHandling::DoNothing
        }
    }
}

/// The turf to keep away from.
#[derive(Clone, Copy, Debug)]
pub enum AvoidTurf {
    /// There is none.
    Nowhere,
    /// What was named is no turf.
    NotATurf,
    At(TurfCoords),
}

/// The arguments of a search. A turf is `None` where what was named is none, and a number
/// where it is none.
#[derive(Clone, Copy, Debug)]
pub struct SearchRequest {
    pub start: Option<TurfCoords>,
    pub end: Option<TurfCoords>,
    pub is_flying: HostValue,
    pub max_range: Option<i32>,
    pub min_target_distance: Option<i32>,
    pub simulated_only: HostValue,
    pub avoid: AvoidTurf,
    pub diagonal_handling: Option<i32>,
    pub skip_first: HostValue,
    pub pass_flags: Option<i32>,
}

/// The number, if it is positive, else zero.
pub open spec fn at_least_zero(number: Option<i32>) -> i32 {
    max_int(number_or_zero(number) as int, 0) as i32
}

fn not_below_zero(number: Option<i32>) -> (n: i32)
    ensures
        n == at_least_zero(number),
{
    let n: i32 = or_zero(number);
    if n < 0 {
        0
    } else {
        n
    }
}

impl SearchRequest {
    /// The coordinate to keep away from: one on another z-level does not matter.
    pub open spec fn avoided(self) -> Option<Coord> {
        match self.avoid {
            AvoidTurf::At(c) => if c.2 == (self.start->0).2 {
                Some((c.0, c.1))
            } else {
                None
            },
            _ => None,
        }
    }

    pub open spec fn rules(self) -> GridRules {
        GridRules {
            start: ((self.start->0).0, (self.start->0).1),
            max_range: at_least_zero(self.max_range),
            simulated_only: is_truthy(self.simulated_only),
            avoid: self.avoided(),
        }
    }

    pub open spec fn goal(self) -> Coord {
        ((self.end->0).0, (self.end->0).1)
    }

    pub open spec fn target_distance(self) -> i32 {
        at_least_zero(self.min_target_distance)
    }

    /// Why the request makes no sense, where it does not.
    pub open spec fn mistake(self) -> Option<NavPathError> {
        if self.start is None || self.end is None {
            Some(NavPathError::NotATurf)
        } else if (self.start->0).2 != (self.end->0).2 {
            Some(NavPathError::DifferentZLevels)
        } else if self.avoid is NotATurf {
            Some(NavPathError::NotATurf)
        } else {
            None
        }
    }

    /// The start is the turf to keep away from, or the target range lies out of reach.
    pub open spec fn is_hopeless(self) -> bool {
        ||| self.rules().avoid == Some(self.rules().start)
        ||| self.rules().max_range > 0 && chebyshev(self.rules().start, self.goal())
            > self.rules().max_range + self.target_distance()
    }

    /// The search that a sensible request asks for.
    pub open spec fn job(self, now: u64) -> JobView {
        JobView {
            rules: self.rules(),
            cells: Map::<Coord, Option<TurfInfo>>::empty(),
            z: (self.start->0).2,
            pass_flags: number_or_zero(self.pass_flags),
            is_flying: is_truthy(self.is_flying),
            goal: self.goal(),
            min_target_distance: self.target_distance(),
            diagonal_handling: handling_for(self.diagonal_handling),
            skip_first: is_truthy(self.skip_first),
            state: SearchState::empty(),
            phase: Phase::Fresh,
            last_touched: now,
            slice_started: now,
        }
    }
}

/// Sets up the search that a request asks for. A request without hope gets none.
pub fn new_search_job(request: SearchRequest, now: u64) -> (r: Result<
    Option<SearchJob>,
    NavPathError,
>)
    ensures
        match request.mistake() {
            Some(e) => r matches Err(f) && f == e,
            None => if request.is_hopeless() {
                r matches Ok(None)
            } else {
                r matches Ok(Some(job)) && job.wf() && job@ == request.job(now)
            },
        },
{
    let start: TurfCoords = match request.start {
        Some(c) => c,
        None => {
            return Err(NavPathError::NotATurf);
        },
    };
    let end: TurfCoords = match request.end {
        Some(c) => c,
        None => {
            return Err(NavPathError::NotATurf);
        },
    };
    if start.2 != end.2 {
        return Err(NavPathError::DifferentZLevels);
    }
    let max_range: i32 = not_below_zero(request.max_range);
    let min_target_distance: i32 = not_below_zero(request.min_target_distance);
    let avoid: Option<Coord> = match request.avoid {
        AvoidTurf::Nowhere => None,
        AvoidTurf::NotATurf => {
            return Err(NavPathError::NotATurf);
        },
        AvoidTurf::At(c) => if c.2 == start.2 {
            Some((c.0, c.1))
        } else {
            None
        },
    };
    let from: Coord = (start.0, start.1);
    let goal: Coord = (end.0, end.1);
    let start_avoided: bool = match avoid {
        Some(c) => c.0 == from.0 && c.1 == from.1,
        None => false,
    };
    let reach: i64 = max_range as i64 + min_target_distance as i64;
    if start_avoided || (max_range > 0 && chebyshev_distance(from, goal) as i64 > reach) {
        return Ok(None);
    }
    let grid = Grid {
        z: start.2,
        pass_flags: or_zero(request.pass_flags),
        is_flying: truthy(request.is_flying),
        start: from,
        max_range,
        simulated_only: truthy(request.simulated_only),
        avoid,
        cache: CoordMap::new(),
    };
    let job = SearchJob::new(
        grid,
        goal,
        min_target_distance,
        DiagonalHandling::from_byond(request.diagonal_handling),
        truthy(request.skip_first),
        now,
    );
    assert(job@ =~= request.job(now));
    Ok(Some(job))
}

/// A request that gets no search has no route on any map: it starts on the forbidden turf, or
/// its target range cannot be reached within its own range.
pub proof fn law_hopeless_request_has_no_route(request: SearchRequest, world: World, path: Seq<Coord>)
    requires
        request.mistake() is None,
        request.is_hopeless(),
    ensures
        !is_route(
            request.rules(),
            world,
            request.goal(),
            request.target_distance() as int,
            path,
        ),
{
    let rules = request.rules();
    if is_route(rules, world, request.goal(), request.target_distance() as int, path) {
        if path.len() > 1 {
            assert(legal_leg(rules, world, path, path.len() - 2));
        }
        assert(occupiable(rules, world, path.last()));
        law_chebyshev_triangle(rules.start, path.last(), request.goal());
    }
}

} // verus!
