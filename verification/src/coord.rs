//! Coordinates, distances and the distance estimate that guides a search.
use vstd::prelude::*;

verus! {

/// A turf on the z-level of a search: `(x, y)`.
pub type Coord = (i16, i16);

/// A turf anywhere on the map: `(x, y, z)`.
pub type TurfCoords = (i16, i16, i16);

/// The cost of one step along an axis.
pub const CARDINAL_COST: u32 = 10;

/// The cost of one diagonal step.
pub const DIAGONAL_COST: u32 = 14;

pub open spec fn abs_int(x: int) -> int {
    if x < 0 {
        -x
    } else {
        x
    }
}

pub open spec fn max_int(a: int, b: int) -> int {
    if a >= b {
        a
    } else {
        b
    }
}

pub open spec fn min_int(a: int, b: int) -> int {
    if a <= b {
        a
    } else {
        b
    }
}

/// The number of king's moves between two coordinates.
pub open spec fn chebyshev(a: Coord, b: Coord) -> int {
    max_int(abs_int(a.0 - b.0), abs_int(a.1 - b.1))
}

/// The least cost of covering `dx` columns and `dy` rows with cardinal and diagonal steps.
pub open spec fn octile(dx: int, dy: int) -> int {
    14 * min_int(dx, dy) + 10 * (max_int(dx, dy) - min_int(dx, dy))
}

/// The octile distance from `coord` to the square of radius `target_distance` around `goal`.
pub open spec fn range_heuristic(coord: Coord, goal: Coord, target_distance: int) -> int {
    octile(
        max_int(abs_int(coord.0 - goal.0) - target_distance, 0),
        max_int(abs_int(coord.1 - goal.1) - target_distance, 0),
    )
}

/// The two coordinates differ by one step along one axis.
pub open spec fn is_cardinal_step(a: Coord, b: Coord) -> bool {
    abs_int(a.0 - b.0) + abs_int(a.1 - b.1) == 1
}

/// The two coordinates differ by one step along both axes.
pub open spec fn is_diagonal_step(a: Coord, b: Coord) -> bool {
    abs_int(a.0 - b.0) == 1 && abs_int(a.1 - b.1) == 1
}

/// What a step from `a` to its neighbour `b` costs.
pub open spec fn step_cost(a: Coord, b: Coord) -> int {
    if a.0 != b.0 && a.1 != b.1 {
        DIAGONAL_COST as int
    } else {
        CARDINAL_COST as int
    }
}

/// All eight neighbours of the coordinate can be written down.
pub open spec fn is_interior(c: Coord) -> bool {
    i16::MIN < c.0 < i16::MAX && i16::MIN < c.1 < i16::MAX
}

/// Whether a search that started at `start` may look at `coord` at all: within
/// `max_range` of the start, unless the range is zero or negative, and not the
/// coordinate to avoid.
pub open spec fn is_allowed(coord: Coord, start: Coord, max_range: i32, avoid: Option<Coord>) -> bool {
    (max_range <= 0 || chebyshev(coord, start) <= max_range) && avoid != Some(coord)
}

fn axis_distance(a: i16, b: i16) -> (d: i32)
    ensures
        d == abs_int(a - b),
        0 <= d <= 65535,
{
    let delta: i32 = a as i32 - b as i32;
    if delta < 0 {
        -delta
    } else {
        delta
    }
}

pub fn chebyshev_distance(a: Coord, b: Coord) -> (d: i32)
    ensures
        d == chebyshev(a, b),
{
    let dx: i32 = axis_distance(a.0, b.0);
    let dy: i32 = axis_distance(a.1, b.1);
    if dx >= dy {
        dx
    } else {
        dy
    }
}

/// How far `distance` reaches beyond `target_distance`, at least zero.
fn excess(distance: i32, target_distance: i32) -> (e: u64)
    requires
        0 <= distance <= 65535,
    ensures
        e == max_int(distance - target_distance, 0),
        e <= 0x8000_ffff,
{
    let past: i64 = distance as i64 - target_distance as i64;
    if past < 0 {
        0
    } else {
        past as u64
    }
}

/// The heuristic in a type that holds it for every input.
pub(crate) fn wide_heuristic(coord: Coord, goal: Coord, target_distance: i32) -> (h: u64)
    ensures
        h == range_heuristic(coord, goal, target_distance as int),
        h <= 0x1_0000_0000_0000,
{
    let dx: u64 = excess(axis_distance(coord.0, goal.0), target_distance);
    let dy: u64 = excess(axis_distance(coord.1, goal.1), target_distance);
    if dx <= dy {
        14 * dx + 10 * (dy - dx)
    } else {
        14 * dy + 10 * (dx - dy)
    }
}

/// Octile distance to the target range; admissible for cardinal cost 10 and
/// diagonal cost 14.
pub fn heuristic_to_target_range(coord: Coord, goal: Coord, target_distance: i32) -> (h: u32)
    requires
        range_heuristic(coord, goal, target_distance as int) <= u32::MAX,
    ensures
        h == range_heuristic(coord, goal, target_distance as int),
{
    wide_heuristic(coord, goal, target_distance) as u32
}

pub fn coordinate_allowed(coord: Coord, start: Coord, max_range: i32, avoid: Option<Coord>) -> (r: bool)
    ensures
        r == is_allowed(coord, start, max_range, avoid),
{
    let avoided: bool = match avoid {
        Some(c) => c.0 == coord.0 && c.1 == coord.1,
        None => false,
    };
    (max_range <= 0 || chebyshev_distance(coord, start) <= max_range) && !avoided
}

pub fn turf_allowed(simulated_only: bool, simulated: bool) -> (r: bool)
    ensures
        r == (simulated_only ==> simulated),
{
    !simulated_only || simulated
}

/// Whether all eight neighbours of the coordinate can be written down.
pub fn interior(c: Coord) -> (r: bool)
    ensures
        r == is_interior(c),
{
    i16::MIN < c.0 && c.0 < i16::MAX && i16::MIN < c.1 && c.1 < i16::MAX
}

/// The heuristic is never negative.
pub proof fn law_heuristic_nonnegative(coord: Coord, goal: Coord, target_distance: int)
    ensures
        range_heuristic(coord, goal, target_distance) >= 0,
{
}

/// The heuristic is zero exactly on the coordinates within the target distance,
/// when that distance is not negative.
pub proof fn law_heuristic_zero_in_target_range(coord: Coord, goal: Coord, target_distance: int)
    requires
        target_distance >= 0,
    ensures
        range_heuristic(coord, goal, target_distance) == 0 <==> chebyshev(coord, goal)
            <= target_distance,
{
}

/// The heuristic never drops by more than a step costs: it is consistent.
pub proof fn law_heuristic_consistent(a: Coord, b: Coord, goal: Coord, target_distance: int)
    requires
        is_cardinal_step(a, b) || is_diagonal_step(a, b),
    ensures
        range_heuristic(a, goal, target_distance) <= step_cost(a, b) + range_heuristic(
            b,
            goal,
            target_distance,
        ),
{
}

/// Chebyshev distance obeys the triangle inequality.
pub proof fn law_chebyshev_triangle(a: Coord, b: Coord, c: Coord)
    ensures
        chebyshev(a, c) <= chebyshev(a, b) + chebyshev(b, c),
{
}

} // verus!
