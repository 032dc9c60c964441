//! Directions and the packed navigation value of a turf.
use vstd::prelude::*;
use crate::coord::{is_cardinal_step, is_diagonal_step, is_interior, step_cost, Coord};

verus! {

pub const NORTH: i32 = 1;

pub const SOUTH: i32 = 2;

pub const EAST: i32 = 4;

pub const WEST: i32 = 8;

/// How far the edge bits of a flyer lie above those of a walker.
pub const FLYING_SHIFT: i32 = 4;

/// How far the bits of conditional edges lie above those of a walker.
pub const COND_SHIFT: i32 = 8;

/// The edge bits of the value can be trusted.
pub const BAKED_FLAG: i32 = 0x1000;

/// The turf is simulated: it is not space.
pub const SIMULATED_FLAG: i32 = 0x2000;

/// The number of steps that a search considers from one coordinate.
pub const STEP_COUNT: usize = 8;

/// The number of edges of a turf.
pub const CARDINAL_COUNT: usize = 4;

/// `value` has one of the bits of `flag`.
pub open spec fn has_flag(value: i32, flag: i32) -> bool {
    value & flag != 0
}

/// The four edges of a turf, in the order in which they are resolved.
pub open spec fn cardinal_at(i: int) -> i32 {
    if i == 0 {
        NORTH
    } else if i == 1 {
        SOUTH
    } else if i == 2 {
        EAST
    } else {
        WEST
    }
}

pub fn cardinal(i: usize) -> (dir: i32)
    requires
        i < CARDINAL_COUNT,
    ensures
        dir == cardinal_at(i as int),
{
    if i == 0 {
        NORTH
    } else if i == 1 {
        SOUTH
    } else if i == 2 {
        EAST
    } else {
        WEST
    }
}

/// The set of open edges as one integer, a bit for each.
pub open spec fn edge_mask(north: bool, south: bool, east: bool, west: bool) -> i32 {
    ((if north {
        1int
    } else {
        0
    }) + (if south {
        2int
    } else {
        0
    }) + (if east {
        4int
    } else {
        0
    }) + (if west {
        8int
    } else {
        0
    })) as i32
}

/// The edge through which a cardinal step from `a` to `b` leaves `a`.
pub open spec fn step_direction(a: Coord, b: Coord) -> i32 {
    if b.1 > a.1 {
        NORTH
    } else if b.1 < a.1 {
        SOUTH
    } else if b.0 > a.0 {
        EAST
    } else {
        WEST
    }
}

/// The opposite of a cardinal direction; any other value is its own opposite.
pub open spec fn opposite(dir: i32) -> i32 {
    if dir == NORTH {
        SOUTH
    } else if dir == SOUTH {
        NORTH
    } else if dir == EAST {
        WEST
    } else if dir == WEST {
        EAST
    } else {
        dir
    }
}

pub fn reverse_dir(dir: i32) -> (r: i32)
    ensures
        r == opposite(dir),
{
    if dir == NORTH {
        SOUTH
    } else if dir == SOUTH {
        NORTH
    } else if dir == EAST {
        WEST
    } else if dir == WEST {
        EAST
    } else {
        dir
    }
}

pub fn nav_pass_is_simulated(nav_pass: i32) -> (r: bool)
    ensures
        r == has_flag(nav_pass, SIMULATED_FLAG),
{
    nav_pass & SIMULATED_FLAG != 0
}

/// The column offset of the `i`-th step a search considers.
pub open spec fn step_dx(i: int) -> int {
    if i == 2 || i == 4 || i == 5 {
        1
    } else if i == 3 || i == 6 || i == 7 {
        -1
    } else {
        0
    }
}

/// The row offset of the `i`-th step a search considers.
pub open spec fn step_dy(i: int) -> int {
    if i == 0 || i == 4 || i == 6 {
        1
    } else if i == 1 || i == 5 || i == 7 {
        -1
    } else {
        0
    }
}

/// Where the `i`-th step from `from` leads: north, south, east, west, then
/// northeast, southeast, northwest, southwest.
pub open spec fn neighbour_at(from: Coord, i: int) -> Coord {
    ((from.0 + step_dx(i)) as i16, (from.1 + step_dy(i)) as i16)
}

pub fn neighbour(from: Coord, i: usize) -> (to: Coord)
    requires
        is_interior(from),
        i < STEP_COUNT,
    ensures
        to == neighbour_at(from, i as int),
{
    let dx: i16 = if i == 2 || i == 4 || i == 5 {
        1
    } else if i == 3 || i == 6 || i == 7 {
        -1
    } else {
        0
    };
    let dy: i16 = if i == 0 || i == 4 || i == 6 {
        1
    } else if i == 1 || i == 5 || i == 7 {
        -1
    } else {
        0
    };
    (from.0 + dx, from.1 + dy)
}

/// Each of the eight steps is cardinal or diagonal, and costs accordingly.
pub proof fn law_neighbour_is_a_step(from: Coord, i: int)
    requires
        is_interior(from),
        0 <= i < STEP_COUNT,
    ensures
        i < CARDINAL_COUNT ==> is_cardinal_step(from, neighbour_at(from, i)) && cardinal_at(i)
            == step_direction(from, neighbour_at(from, i)) && step_cost(from, neighbour_at(from, i))
            == 10,
        i >= CARDINAL_COUNT ==> is_diagonal_step(from, neighbour_at(from, i)) && step_cost(
            from,
            neighbour_at(from, i),
        ) == 14,
{
}

/// The eight steps reach every cardinal and every diagonal neighbour.
pub proof fn law_steps_reach_every_neighbour(from: Coord, to: Coord) -> (i: int)
    requires
        is_interior(from),
        is_cardinal_step(from, to) || is_diagonal_step(from, to),
    ensures
        0 <= i < STEP_COUNT,
        neighbour_at(from, i) == to,
        is_cardinal_step(from, to) <==> i < CARDINAL_COUNT,
{
    let dx = to.0 - from.0;
    let dy = to.1 - from.1;
    if dx == 0 {
        if dy == 1 {
            0
        } else {
            1
        }
    } else if dx == 1 {
        if dy == 0 {
            2
        } else if dy == 1 {
            4
        } else {
            5
        }
    } else {
        if dy == 0 {
            3
        } else if dy == 1 {
            6
        } else {
            7
        }
    }
}

/// Turning around twice leads back to the same direction.
pub proof fn law_reverse_twice(dir: i32)
    ensures
        opposite(opposite(dir)) == dir,
{
}

/// The way back along a cardinal step leaves through the opposite edge.
pub proof fn law_reverse_is_the_way_back(a: Coord, b: Coord)
    requires
        is_cardinal_step(a, b),
    ensures
        step_direction(b, a) == opposite(step_direction(a, b)),
{
}

/// A mask holds the bit of an edge exactly if that edge is open.
pub proof fn law_edge_mask(north: bool, south: bool, east: bool, west: bool)
    ensures
        has_flag(edge_mask(north, south, east, west), NORTH) == north,
        has_flag(edge_mask(north, south, east, west), SOUTH) == south,
        has_flag(edge_mask(north, south, east, west), EAST) == east,
        has_flag(edge_mask(north, south, east, west), WEST) == west,
{
    let mask = edge_mask(north, south, east, west);
    assert(forall|m: i32|
        0 <= m < 16 ==> ((#[trigger] (m & 1) != 0) == (m % 2 == 1)) && ((m & 2 != 0) == (m % 4 >= 2)) && ((m
            & 4 != 0) == (m % 8 >= 4)) && ((m & 8 != 0) == (m >= 8))) by (bit_vector);
    assert(0 <= mask < 16);
    assert((mask & 1 != 0) == (mask % 2 == 1));
}

/// Setting the bit of a cardinal direction in a mask that lacks it adds the bit.
pub(crate) proof fn lemma_or_adds(mask: i32)
    requires
        0 <= mask < 16,
    ensures
        mask % 2 < 1 ==> mask | 1 == mask + 1,
        mask % 4 < 2 ==> mask | 2 == mask + 2,
        mask % 8 < 4 ==> mask | 4 == mask + 4,
        mask < 8 ==> mask | 8 == mask + 8,
{
    assert(mask % 2 < 1 ==> mask | 1 == mask + 1) by (bit_vector)
        requires
            0 <= mask < 16,
    ;
    assert(mask % 4 < 2 ==> mask | 2 == mask + 2) by (bit_vector)
        requires
            0 <= mask < 16,
    ;
    assert(mask % 8 < 4 ==> mask | 4 == mask + 4) by (bit_vector)
        requires
            0 <= mask < 16,
    ;
    assert(mask < 8 ==> mask | 8 == mask + 8) by (bit_vector)
        requires
            0 <= mask < 16,
    ;
}

} // verus!
