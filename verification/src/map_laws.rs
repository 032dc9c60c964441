//! What steps, routes and distances mean on the map itself: columns, rows and edge bits.
use vstd::prelude::*;
use crate::coord::{
    chebyshev, is_allowed, is_interior, octile, range_heuristic, step_cost, Coord,
};
use crate::direction::{cardinal_at, neighbour_at, opposite, step_direction};
use crate::grid::{
    legal_cardinal, legal_detour, legal_step, occupiable, GridRules, World,
};
use crate::path::{legal_chain, legal_leg};
use crate::search_model::{is_route, route_cost};

verus! {

/// The two coordinates lie within `reach` columns and `reach` rows of each other.
pub open spec fn within(a: Coord, b: Coord, reach: int) -> bool {
    &&& -reach <= a.0 - b.0 <= reach
    &&& -reach <= a.1 - b.1 <= reach
}

/// Who keeps to the rules may stand at `c`: there is a turf, a simulated one if need be, not
/// the one to avoid, and in range of the start if there is a range.
pub open spec fn standable(rules: GridRules, world: World, c: Coord) -> bool {
    &&& world(c) matches Some(turf) && (turf.simulated || !rules.simulated_only)
    &&& rules.avoid != Some(c)
    &&& rules.max_range > 0 ==> within(c, rules.start, rules.max_range as int)
}

/// The bit of the edge by which `dx` columns and `dy` rows lead away: the lowest bit for the
/// row above, then the row below, the column to the right, the column to the left.
pub open spec fn edge_bit(dx: int, dy: int) -> i32 {
    if dy == 1 {
        0x1
    } else if dy == -1 {
        0x2
    } else if dx == 1 {
        0x4
    } else {
        0x8
    }
}

/// The turf at `from` can be left by `dx` columns or `dy` rows, and `to` can be stood on.
pub open spec fn way(rules: GridRules, world: World, from: Coord, to: Coord) -> bool {
    let dx = to.0 - from.0;
    let dy = to.1 - from.1;
    &&& (dx == 0 && (dy == 1 || dy == -1)) || (dy == 0 && (dx == 1 || dx == -1))
    &&& world(from) matches Some(turf) && turf.open_edges & edge_bit(dx, dy) != 0
    &&& standable(rules, world, to)
}

/// One step leads from `from` to `to`: through an edge, or across a corner around which one of
/// the two ways, vertical first or horizontal first, is open.
pub open spec fn walk(rules: GridRules, world: World, from: Coord, to: Coord) -> bool {
    let dx = to.0 - from.0;
    let dy = to.1 - from.1;
    if (dx == 1 || dx == -1) && (dy == 1 || dy == -1) {
        ||| way(rules, world, from, (from.0, to.1)) && way(rules, world, (from.0, to.1), to)
        ||| way(rules, world, from, (to.0, from.1)) && way(rules, world, (to.0, from.1), to)
    } else {
        way(rules, world, from, to)
    }
}

/// The leg that starts at node `i` is one step.
pub open spec fn walks(rules: GridRules, world: World, path: Seq<Coord>, i: int) -> bool {
    walk(rules, world, path[i], path[i + 1])
}

/// A way from `start` to within `reach` of `goal`, step by step.
pub open spec fn leads(
    rules: GridRules,
    world: World,
    start: Coord,
    goal: Coord,
    reach: int,
    path: Seq<Coord>,
) -> bool {
    &&& path.len() > 0
    &&& path[0] == start
    &&& standable(rules, world, start)
    &&& forall|i: int| 0 <= i < path.len() - 1 ==> #[trigger] walks(rules, world, path, i)
    &&& within(path.last(), goal, reach)
}

/// How many legs of a path change both the column and the row.
pub open spec fn diagonal_legs(path: Seq<Coord>) -> nat
    decreases path.len(),
{
    if path.len() <= 1 {
        0
    } else {
        let a = path[path.len() - 2];
        let b = path.last();
        diagonal_legs(path.drop_last()) + (if a.0 != b.0 && a.1 != b.1 {
            1nat
        } else {
            0nat
        })
    }
}

/// A coordinate is allowed exactly if it is not the one to avoid, and lies in range of the
/// start where there is a range.
pub proof fn law_allowed_coordinates(c: Coord, start: Coord, max_range: i32, avoid: Option<Coord>)
    ensures
        is_allowed(c, start, max_range, avoid) <==> avoid != Some(c) && (max_range > 0 ==> within(
            c,
            start,
            max_range as int,
        )),
{
}

/// A search may stand on a coordinate exactly if one can stand there.
pub proof fn law_occupiable_is_standable(rules: GridRules, world: World, c: Coord)
    ensures
        occupiable(rules, world, c) <==> standable(rules, world, c),
{
}

/// A step along one axis is legal exactly if it leads through an open edge to where one can
/// stand.
pub proof fn law_cardinal_step_is_a_way(rules: GridRules, world: World, a: Coord, b: Coord)
    ensures
        legal_cardinal(rules, world, a, b) <==> way(rules, world, a, b),
{
    law_occupiable_is_standable(rules, world, b);
}

/// A detour over `via` is legal exactly if both of its ways are open.
pub proof fn law_detour_is_two_ways(rules: GridRules, world: World, a: Coord, via: Coord, b: Coord)
    ensures
        legal_detour(rules, world, a, via, b) <==> way(rules, world, a, via) && way(
            rules,
            world,
            via,
            b,
        ),
{
    law_cardinal_step_is_a_way(rules, world, a, via);
    law_cardinal_step_is_a_way(rules, world, via, b);
}

/// A step is legal exactly if it can be walked.
pub proof fn law_legal_step_is_a_walk(rules: GridRules, world: World, a: Coord, b: Coord)
    ensures
        legal_step(rules, world, a, b) <==> walk(rules, world, a, b),
{
    law_cardinal_step_is_a_way(rules, world, a, b);
    law_detour_is_two_ways(rules, world, a, (a.0, b.1), b);
    law_detour_is_two_ways(rules, world, a, (b.0, a.1), b);
}

/// The nodes of a path are legal steps apart exactly if each leg can be walked.
pub proof fn law_legal_chain_is_walked(rules: GridRules, world: World, path: Seq<Coord>)
    ensures
        legal_chain(rules, world, path) <==> forall|i: int|
            0 <= i < path.len() - 1 ==> #[trigger] walks(rules, world, path, i),
{
    assert forall|i: int| 0 <= i < path.len() - 1 implies #[trigger] walks(rules, world, path, i)
        == legal_leg(rules, world, path, i) by {
        law_legal_step_is_a_walk(rules, world, path[i], path[i + 1]);
    }
    if legal_chain(rules, world, path) {
        assert forall|i: int| 0 <= i < path.len() - 1 implies #[trigger] walks(
            rules,
            world,
            path,
            i,
        ) by {
            assert(legal_leg(rules, world, path, i));
        }
    } else {
        let i = choose|i: int| 0 <= i < path.len() - 1 && !#[trigger] legal_leg(
            rules,
            world,
            path,
            i,
        );
        assert(!walks(rules, world, path, i));
    }
}

/// A route is a way on the map from the start to within the target distance of the goal, and
/// every such way is a route.
pub proof fn law_route_leads_to_the_goal(
    rules: GridRules,
    world: World,
    goal: Coord,
    distance: int,
    path: Seq<Coord>,
)
    ensures
        is_route(rules, world, goal, distance, path) <==> leads(
            rules,
            world,
            rules.start,
            goal,
            distance,
            path,
        ),
{
    law_legal_chain_is_walked(rules, world, path);
    law_occupiable_is_standable(rules, world, rules.start);
}

/// A route costs ten for each step, and four more for each diagonal one.
pub proof fn law_route_cost_counts_steps(path: Seq<Coord>)
    requires
        path.len() > 0,
    ensures
        route_cost(path) == 10 * (path.len() - 1) + 4 * diagonal_legs(path),
    decreases path.len(),
{
    if path.len() > 1 {
        law_route_cost_counts_steps(path.drop_last());
    }
}

/// The octile distance is what the cheapest mix of steps costs: any `diagonal` diagonal steps
/// with `across` and `along` cardinal ones that cover the columns and the rows cost no less,
/// and some cost just as much.
pub proof fn law_octile_is_the_cheapest_mix(
    dx: nat,
    dy: nat,
    diagonal: nat,
    across: nat,
    along: nat,
)
    ensures
        diagonal + across >= dx && diagonal + along >= dy ==> octile(dx as int, dy as int) <= 14
            * diagonal + 10 * across + 10 * along,
        ({
            let d = if dx < dy {
                dx
            } else {
                dy
            };
            octile(dx as int, dy as int) == 14 * d + 10 * (dx - d) + 10 * (dy - d)
        }),
{
}

/// The heuristic is the octile distance to the nearest coordinate within the target distance:
/// it is no more than the one to any such coordinate, and nothing for those within themselves.
pub proof fn law_heuristic_measures_to_the_target_range(
    coord: Coord,
    goal: Coord,
    reach: int,
    x: int,
    y: int,
)
    requires
        reach >= 0,
        -reach <= x - goal.0 <= reach,
        -reach <= y - goal.1 <= reach,
    ensures
        ({
            let dx = if x < coord.0 {
                coord.0 - x
            } else {
                x - coord.0
            };
            let dy = if y < coord.1 {
                coord.1 - y
            } else {
                y - coord.1
            };
            range_heuristic(coord, goal, reach) <= octile(dx, dy)
        }),
        within(coord, goal, reach) <==> range_heuristic(coord, goal, reach) == 0,
{
}

/// The heuristic counts the columns and rows beyond the target distance alone, whatever that
/// distance is.
pub proof fn law_heuristic_counts_what_is_beyond(coord: Coord, goal: Coord, reach: int)
    requires
        coord.0 >= goal.0,
        coord.1 >= goal.1,
    ensures
        coord.0 - goal.0 >= reach && coord.1 - goal.1 >= reach ==> range_heuristic(
            coord,
            goal,
            reach,
        ) == octile(coord.0 - goal.0 - reach, coord.1 - goal.1 - reach),
        coord.0 - goal.0 >= reach && coord.1 - goal.1 <= reach ==> range_heuristic(
            coord,
            goal,
            reach,
        ) == 10 * (coord.0 - goal.0 - reach),
        coord.0 - goal.0 <= reach && coord.1 - goal.1 <= reach ==> range_heuristic(
            coord,
            goal,
            reach,
        ) == 0,
{
}

/// The heuristic does not tell left from right, up from down, or columns from rows.
pub proof fn law_heuristic_is_symmetric(coord: Coord, goal: Coord, reach: int)
    ensures
        range_heuristic(coord, goal, reach) == range_heuristic(goal, coord, reach),
        range_heuristic((coord.0, goal.1), (goal.0, coord.1), reach) == range_heuristic(
            coord,
            goal,
            reach,
        ),
        range_heuristic((coord.1, coord.0), (goal.1, goal.0), reach) == range_heuristic(
            coord,
            goal,
            reach,
        ),
{
}

/// Coordinates are within a distance by the count of king's moves exactly if their columns and
/// rows are.
pub proof fn law_distance_counts_columns_and_rows(a: Coord, b: Coord, reach: int)
    ensures
        chebyshev(a, b) <= reach <==> within(a, b, reach),
{
}

/// A coordinate is interior exactly if no neighbour of it lies beyond the numbers of 16 bits.
pub proof fn law_interior_has_all_neighbours(c: Coord)
    ensures
        is_interior(c) <==> forall|dx: int, dy: int|
            -1 <= dx <= 1 && -1 <= dy <= 1 ==> -32768 <= #[trigger] (c.0 + dx) <= 32767 && -32768
                <= #[trigger] (c.1 + dy) <= 32767,
{
    if !is_interior(c) {
        if c.0 == -32768 {
            let x = c.0 + (-1int);
            let y = c.1 + 0int;
            assert(!(-32768 <= x <= 32767));
            assert(-1 <= -1int <= 1 && -1 <= 0int <= 1);
        } else if c.0 == 32767 {
            let x = c.0 + 1int;
            let y = c.1 + 0int;
            assert(!(-32768 <= x <= 32767));
        } else if c.1 == -32768 {
            let x = c.0 + 0int;
            let y = c.1 + (-1int);
            assert(!(-32768 <= y <= 32767));
        } else {
            let x = c.0 + 0int;
            let y = c.1 + 1int;
            assert(!(-32768 <= y <= 32767));
        }
    }
}

/// The steps that are considered from a coordinate, in their order: up, down, right, left, then
/// up to the right, down to the right, up to the left, down to the left.
pub proof fn law_steps_come_in_order(from: Coord)
    requires
        is_interior(from),
    ensures
        neighbour_at(from, 0) == (from.0, (from.1 + 1) as i16),
        neighbour_at(from, 1) == (from.0, (from.1 - 1) as i16),
        neighbour_at(from, 2) == ((from.0 + 1) as i16, from.1),
        neighbour_at(from, 3) == ((from.0 - 1) as i16, from.1),
        neighbour_at(from, 4) == ((from.0 + 1) as i16, (from.1 + 1) as i16),
        neighbour_at(from, 5) == ((from.0 + 1) as i16, (from.1 - 1) as i16),
        neighbour_at(from, 6) == ((from.0 - 1) as i16, (from.1 + 1) as i16),
        neighbour_at(from, 7) == ((from.0 - 1) as i16, (from.1 - 1) as i16),
{
}

/// A direction is the bit of the edge it leads through, the opposite one that of the way back;
/// what is no direction has no opposite.
pub proof fn law_directions_are_edge_bits(from: Coord, i: int, other: i32)
    requires
        is_interior(from),
        0 <= i < 4,
        other != 1 && other != 2 && other != 4 && other != 8,
    ensures
        ({
            let to = neighbour_at(from, i);
            let dx = to.0 - from.0;
            let dy = to.1 - from.1;
            &&& cardinal_at(i) == edge_bit(dx, dy)
            &&& step_direction(from, to) == edge_bit(dx, dy)
            &&& step_direction(to, from) == edge_bit(-dx, -dy)
            &&& opposite(cardinal_at(i)) == edge_bit(-dx, -dy)
        }),
        opposite(other) == other,
{
}

/// A step costs ten along one axis, and fourteen across a corner.
pub proof fn law_step_costs(a: Coord, b: Coord)
    ensures
        a.0 == b.0 || a.1 == b.1 ==> step_cost(a, b) == 10,
        a.0 != b.0 && a.1 != b.1 ==> step_cost(a, b) == 14,
{
}

} // verus!
