//! Which turfs a grid asks for, and in which order it goes through the steps.
use vstd::prelude::*;
use crate::coord::{is_interior, Coord};
use crate::direction::{neighbour_at, STEP_COUNT};
use crate::grid::{
    detour, horizontal_direction, known, occupancy, open_steps, routes, step_open, successor_steps,
    vertical_direction, Cells, DiagonalRoutes, GridRules, TurfInfo, UnknownTurf,
};
use crate::map_laws::{edge_bit, law_steps_come_in_order, within};

verus! {

/// The rules do not keep a search away from the coordinate.
pub open spec fn in_reach(rules: GridRules, c: Coord) -> bool {
    &&& rules.avoid != Some(c)
    &&& rules.max_range > 0 ==> within(c, rules.start, rules.max_range as int)
}

/// A turf was seen at the coordinate on which one can stand.
pub open spec fn seen_standable(rules: GridRules, cells: Cells, c: Coord) -> bool {
    &&& in_reach(rules, c)
    &&& cells.contains_key(c)
    &&& cells[c] matches Some(turf) && (turf.simulated || !rules.simulated_only)
}

/// Whether one can stand on a coordinate is asked of the host only where the rules do not decide
/// it and the turf was not seen yet.
pub proof fn law_turf_is_asked_for_only_in_reach(rules: GridRules, cells: Cells, c: Coord)
    ensures
        in_reach(rules, c) && !cells.contains_key(c) ==> occupancy(rules, cells, c) == Err::<
            bool,
            UnknownTurf,
        >(UnknownTurf { coord: c }),
        !in_reach(rules, c) || cells.contains_key(c) ==> occupancy(rules, cells, c) == Ok::<
            bool,
            UnknownTurf,
        >(seen_standable(rules, cells, c)),
{
}

/// The coordinate to ask for before one can tell whether one can stand on `c`.
pub open spec fn asks_to_stand(rules: GridRules, cells: Cells, c: Coord) -> Option<Coord> {
    if in_reach(rules, c) && !cells.contains_key(c) {
        Some(c)
    } else {
        None
    }
}

/// The bit of the edge that leads up or down towards `to`.
pub open spec fn bit_up_or_down(from: Coord, to: Coord) -> i32 {
    if to.1 > from.1 {
        0x1
    } else {
        0x2
    }
}

/// The bit of the edge that leads right or left towards `to`.
pub open spec fn bit_right_or_left(from: Coord, to: Coord) -> i32 {
    if to.0 > from.0 {
        0x4
    } else {
        0x8
    }
}

/// The coordinate to ask for before one can tell whether the way that leaves a seen turf by the
/// edge `first` and `via` by the edge `second` is open: nothing beyond the first edge or turf
/// that bars it.
pub open spec fn asks_on_the_way(
    rules: GridRules,
    cells: Cells,
    from: Coord,
    first: i32,
    via: Coord,
    second: i32,
    to: Coord,
) -> Option<Coord> {
    if (cells[from]->0).open_edges & first == 0 {
        None
    } else if asks_to_stand(rules, cells, via) is Some {
        Some(via)
    } else if !seen_standable(rules, cells, via) || (cells[via]->0).open_edges & second == 0 {
        None
    } else {
        asks_to_stand(rules, cells, to)
    }
}

/// The way that leaves a seen turf by the edge `first` and `via` by the edge `second` is known
/// to be open.
pub open spec fn seen_open(
    rules: GridRules,
    cells: Cells,
    from: Coord,
    first: i32,
    via: Coord,
    second: i32,
    to: Coord,
) -> bool {
    &&& (cells[from]->0).open_edges & first != 0
    &&& seen_standable(rules, cells, via)
    &&& (cells[via]->0).open_edges & second != 0
    &&& seen_standable(rules, cells, to)
}

/// The coordinate to ask for before the ways around a corner are known: those of the
/// vertical-first way come first.
pub open spec fn asks_around(rules: GridRules, cells: Cells, from: Coord, to: Coord) -> Option<Coord> {
    let vertical = bit_up_or_down(from, to);
    let horizontal = bit_right_or_left(from, to);
    if !cells.contains_key(from) {
        Some(from)
    } else if cells[from] is None {
        None
    } else {
        match asks_on_the_way(rules, cells, from, vertical, (from.0, to.1), horizontal, to) {
            Some(c) => Some(c),
            None => asks_on_the_way(
                rules,
                cells,
                from,
                horizontal,
                (to.0, from.1),
                vertical,
                to,
            ),
        }
    }
}

proof fn lemma_detour_asks(
    rules: GridRules,
    cells: Cells,
    source: TurfInfo,
    from: Coord,
    first: i32,
    via: Coord,
    second: i32,
    to: Coord,
)
    requires
        cells.contains_key(from),
        cells[from] == Some(source),
    ensures
        detour(rules, cells, source, first, via, second, to) is Ok <==> asks_on_the_way(
            rules,
            cells,
            from,
            first,
            via,
            second,
            to,
        ) is None,
        detour(rules, cells, source, first, via, second, to) matches Err(e) ==> asks_on_the_way(
            rules,
            cells,
            from,
            first,
            via,
            second,
            to,
        ) == Some(e.coord),
        detour(rules, cells, source, first, via, second, to) matches Ok(open) ==> open == seen_open(
            rules,
            cells,
            from,
            first,
            via,
            second,
            to,
        ),
{
    law_turf_is_asked_for_only_in_reach(rules, cells, via);
    law_turf_is_asked_for_only_in_reach(rules, cells, to);
}

/// The ways around a corner ask for the turfs along them in turn, and for no other; once they
/// are known, each is open exactly if its edges are and one can stand along it.
pub proof fn law_corner_asks_along_its_ways(rules: GridRules, cells: Cells, from: Coord, to: Coord)
    ensures
        match asks_around(rules, cells, from, to) {
            Some(c) => routes(rules, cells, from, to) == Err::<DiagonalRoutes, UnknownTurf>(
                UnknownTurf { coord: c },
            ),
            None => routes(rules, cells, from, to) matches Ok(ways) && {
                let vertical = bit_up_or_down(from, to);
                let horizontal = bit_right_or_left(from, to);
                &&& ways.north_south_first <==> cells[from] is Some && seen_open(
                    rules,
                    cells,
                    from,
                    vertical,
                    (from.0, to.1),
                    horizontal,
                    to,
                )
                &&& ways.east_west_first <==> cells[from] is Some && seen_open(
                    rules,
                    cells,
                    from,
                    horizontal,
                    (to.0, from.1),
                    vertical,
                    to,
                )
            },
        },
{
    if cells.contains_key(from) && cells[from] is Some {
        let source = cells[from]->0;
        let vertical = bit_up_or_down(from, to);
        let horizontal = bit_right_or_left(from, to);
        let a: Coord = (from.0, to.1);
        let b: Coord = (to.0, from.1);
        law_corner_directions(from, to);
        lemma_detour_asks(rules, cells, source, from, vertical, a, horizontal, to);
        lemma_detour_asks(rules, cells, source, from, horizontal, b, vertical, to);
    }
}

/// The ways around a corner lead up or down by the row of their end, and right or left by its
/// column.
pub proof fn law_corner_directions(from: Coord, to: Coord)
    ensures
        to.1 > from.1 ==> vertical_direction(from, to) == 1,
        to.1 <= from.1 ==> vertical_direction(from, to) == 2,
        to.0 > from.0 ==> horizontal_direction(from, to) == 4,
        to.0 <= from.0 ==> horizontal_direction(from, to) == 8,
{
}

/// The coordinate that the `i`-th step asks for.
pub open spec fn step_asks(rules: GridRules, cells: Cells, from: Coord, i: int) -> Option<Coord> {
    let to = neighbour_at(from, i);
    if i < 4 {
        if (cells[from]->0).open_edges & edge_bit(to.0 - from.0, to.1 - from.1) == 0 {
            None
        } else {
            asks_to_stand(rules, cells, to)
        }
    } else {
        asks_around(rules, cells, from, to)
    }
}

proof fn lemma_step_asks(rules: GridRules, cells: Cells, from: Coord, i: int)
    requires
        is_interior(from),
        cells.contains_key(from),
        cells[from] is Some,
        0 <= i < 8,
    ensures
        match step_asks(rules, cells, from, i) {
            Some(c) => step_open(rules, cells, cells[from]->0, from, i) == Err::<bool, UnknownTurf>(
                UnknownTurf { coord: c },
            ),
            None => step_open(rules, cells, cells[from]->0, from, i) is Ok,
        },
{
    law_steps_come_in_order(from);
    let to = neighbour_at(from, i);
    law_turf_is_asked_for_only_in_reach(rules, cells, to);
    if i >= 4 {
        law_corner_asks_along_its_ways(rules, cells, from, to);
    }
}

proof fn lemma_steps_ask_in_turn(rules: GridRules, cells: Cells, from: Coord, n: nat)
    requires
        is_interior(from),
        cells.contains_key(from),
        cells[from] is Some,
        n <= 8,
    ensures
        open_steps(rules, cells, cells[from]->0, from, n) is Ok <==> forall|i: int|
            0 <= i < n ==> (#[trigger] step_asks(rules, cells, from, i)) is None,
        open_steps(rules, cells, cells[from]->0, from, n) matches Err(e) ==> exists|k: int|
            0 <= k < n && #[trigger] step_asks(rules, cells, from, k) == Some(e.coord) && forall|
                i: int,
            |
                0 <= i < k ==> (#[trigger] step_asks(rules, cells, from, i)) is None,
    decreases n,
{
    if n > 0 {
        lemma_steps_ask_in_turn(rules, cells, from, (n - 1) as nat);
        lemma_step_asks(rules, cells, from, n - 1);
        if open_steps(rules, cells, cells[from]->0, from, (n - 1) as nat) is Err {
            let k = choose|k: int|
                0 <= k < n - 1 && (#[trigger] step_asks(rules, cells, from, k)) is Some;
            assert(step_asks(rules, cells, from, k) is Some);
        } else {
            assert(step_asks(rules, cells, from, n - 1) is None || step_asks(
                rules,
                cells,
                from,
                n - 1,
            ) is Some);
        }
    }
}

/// The successors of a coordinate ask for its own turf first, then for what each step asks for,
/// in the order of the steps; they are known exactly if no step asks.
pub proof fn law_successors_ask_in_turn(rules: GridRules, cells: Cells, from: Coord)
    requires
        is_interior(from),
    ensures
        !cells.contains_key(from) ==> successor_steps(rules, cells, from) == Err::<
            Seq<(Coord, u32)>,
            UnknownTurf,
        >(UnknownTurf { coord: from }),
        cells.contains_key(from) && cells[from] is None ==> (successor_steps(rules, cells, from)
            matches Ok(steps) && steps.len() == 0),
        cells.contains_key(from) && cells[from] is Some ==> {
            &&& successor_steps(rules, cells, from) is Ok <==> forall|i: int|
                0 <= i < 8 ==> (#[trigger] step_asks(rules, cells, from, i)) is None
            &&& successor_steps(rules, cells, from) matches Err(e) ==> exists|k: int|
                0 <= k < 8 && #[trigger] step_asks(rules, cells, from, k) == Some(e.coord)
                    && forall|i: int|
                    0 <= i < k ==> (#[trigger] step_asks(rules, cells, from, i)) is None
        },
{
    if cells.contains_key(from) && cells[from] is Some {
        lemma_steps_ask_in_turn(rules, cells, from, STEP_COUNT as nat);
    }
}

/// The place of a step in the order: up, down, right, left, then up and down to the right, up
/// and down to the left.
pub open spec fn place_of_step(from: Coord, to: Coord) -> int {
    let dx = to.0 - from.0;
    let dy = to.1 - from.1;
    if dx == 0 {
        if dy == 1 {
            0
        } else {
            1
        }
    } else if dy == 0 {
        if dx == 1 {
            2
        } else {
            3
        }
    } else if dx == 1 {
        if dy == 1 {
            4
        } else {
            5
        }
    } else {
        if dy == 1 {
            6
        } else {
            7
        }
    }
}

proof fn lemma_steps_in_order(rules: GridRules, cells: Cells, source: TurfInfo, from: Coord, n: nat)
    requires
        is_interior(from),
        n <= 8,
        open_steps(rules, cells, source, from, n) is Ok,
    ensures
        ({
            let steps = open_steps(rules, cells, source, from, n)->Ok_0;
            &&& forall|j: int|
                0 <= j < steps.len() ==> place_of_step(from, (#[trigger] steps[j]).0) < n
            &&& forall|i: int, j: int|
                0 <= i < j < steps.len() ==> place_of_step(from, (#[trigger] steps[i]).0)
                    < place_of_step(from, (#[trigger] steps[j]).0)
        }),
    decreases n,
{
    if n > 0 {
        lemma_steps_in_order(rules, cells, source, from, (n - 1) as nat);
        law_steps_come_in_order(from);
        assert(place_of_step(from, neighbour_at(from, n - 1)) == n - 1);
    }
}

/// The successors of a coordinate come in the order of the steps, each of them once.
pub proof fn law_successors_come_in_order(rules: GridRules, cells: Cells, from: Coord, i: int, j: int)
    requires
        is_interior(from),
        successor_steps(rules, cells, from) is Ok,
        0 <= i < j < successor_steps(rules, cells, from)->Ok_0.len(),
    ensures
        ({
            let steps = successor_steps(rules, cells, from)->Ok_0;
            place_of_step(from, steps[i].0) < place_of_step(from, steps[j].0)
        }),
{
    match known(cells, from) {
        Ok(Some(source)) => lemma_steps_in_order(rules, cells, source, from, STEP_COUNT as nat),
        _ => {},
    }
}

} // verus!
