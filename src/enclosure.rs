//! Rays inside a grid whose border is solid always meet a wall.
use vstd::prelude::*;

use crate::angle::{cosine, lemma_direction_nonzero, sine, TrigTable};
use crate::caster::{
    across, along, cast_inputs, crossing_hits, first_hit_from, first_line, horizontal_reach,
    lemma_reach_bounds, line_at, march_spec, ray_spec, vertical_reach, ESCAPED,
};
use crate::geometry::one;
use crate::grid::{cell_in_range, GridMap};
use crate::state::can_stand;

verus! {

/// Whether every border cell of the grid is a wall.
pub open spec fn walled(grid: GridMap) -> bool {
    forall|r: int, c: int|
        cell_in_range(grid.side as int, r, c) && (r == 0 || c == 0 || r == grid.side - 1 || c
            == grid.side - 1) ==> #[trigger] grid.wall(r, c)
}

/// Whether a coordinate lies in an inner row or column of a grid.
pub open spec fn inner(side: int, v: int) -> bool {
    one() <= v < (side - 1) * one()
}

/// The crossing, along a march from `a` in direction sign of `da`, of the
/// last grid line before the border cell.
pub open spec fn border_index(a: int, da: int, side: int) -> int {
    if da > 0 {
        (side - 1) - first_line(a, true)
    } else {
        first_line(a, false) - 1
    }
}

/// Distance along the axis from `a` to that border line.
pub open spec fn border_run(a: int, da: int, side: int) -> int {
    if da > 0 {
        (side - 1) * one() - a
    } else {
        a - one()
    }
}

/// A crossing that enters a wall below the budget makes the search succeed.
proof fn lemma_hit_found(
    grid: GridMap,
    a: int,
    b: int,
    da: int,
    db: int,
    transposed: bool,
    i: int,
    m: int,
    budget: int,
)
    requires
        0 <= i <= m < budget,
        crossing_hits(grid, a, b, da, db, transposed, m),
    ensures
        first_hit_from(grid, a, b, da, db, transposed, i, budget) is Some,
    decreases m - i,
{
    if i < m && !crossing_hits(grid, a, b, da, db, transposed, i) {
        lemma_hit_found(grid, a, b, da, db, transposed, i + 1, m, budget);
    }
}

/// From an inner coordinate the border line is crossed within the budget.
proof fn lemma_border_crossing(a: int, da: int, side: int)
    requires
        side >= 3,
        inner(side, a),
        da != 0,
    ensures
        0 <= border_index(a, da, side) < side,
        line_at(a, da > 0, border_index(a, da, side)) == (if da > 0 { side - 1 } else { 1 }),
        along(a, da > 0, border_index(a, da, side)) == (if da > 0 {
            border_run(a, da, side)
        } else {
            -border_run(a, da, side)
        }),
        border_run(a, da, side) >= 0,
{
}

/// A march whose crossing of the border line lands inside the grid meets a
/// wall there or before.
proof fn lemma_border_hit(grid: GridMap, a: int, b: int, da: int, db: int, transposed: bool)
    requires
        grid.wf(),
        walled(grid),
        grid.side >= 3,
        inner(grid.side as int, a),
        da != 0,
        0 <= b + across(a, da, db, border_index(a, da, grid.side as int)) < grid.side * one(),
    ensures
        march_spec(grid, a, b, da, db, transposed) is Some,
{
    let side = grid.side as int;
    let i = border_index(a, da, side);
    lemma_border_crossing(a, da, side);
    let beside = (b + across(a, da, db, i)) / one();
    assert(0 <= beside < side);
    assert(crossing_hits(grid, a, b, da, db, transposed, i));
    lemma_hit_found(grid, a, b, da, db, transposed, 0, i, side);
}

/// A floor quotient times the divisor lies within one divisor below `n`.
proof fn lemma_floor_bounds(n: int, d: int)
    requires
        d > 0,
    ensures
        (n / d) * d <= n < (n / d) * d + d,
{
    assert(n == (n / d) * d + n % d && 0 <= n % d < d) by (nonlinear_arith)
        requires
            d > 0,
    ;
}

/// When a march's crossing of its border line lands off the grid, the march
/// along the other axis crosses its own border line inside the grid.
proof fn lemma_other_axis(side: int, a: int, b: int, da: int, db: int)
    requires
        side >= 3,
        inner(side, a),
        inner(side, b),
        da != 0,
        -one() <= da <= one(),
        -one() <= db <= one(),
        !(0 <= b + across(a, da, db, border_index(a, da, side)) < side * one()),
    ensures
        db != 0,
        0 <= a + across(b, db, da, border_index(b, db, side)) < side * one(),
{
    lemma_border_crossing(a, da, side);
    let big_a = if da > 0 { da } else { -da };
    let run1 = border_run(a, da, side);
    let q1 = across(a, da, db, border_index(a, da, side));
    assert(q1 == (run1 * db) / big_a);
    lemma_floor_bounds(run1 * db, big_a);
    if db == 0 {
        assert(run1 * db == 0);
        assert(q1 == 0);
        assert(false);
    }
    lemma_border_crossing(b, db, side);
    let big_b = if db > 0 { db } else { -db };
    let run2 = border_run(b, db, side);
    let q2 = across(b, db, da, border_index(b, db, side));
    assert(q2 == (run2 * da) / big_b);
    lemma_floor_bounds(run2 * da, big_b);
    if b + q1 < 0 {
        // The march leaves through the low side of the other axis.
        assert(q1 < 0);
        if db > 0 {
            assert(run1 * db >= 0) by (nonlinear_arith)
                requires
                    run1 >= 0,
                    db > 0,
            ;
            assert(false);
        }
        assert(run1 * big_b > b * big_a) by (nonlinear_arith)
            requires
                q1 * big_a <= run1 * db < q1 * big_a + big_a,
                q1 <= -b - 1,
                big_b == -db,
                big_a > 0,
        ;
        assert(run2 == b - one());
        assert(run2 * big_a < run1 * big_b) by (nonlinear_arith)
            requires
                run2 == b - 65536,
                run1 * big_b > b * big_a,
                big_a > 0,
        ;
        if da > 0 {
            assert(run2 * da >= 0) by (nonlinear_arith)
                requires
                    run2 >= 0,
                    da > 0,
            ;
            assert(q2 * big_b < run1 * big_b);
            assert(q2 < run1) by (nonlinear_arith)
                requires
                    q2 * big_b < run1 * big_b,
                    big_b > 0,
            ;
            assert(q2 > -1) by (nonlinear_arith)
                requires
                    0 <= run2 * da < q2 * big_b + big_b,
                    big_b > 0,
            ;
        } else {
            assert(-run1 <= q2 <= 0) by (nonlinear_arith)
                requires
                    q2 * big_b <= run2 * da < q2 * big_b + big_b,
                    da == -big_a,
                    run2 * big_a < run1 * big_b,
                    run2 >= 0,
                    big_b > 0,
                    big_a > 0,
            ;
        }
    } else {
        // The march leaves through the high side of the other axis.
        assert(b + q1 >= side * one());
        assert(q1 > 0);
        if db < 0 {
            assert(run1 * db <= 0) by (nonlinear_arith)
                requires
                    run1 >= 0,
                    db < 0,
            ;
            assert(false);
        }
        assert(run1 * big_b >= (side * one() - b) * big_a) by (nonlinear_arith)
            requires
                q1 * big_a <= run1 * db,
                q1 >= side * 65536 - b,
                big_b == db,
                big_a > 0,
        ;
        assert(run2 == (side - 1) * one() - b);
        assert(run2 * big_a < run1 * big_b) by (nonlinear_arith)
            requires
                run2 == (side - 1) * 65536 - b,
                run1 * big_b >= (side * 65536 - b) * big_a,
                big_a > 0,
        ;
        if da > 0 {
            assert(run2 * da >= 0) by (nonlinear_arith)
                requires
                    run2 >= 0,
                    da > 0,
            ;
            assert(q2 * big_b < run1 * big_b);
            assert(q2 < run1) by (nonlinear_arith)
                requires
                    q2 * big_b < run1 * big_b,
                    big_b > 0,
            ;
            assert(q2 > -1) by (nonlinear_arith)
                requires
                    0 <= run2 * da < q2 * big_b + big_b,
                    big_b > 0,
            ;
        } else {
            assert(-run1 <= q2 <= 0) by (nonlinear_arith)
                requires
                    q2 * big_b <= run2 * da < q2 * big_b + big_b,
                    da == -big_a,
                    run2 * big_a < run1 * big_b,
                    run2 >= 0,
                    big_b > 0,
                    big_a > 0,
            ;
        }
    }
}

/// In a grid whose border cells are all walls, every ray cast from a place
/// where the player may stand meets a wall: its distance is finite,
/// non-negative and below `ESCAPED`, whatever the angle.
pub proof fn lemma_walled_grid_ray_meets_wall(
    grid: GridMap,
    t: TrigTable,
    x: int,
    y: int,
    facing: int,
    angle: int,
)
    requires
        cast_inputs(grid, t, x, y, facing, angle),
        walled(grid),
        grid.side >= 3,
        can_stand(grid, x, y),
    ensures
        0 <= ray_spec(grid, t.quarter@, x, y, facing, angle).distance < ESCAPED,
{
    let side = grid.side as int;
    let c = cosine(t.quarter@, angle);
    let s = sine(t.quarter@, angle);
    // The player's cell is not on the border, so both coordinates are inner.
    assert(cell_in_range(side, y / one(), x / one()));
    assert(inner(side, x) && inner(side, y));
    lemma_direction_nonzero(t.quarter@, angle);
    lemma_reach_bounds(grid, x, y, c, s, false);
    lemma_reach_bounds(grid, y, x, s, c, true);
    if c != 0 {
        if 0 <= y + across(x, c, s, border_index(x, c, side)) < side * one() {
            lemma_border_hit(grid, x, y, c, s, false);
            assert(vertical_reach(grid, t.quarter@, x, y, angle) < ESCAPED);
        } else {
            lemma_other_axis(side, x, y, c, s);
            lemma_border_hit(grid, y, x, s, c, true);
            assert(horizontal_reach(grid, t.quarter@, x, y, angle) < ESCAPED);
        }
    } else {
        assert(s != 0);
        lemma_border_crossing(y, s, side);
        assert(across(y, s, c, border_index(y, s, side)) == 0);
        lemma_border_hit(grid, y, x, s, c, true);
        assert(horizontal_reach(grid, t.quarter@, x, y, angle) < ESCAPED);
    }
}

} // verus!
