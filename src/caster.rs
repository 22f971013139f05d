//! The grid-line ray caster: for a direction, the nearest wall face crossed
//! along vertical grid lines and along horizontal ones, the nearer of the two,
//! and the projection of its distance to a column height.
use vstd::prelude::*;

use crate::angle::{cosine, lemma_axis_values, sine, TrigTable};
use crate::geometry::{
    distance, div_floor, is_sqrt_floor, lemma_sqrt_bounded, lemma_sqrt_floor_unique, offset_length,
    one, sqrt_floor, ONE,
};
use crate::grid::{GridMap, MAX_SIDE};

verus! {

/// Distance reported for a ray that meets no wall within its crossing budget;
/// it is greater than any distance to a wall.
pub const ESCAPED: u64 = 0x4000_0000_0000;

/// The index of the first grid line at or ahead of coordinate `a`, when
/// travelling towards larger coordinates (`forward`) or smaller ones.
pub open spec fn first_line(a: int, forward: bool) -> int {
    if forward && a % one() != 0 {
        a / one() + 1
    } else {
        a / one()
    }
}

/// The index of the `i`-th grid line crossed.
pub open spec fn line_at(a: int, forward: bool, i: int) -> int {
    if forward {
        first_line(a, forward) + i
    } else {
        first_line(a, forward) - i
    }
}

/// Offset along the marching axis from `a` to the `i`-th line crossed.
pub open spec fn along(a: int, forward: bool, i: int) -> int {
    line_at(a, forward, i) * one() - a
}

/// Offset across the marching axis at the `i`-th crossing, for a direction
/// `(da, db)` with `da != 0`, rounded down.
pub open spec fn across(a: int, da: int, db: int, i: int) -> int {
    let forward = da > 0;
    let run = if forward {
        along(a, forward, i)
    } else {
        -along(a, forward, i)
    };
    let slope_den = if forward {
        da
    } else {
        -da
    };
    (run * db) / slope_den
}

/// Whether the cell entered at the `i`-th crossing is a wall. The marching
/// axis is the column axis, or the row axis when `transposed`.
pub open spec fn crossing_hits(
    grid: GridMap,
    a: int,
    b: int,
    da: int,
    db: int,
    transposed: bool,
    i: int,
) -> bool {
    let forward = da > 0;
    let line = line_at(a, forward, i);
    let entered = if forward {
        line
    } else {
        line - 1
    };
    let beside = (b + across(a, da, db, i)) / one();
    if transposed {
        grid.wall(entered, beside)
    } else {
        grid.wall(beside, entered)
    }
}

/// The first crossing from the `i`-th on, below `budget`, that enters a wall.
pub open spec fn first_hit_from(
    grid: GridMap,
    a: int,
    b: int,
    da: int,
    db: int,
    transposed: bool,
    i: int,
    budget: int,
) -> Option<int>
    decreases budget - i,
{
    if i >= budget {
        None
    } else if crossing_hits(grid, a, b, da, db, transposed, i) {
        Some(i)
    } else {
        first_hit_from(grid, a, b, da, db, transposed, i + 1, budget)
    }
}

/// The offset `(along, across)` from `(a, b)` to the first wall face crossed
/// within `side` crossings, if any; none when the direction runs parallel to
/// the lines.
pub open spec fn march_spec(
    grid: GridMap,
    a: int,
    b: int,
    da: int,
    db: int,
    transposed: bool,
) -> Option<(int, int)> {
    if da == 0 {
        None
    } else {
        match first_hit_from(grid, a, b, da, db, transposed, 0, grid.side as int) {
            Some(i) => Some((along(a, da > 0, i), across(a, da, db, i))),
            None => None,
        }
    }
}

/// The distance to a marched offset, or `ESCAPED` without one.
pub open spec fn reach(m: Option<(int, int)>) -> int {
    match m {
        Some((p, q)) => offset_length(p, q),
        None => ESCAPED as int,
    }
}

/// Preconditions of a march: a valid grid, a position on it and a direction
/// whose components are at most `ONE`.
pub open spec fn march_inputs(grid: GridMap, a: int, b: int, da: int, db: int) -> bool {
    &&& grid.wf()
    &&& 0 <= a <= grid.side * one()
    &&& 0 <= b <= grid.side * one()
    &&& -one() <= da <= one()
    &&& -one() <= db <= one()
}

/// Bounds on the product and quotient that give an across offset.
proof fn lemma_across_bounds(run: int, db: int, den: int)
    requires
        0 <= run < 0x400_0000,
        -one() <= db <= one(),
        1 <= den,
    ensures
        -0x400_0000_0000 <= run * db <= 0x400_0000_0000,
        -0x400_0000_0000 <= (run * db) / den <= 0x400_0000_0000,
{
    assert(-0x400_0000_0000 <= run * db <= 0x400_0000_0000) by (nonlinear_arith)
        requires
            0 <= run < 0x400_0000,
            -65536 <= db <= 65536,
    ;
    let x = run * db;
    assert(-0x400_0000_0000 <= x / den <= 0x400_0000_0000) by (nonlinear_arith)
        requires
            -0x400_0000_0000 <= x <= 0x400_0000_0000,
            1 <= den,
    ;
}

/// Marches along grid lines of one axis from `(a, b)` in direction `(da, db)`
/// and returns the offset `(along, across)` to the first wall face crossed.
fn march(grid: &GridMap, a: i64, b: i64, da: i64, db: i64, transposed: bool) -> (r: Option<
    (i64, i64),
>)
    requires
        march_inputs(*grid, a as int, b as int, da as int, db as int),
    ensures
        match r {
            Some((p, q)) => march_spec(*grid, a as int, b as int, da as int, db as int, transposed)
                == Some((p as int, q as int)),
            None => march_spec(*grid, a as int, b as int, da as int, db as int, transposed) is None,
        },
        r matches Some((p, q)) ==> -0x400_0000_0000 <= p <= 0x400_0000_0000
            && -0x400_0000_0000 <= q <= 0x400_0000_0000,
{
    if da == 0 {
        return None;
    }
    let forward = da > 0;
    let slope_den = if forward {
        da
    } else {
        -da
    };
    let cell = div_floor(a, ONE);
    let first = if forward && cell * ONE != a {
        cell + 1
    } else {
        cell
    };
    assert(first == first_line(a as int, forward));
    let side = grid.side as i64;
    let ghost budget = grid.side as int;
    let mut i: i64 = 0;
    while i < side
        invariant
            march_inputs(*grid, a as int, b as int, da as int, db as int),
            side == grid.side,
            budget == grid.side,
            1 <= side <= MAX_SIDE,
            0 <= i <= side,
            da != 0,
            forward == (da > 0),
            slope_den == (if forward { da as int } else { -da }),
            first == first_line(a as int, forward),
            0 <= first <= MAX_SIDE + 1,
            first_hit_from(*grid, a as int, b as int, da as int, db as int, transposed, 0, budget)
                == first_hit_from(
                *grid,
                a as int,
                b as int,
                da as int,
                db as int,
                transposed,
                i as int,
                budget,
            ),
        decreases side - i,
    {
        let line = if forward {
            first + i
        } else {
            first - i
        };
        let step = line * ONE - a;
        let run = if forward {
            step
        } else {
            -step
        };
        assert(0 <= run < 0x400_0000);
        proof {
            lemma_across_bounds(run as int, db as int, slope_den as int);
        }
        let offset = div_floor(run * db, slope_den);
        assert(offset == across(a as int, da as int, db as int, i as int));
        let entered = if forward {
            line
        } else {
            line - 1
        };
        let beside = div_floor(b + offset, ONE);
        let hit = if transposed {
            grid.is_wall(entered, beside)
        } else {
            grid.is_wall(beside, entered)
        };
        assert(hit == crossing_hits(
            *grid,
            a as int,
            b as int,
            da as int,
            db as int,
            transposed,
            i as int,
        ));
        if hit {
            return Some((step, offset));
        }
        i = i + 1;
    }
    None
}


/// Columns of the screen, and so rays in a sweep.
pub const NUMBER_OF_RAYS: usize = 160;

/// Height of the screen in pixels.
pub const SCREEN_SIZE: u32 = 160;

/// Width of the field of view in angle units (a little over a sixth of a turn).
pub const FOV: i64 = 3034;

/// Half the field of view.
pub const HALF_FOV: i64 = 1517;

/// Column height in pixels times the perpendicular distance in fixed point:
/// a wall one unit away is 100 pixels tall.
pub const WALL_SCALE: i64 = 6553600;

/// One cast ray: its angle from the facing, the Euclidean distance to the
/// wall face it meets, that distance corrected to the viewing plane, and
/// whether the face lies on a vertical grid line.
#[derive(Clone, Copy, Debug, PartialEq, Eq)]
pub struct Ray {
    pub angle_diff: i64,
    pub distance: u64,
    pub perpendicular: i64,
    pub vertical: bool,
}

/// Distance to the nearest wall face on a vertical grid line.
pub open spec fn vertical_reach(grid: GridMap, t: Seq<i64>, x: int, y: int, angle: int) -> int {
    reach(march_spec(grid, x, y, cosine(t, angle), sine(t, angle), false))
}

/// Distance to the nearest wall face on a horizontal grid line.
pub open spec fn horizontal_reach(grid: GridMap, t: Seq<i64>, x: int, y: int, angle: int) -> int {
    reach(march_spec(grid, y, x, sine(t, angle), cosine(t, angle), true))
}

/// A distance corrected to the viewing plane: scaled by the cosine of the
/// ray's angle from the facing, rounded down.
pub open spec fn perpendicular_of(t: Seq<i64>, dist: int, angle_diff: int) -> int {
    (dist * cosine(t, angle_diff)) / one()
}

/// The ray cast at `angle` from `(x, y)` by a viewer facing `facing`: the
/// nearer of the two searches, the vertical one on a tie.
pub open spec fn ray_spec(grid: GridMap, t: Seq<i64>, x: int, y: int, facing: int, angle: int) -> Ray {
    let v = vertical_reach(grid, t, x, y, angle);
    let h = horizontal_reach(grid, t, x, y, angle);
    let vertical = v <= h;
    let dist = if vertical { v } else { h };
    Ray {
        angle_diff: (angle - facing) as i64,
        distance: dist as u64,
        perpendicular: perpendicular_of(t, dist, angle - facing) as i64,
        vertical,
    }
}

/// Preconditions of a cast: a valid grid and table, a position on the grid
/// and angles whose difference fits.
pub open spec fn cast_inputs(grid: GridMap, t: TrigTable, x: int, y: int, facing: int, angle: int) -> bool {
    &&& grid.wf()
    &&& t.wf()
    &&& 0 <= x <= grid.side * one()
    &&& 0 <= y <= grid.side * one()
    &&& i64::MIN <= angle - facing <= i64::MAX
}

/// Distance to the nearest wall face on a vertical grid line from `(x, y)`
/// in direction `(c, s)`.
fn get_vert_intersection(grid: &GridMap, x: i64, y: i64, c: i64, s: i64) -> (r: u64)
    requires
        march_inputs(*grid, x as int, y as int, c as int, s as int),
    ensures
        r == reach(march_spec(*grid, x as int, y as int, c as int, s as int, false)),
        r <= ESCAPED,
{
    match march(grid, x, y, c, s, false) {
        Some((dx, dy)) => distance(dx, dy),
        None => ESCAPED,
    }
}

/// Distance to the nearest wall face on a horizontal grid line from `(x, y)`
/// in direction `(c, s)`.
fn get_horiz_intersection(grid: &GridMap, x: i64, y: i64, c: i64, s: i64) -> (r: u64)
    requires
        march_inputs(*grid, y as int, x as int, s as int, c as int),
    ensures
        r == reach(march_spec(*grid, y as int, x as int, s as int, c as int, true)),
        r <= ESCAPED,
{
    match march(grid, y, x, s, c, true) {
        Some((dy, dx)) => distance(dy, dx),
        None => ESCAPED,
    }
}

/// Casts one ray at `angle` from `(x, y)` for a viewer facing `facing`.
pub fn cast(grid: &GridMap, trig: &TrigTable, x: i64, y: i64, facing: i64, angle: i64) -> (r: Ray)
    requires
        cast_inputs(*grid, *trig, x as int, y as int, facing as int, angle as int),
    ensures
        r == ray_spec(*grid, trig.quarter@, x as int, y as int, facing as int, angle as int),
        r.distance <= ESCAPED,
{
    let c = trig.cos(angle);
    let s = trig.sin(angle);
    let vert = get_vert_intersection(grid, x, y, c, s);
    let horiz = get_horiz_intersection(grid, x, y, c, s);
    let vertical = vert <= horiz;
    let dist = if vertical {
        vert
    } else {
        horiz
    };
    let angle_diff = angle - facing;
    let cos_diff = trig.cos(angle_diff);
    assert(-0x4000_0000_0000_0000 <= dist * cos_diff <= 0x4000_0000_0000_0000) by (nonlinear_arith)
        requires
            0 <= dist <= 0x4000_0000_0000,
            -65536 <= cos_diff <= 65536,
    ;
    let perpendicular = div_floor(dist as i64 * cos_diff, ONE);
    Ray { angle_diff, distance: dist, perpendicular, vertical }
}

/// Column height in pixels for a perpendicular distance, at most the
/// screen's height; a distance at or behind the viewing plane fills the column.
pub open spec fn height_for(perpendicular: int) -> int {
    if perpendicular <= 0 {
        SCREEN_SIZE as int
    } else if (WALL_SCALE as int) / perpendicular >= SCREEN_SIZE {
        SCREEN_SIZE as int
    } else {
        (WALL_SCALE as int) / perpendicular
    }
}

impl Ray {
    /// Height in pixels of the wall column this ray draws.
    pub fn wall_height(&self) -> (h: u32)
        ensures
            h == height_for(self.perpendicular as int),
            h <= SCREEN_SIZE,
    {
        if self.perpendicular <= 0 {
            SCREEN_SIZE
        } else {
            let h = WALL_SCALE / self.perpendicular;
            if h >= SCREEN_SIZE as i64 {
                SCREEN_SIZE
            } else {
                h as u32
            }
        }
    }
}


/// The fixed-capacity vector of `heapless`, held opaque: what it holds is
/// known through `buffered_rays` alone.
#[verifier::external_type_specification]
#[verifier::external_body]
#[verifier::reject_recursive_types(T)]
pub struct ExBoundedVec<T, const N: usize>(heapless::Vec<T, N>);

/// The fixed-capacity buffer that a sweep fills, one ray per screen column.
pub type RayBuffer = heapless::Vec<Ray, NUMBER_OF_RAYS>;

/// The rays held in a buffer, in order.
pub uninterp spec fn buffered_rays(b: RayBuffer) -> Seq<Ray>;

/// Relies on `heapless::Vec::new`: a new vector holds nothing.
#[verifier::external_body]
pub(crate) fn empty_buffer() -> (b: RayBuffer)
    ensures
        buffered_rays(b) == Seq::<Ray>::empty(),
{
    heapless::Vec::new()
}

/// Relies on `heapless::Vec::push`: below capacity the ray is appended and
/// `Ok` returned; at capacity the ray comes back in `Err` and the vector is
/// left as it was.
#[verifier::external_body]
pub(crate) fn push_ray(b: &mut RayBuffer, ray: Ray) -> (r: Result<(), Ray>)
    ensures
        r is Ok <==> buffered_rays(*old(b)).len() < NUMBER_OF_RAYS,
        r is Ok ==> buffered_rays(*final(b)) == buffered_rays(*old(b)).push(ray),
        r matches Err(back) ==> back == ray && buffered_rays(*final(b)) == buffered_rays(*old(b)),
{
    b.push(ray)
}

/// The angle of the ray for screen column `i`: the field of view split in
/// even steps from its low edge.
pub open spec fn column_angle(facing: int, i: int) -> int {
    facing - HALF_FOV + (i * FOV) / (NUMBER_OF_RAYS as int)
}

/// Casts one ray per screen column across the field of view centred on
/// `facing`, in order of increasing angle.
pub fn sweep(grid: &GridMap, trig: &TrigTable, x: i64, y: i64, facing: i64) -> (rays: RayBuffer)
    requires
        grid.wf(),
        trig.wf(),
        0 <= x <= grid.side * one(),
        0 <= y <= grid.side * one(),
        -0x1_0000_0000 <= facing <= 0x1_0000_0000,
    ensures
        buffered_rays(rays).len() == NUMBER_OF_RAYS,
        forall|i: int|
            0 <= i < NUMBER_OF_RAYS ==> #[trigger] buffered_rays(rays)[i] == ray_spec(
                *grid,
                trig.quarter@,
                x as int,
                y as int,
                facing as int,
                column_angle(facing as int, i),
            ),
{
    let mut rays = empty_buffer();
    let mut num: usize = 0;
    while num < NUMBER_OF_RAYS
        invariant
            grid.wf(),
            trig.wf(),
            0 <= x <= grid.side * one(),
            0 <= y <= grid.side * one(),
            -0x1_0000_0000 <= facing <= 0x1_0000_0000,
            num <= NUMBER_OF_RAYS,
            buffered_rays(rays).len() == num,
            forall|i: int|
                0 <= i < num ==> #[trigger] buffered_rays(rays)[i] == ray_spec(
                    *grid,
                    trig.quarter@,
                    x as int,
                    y as int,
                    facing as int,
                    column_angle(facing as int, i),
                ),
        decreases NUMBER_OF_RAYS - num,
    {
        let angle = facing - HALF_FOV + (num as i64 * FOV) / NUMBER_OF_RAYS as i64;
        assert(angle == column_angle(facing as int, num as int));
        let ray = cast(grid, trig, x, y, facing, angle);
        let pushed = push_ray(&mut rays, ray);
        assert(pushed is Ok);
        num = num + 1;
    }
    rays
}


/// The first hit from crossing `i` on is crossing `m` when `m` is below the
/// budget, enters a wall, and no crossing from `i` up to `m` does.
pub proof fn lemma_first_hit_at(
    grid: GridMap,
    a: int,
    b: int,
    da: int,
    db: int,
    transposed: bool,
    i: int,
    m: int,
    budget: int,
)
    requires
        i <= m < budget,
        crossing_hits(grid, a, b, da, db, transposed, m),
        forall|j: int| i <= j < m ==> !#[trigger] crossing_hits(grid, a, b, da, db, transposed, j),
    ensures
        first_hit_from(grid, a, b, da, db, transposed, i, budget) == Some(m),
    decreases m - i,
{
    if i < m {
        lemma_first_hit_at(grid, a, b, da, db, transposed, i + 1, m, budget);
    }
}

/// The length of an offset along one axis only is its size.
pub proof fn lemma_axis_length(d: int)
    requires
        d >= 0,
    ensures
        offset_length(d, 0) == d,
{
    assert(d * d + 0 * 0 == d * d);
    assert(d * d < (d + 1) * (d + 1)) by (nonlinear_arith)
        requires
            d >= 0,
    ;
    assert(is_sqrt_floor(d * d, d));
    let r = sqrt_floor((d * d) as nat);
    assert(is_sqrt_floor(d * d, r));
    lemma_sqrt_floor_unique(d * d, d, r);
}

/// A ray cast at angle zero, along the column axis, meets the first wall in
/// the player's row: it reports a face on a vertical grid line at exactly
/// the distance along the axis to the grid line in front of that wall.
pub proof fn lemma_axis_cast(grid: GridMap, t: TrigTable, x: int, y: int, facing: int, k: int)
    requires
        cast_inputs(grid, t, x, y, facing, 0),
        first_line(x, true) <= k < first_line(x, true) + grid.side,
        grid.wall(y / one(), k),
        forall|j: int| first_line(x, true) <= j < k ==> !#[trigger] grid.wall(y / one(), j),
    ensures
        ray_spec(grid, t.quarter@, x, y, facing, 0).vertical,
        ray_spec(grid, t.quarter@, x, y, facing, 0).distance == k * one() - x,
{
    lemma_axis_values(t.quarter@);
    let c = cosine(t.quarter@, 0);
    let s = sine(t.quarter@, 0);
    let first = first_line(x, true);
    assert forall|j: int| 0 <= j < k - first implies !#[trigger] crossing_hits(
        grid,
        x,
        y,
        c,
        s,
        false,
        j,
    ) by {
        assert(across(x, c, s, j) == 0);
        assert(!grid.wall(y / one(), first + j));
    }
    assert(across(x, c, s, k - first) == 0);
    assert(crossing_hits(grid, x, y, c, s, false, k - first));
    lemma_first_hit_at(grid, x, y, c, s, false, 0, k - first, grid.side as int);
    assert(k * one() - x >= 0);
    lemma_axis_length(k * one() - x);
    assert(horizontal_reach(grid, t.quarter@, x, y, 0) == ESCAPED as int);
    assert(vertical_reach(grid, t.quarter@, x, y, 0) == k * one() - x);
    assert(k * one() - x < ESCAPED) by (nonlinear_arith)
        requires
            k < first + grid.side,
            first <= x / one() + 1,
            x <= grid.side * one(),
            grid.side <= MAX_SIDE,
            x >= 0,
    ;
}

/// The ray at the centre of the view, cast along the facing itself, has a
/// perpendicular distance equal to its Euclidean distance.
pub proof fn lemma_centre_ray(grid: GridMap, t: TrigTable, x: int, y: int, facing: int)
    requires
        cast_inputs(grid, t, x, y, facing, facing),
    ensures
        ray_spec(grid, t.quarter@, x, y, facing, facing).perpendicular == ray_spec(
            grid,
            t.quarter@,
            x,
            y,
            facing,
            facing,
        ).distance,
{
    lemma_axis_values(t.quarter@);
    let r = ray_spec(grid, t.quarter@, x, y, facing, facing);
    let v = vertical_reach(grid, t.quarter@, x, y, facing);
    let h = horizontal_reach(grid, t.quarter@, x, y, facing);
    let dist = if v <= h { v } else { h };
    lemma_reach_bounds(grid, x, y, cosine(t.quarter@, facing), sine(t.quarter@, facing), false);
    lemma_reach_bounds(grid, y, x, sine(t.quarter@, facing), cosine(t.quarter@, facing), true);
    assert(perpendicular_of(t.quarter@, dist, 0) == (dist * one()) / one());
    assert((dist * one()) / one() == dist) by (nonlinear_arith);
}


/// A first hit found from crossing `i` lies between `i` and the budget.
pub proof fn lemma_first_hit_range(
    grid: GridMap,
    a: int,
    b: int,
    da: int,
    db: int,
    transposed: bool,
    i: int,
    budget: int,
)
    ensures
        first_hit_from(grid, a, b, da, db, transposed, i, budget) matches Some(m) ==> i <= m
            < budget,
    decreases budget - i,
{
    if i < budget && !crossing_hits(grid, a, b, da, db, transposed, i) {
        lemma_first_hit_range(grid, a, b, da, db, transposed, i + 1, budget);
    }
}

/// Every ray reports a distance between zero and `ESCAPED`, whatever the
/// angle and wherever on the grid it starts: a finite, non-negative
/// distance, below `ESCAPED` exactly when a wall face was met.
pub proof fn lemma_reach_bounds(grid: GridMap, a: int, b: int, da: int, db: int, transposed: bool)
    requires
        march_inputs(grid, a, b, da, db),
    ensures
        0 <= reach(march_spec(grid, a, b, da, db, transposed)) <= ESCAPED,
        march_spec(grid, a, b, da, db, transposed) is Some ==> reach(
            march_spec(grid, a, b, da, db, transposed),
        ) < ESCAPED,
{
    if da != 0 {
        lemma_first_hit_range(grid, a, b, da, db, transposed, 0, grid.side as int);
        match first_hit_from(grid, a, b, da, db, transposed, 0, grid.side as int) {
            Some(i) => {
                let forward = da > 0;
                let p = along(a, forward, i);
                let run = if forward { p } else { -p };
                let den = if forward { da } else { -da };
                assert(0 <= run < 0x400_0000);
                lemma_across_bounds(run, db, den);
                let q = across(a, da, db, i);
                assert(p * p <= 0x10_0000_0000_0000_0000_0000 && q * q <= 0x10_0000_0000_0000_0000_0000
                    && p * p >= 0 && q * q >= 0) by (nonlinear_arith)
                    requires
                        -0x400_0000_0000 <= p <= 0x400_0000_0000,
                        -0x400_0000_0000 <= q <= 0x400_0000_0000,
                ;
                lemma_sqrt_bounded(p * p + q * q);
            },
            None => {},
        }
    }
}

/// Every ray that `raycast` or `get_rays` can report has a distance between
/// zero and `ESCAPED`.
pub proof fn lemma_ray_distance_bounds(grid: GridMap, t: TrigTable, x: int, y: int, facing: int, angle: int)
    requires
        cast_inputs(grid, t, x, y, facing, angle),
    ensures
        0 <= ray_spec(grid, t.quarter@, x, y, facing, angle).distance <= ESCAPED,
        ray_spec(grid, t.quarter@, x, y, facing, angle).distance == if vertical_reach(grid, t.quarter@, x, y, angle)
            <= horizontal_reach(grid, t.quarter@, x, y, angle) {
            vertical_reach(grid, t.quarter@, x, y, angle)
        } else {
            horizontal_reach(grid, t.quarter@, x, y, angle)
        },
{
    lemma_reach_bounds(grid, x, y, cosine(t.quarter@, angle), sine(t.quarter@, angle), false);
    lemma_reach_bounds(grid, y, x, sine(t.quarter@, angle), cosine(t.quarter@, angle), true);
}

} // verus!
