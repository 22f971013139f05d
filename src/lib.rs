//! A ray-casting engine over a square tile grid: grid occupancy, player
//! movement with wall collision, the per-column ray sweep and the projection
//! of wall distances to column heights.
//!
//! All geometry is fixed-point: one grid unit is `ONE` and angles are integer
//! units of which `ANGLE_FULL` make a turn. The orientation is the standard
//! mathematical one: `x` grows with the column index, `y` with the row index,
//! and an angle turns from `+x` towards `+y`, so a direction is
//! `(cos, sin)`. A renderer that draws row 0 at the top flips its vertical
//! axis at the drawing boundary.
pub mod angle;
pub mod caster;
pub mod enclosure;
pub mod geometry;
pub mod grid;
pub mod state;
