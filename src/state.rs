//! The engine state: which view is shown, the player, the grid and the map
//! editor's selection, and the per-frame update that drives them from the
//! gamepad.
use vstd::prelude::*;

use crate::angle::{cosine, normalize, normalized, sine, TrigTable, ANGLE_FULL};
use crate::caster::{
    buffered_rays, cast, column_angle, ray_spec, sweep, Ray, RayBuffer, ESCAPED, NUMBER_OF_RAYS,
};
use crate::geometry::{div_floor, one, ONE};
use crate::grid::GridMap;

verus! {

/// Distance of one walking step, in fixed point.
pub const MOVE_STEP: i64 = 2294;

/// Angle turned in one step, in angle units.
pub const LOOK_STEP: i64 = 91;

/// Gamepad bit of the first button: start, sprint, and flip a cell.
pub const BUTTON_1: u8 = 1;

/// Gamepad bit of the second button: swap game and editor.
pub const BUTTON_2: u8 = 2;

/// Gamepad bit of left: turn, or move the selection.
pub const BUTTON_LEFT: u8 = 16;

/// Gamepad bit of right: turn, or move the selection.
pub const BUTTON_RIGHT: u8 = 32;

/// Gamepad bit of up: walk forwards, or move the selection.
pub const BUTTON_UP: u8 = 64;

/// Gamepad bit of down: walk backwards, or move the selection.
pub const BUTTON_DOWN: u8 = 128;

/// What the frame shows.
#[derive(Clone, Copy, Debug, PartialEq, Eq, Structural)]
pub enum Mode {
    StartMenu,
    FirstPerson,
    MapEditor,
}

/// Everything the engine keeps from one frame to the next. Positions are
/// fixed point, the angle in angle units; `(step_x, step_y)` is the walking
/// displacement for the current angle.
pub struct State {
    pub view: Mode,
    pub player_x: i64,
    pub player_y: i64,
    pub player_angle: i64,
    pub step_x: i64,
    pub step_y: i64,
    pub select_x: u8,
    pub select_y: u8,
    pub map: GridMap,
    pub trig: TrigTable,
    pub previous_gamepad: u8,
}

/// Whether a player may stand at `(x, y)`: strictly inside the grid and not
/// in a wall cell.
pub open spec fn can_stand(grid: GridMap, x: int, y: int) -> bool {
    &&& 0 < x < grid.side * one()
    &&& 0 < y < grid.side * one()
    &&& !grid.wall(y / one(), x / one())
}

/// The walking displacement along one axis for a direction component.
pub open spec fn walk(component: int) -> int {
    (component * MOVE_STEP) / one()
}

/// A sprinting displacement: half as long again as walking, rounded down.
pub open spec fn sprint_of(step: int) -> int {
    (step * 3) / 2
}

/// Whether `button` is held in the gamepad bits `g`.
pub open spec fn held(g: u8, button: u8) -> bool {
    g & button != 0
}

/// The buttons held now that were not held in the previous frame.
pub open spec fn just_pressed(g: u8, previous: u8) -> u8 {
    g & (g ^ previous)
}

/// Whether two grids have the same side and cells.
pub open spec fn same_grid(a: GridMap, b: GridMap) -> bool {
    a.side == b.side && a.cells@ == b.cells@
}

/// The angle after turning left and/or right from `angle`.
pub open spec fn turned(angle: int, left: bool, right: bool) -> int {
    normalized(angle + (if left { LOOK_STEP as int } else { 0 }) - (if right {
        LOOK_STEP as int
    } else {
        0
    }))
}

/// Position reached by moving from `p` by `step` forwards and/or backwards.
pub open spec fn moved(p: int, step: int, forwards: bool, backwards: bool) -> int {
    p + (if forwards { step } else { 0 }) - (if backwards { step } else { 0 })
}

/// One movement tick from `s` to `n`: the turn is applied first, then the
/// move along the new facing, which is kept only where the player may stand
/// and otherwise leaves the position exactly as it was.
pub open spec fn character_step(
    s: State,
    n: State,
    left: bool,
    right: bool,
    forwards: bool,
    backwards: bool,
    sprint: bool,
) -> bool {
    let sx = if sprint { sprint_of(n.step_x as int) } else { n.step_x as int };
    let sy = if sprint { sprint_of(n.step_y as int) } else { n.step_y as int };
    let tx = moved(s.player_x as int, sx, forwards, backwards);
    let ty = moved(s.player_y as int, sy, forwards, backwards);
    &&& n.player_angle == turned(s.player_angle as int, left, right)
    &&& if can_stand(s.map, tx, ty) {
        n.player_x == tx && n.player_y == ty
    } else {
        n.player_x == s.player_x && n.player_y == s.player_y
    }
    &&& same_grid(n.map, s.map)
    &&& n.trig.quarter@ == s.trig.quarter@
    &&& n.select_x == s.select_x
    &&& n.select_y == s.select_y
}

/// One map-editor tick from `s` to `n` for the newly pressed buttons `just`:
/// the selection moves within the inner cells, and the first button flips
/// the selected cell unless the player stands in it.
pub open spec fn editor_step(s: State, n: State, just: u8) -> bool {
    let side = s.map.side as int;
    let y1 = if held(just, BUTTON_UP) && s.select_y > 1 { s.select_y - 1 } else { s.select_y as int };
    let y2 = if held(just, BUTTON_DOWN) && y1 < side - 2 { y1 + 1 } else { y1 };
    let x1 = if held(just, BUTTON_LEFT) && s.select_x > 1 { s.select_x - 1 } else { s.select_x as int };
    let x2 = if held(just, BUTTON_RIGHT) && x1 < side - 2 { x1 + 1 } else { x1 };
    let on_player = x2 == (s.player_x as int) / one() && y2 == (s.player_y as int) / one();
    &&& n.select_x == x2
    &&& n.select_y == y2
    &&& n.player_x == s.player_x
    &&& n.player_y == s.player_y
    &&& n.player_angle == s.player_angle
    &&& n.trig.quarter@ == s.trig.quarter@
    &&& n.map.side == s.map.side
    &&& if held(just, BUTTON_1) && !on_player {
        forall|r: int, c: int|
            #[trigger] n.map.wall(r, c) == if r == y2 && c == x2 {
                !s.map.wall(r, c)
            } else {
                s.map.wall(r, c)
            }
    } else {
        n.map.cells@ == s.map.cells@
    }
}

/// The view after a frame: the start menu opens the game on the first
/// button, and a new press of the second button swaps game and editor.
pub open spec fn next_view(view: Mode, g: u8, previous: u8) -> Mode {
    let after = if view == Mode::StartMenu && held(g, BUTTON_1) { Mode::FirstPerson } else { view };
    if held(just_pressed(g, previous), BUTTON_2) {
        match after {
            Mode::FirstPerson => Mode::MapEditor,
            Mode::MapEditor => Mode::FirstPerson,
            Mode::StartMenu => Mode::StartMenu,
        }
    } else {
        after
    }
}

/// Whether the player may stand at `(x, y)`.
fn can_stand_at(grid: &GridMap, x: i64, y: i64) -> (r: bool)
    requires
        grid.wf(),
    ensures
        r == can_stand(*grid, x as int, y as int),
{
    let limit = grid.side as i64 * ONE;
    0 < x && x < limit && 0 < y && y < limit && !grid.is_wall(div_floor(y, ONE), div_floor(x, ONE))
}

impl State {
    /// The state invariant: a valid grid of side at least 3 and table, the
    /// player standing on open floor inside the grid, a normalized angle
    /// with its walking step, and the selection on an inner cell.
    pub open spec fn wf(&self) -> bool {
        &&& self.map.wf()
        &&& self.trig.wf()
        &&& 3 <= self.map.side
        &&& can_stand(self.map, self.player_x as int, self.player_y as int)
        &&& 0 <= self.player_angle < ANGLE_FULL
        &&& self.step_x == walk(cosine(self.trig.quarter@, self.player_angle as int))
        &&& self.step_y == walk(sine(self.trig.quarter@, self.player_angle as int))
        &&& 1 <= self.select_x <= self.map.side - 2
        &&& 1 <= self.select_y <= self.map.side - 2
    }

    /// Turns the player to `angle`, normalized, and recomputes the walking step.
    fn look(&mut self, angle: i64)
        requires
            old(self).trig.wf(),
        ensures
            final(self).player_angle == normalized(angle as int),
            final(self).step_x == walk(cosine(final(self).trig.quarter@, final(self).player_angle as int)),
            final(self).step_y == walk(sine(final(self).trig.quarter@, final(self).player_angle as int)),
            final(self).player_x == old(self).player_x,
            final(self).player_y == old(self).player_y,
            final(self).view == old(self).view,
            final(self).select_x == old(self).select_x,
            final(self).select_y == old(self).select_y,
            final(self).previous_gamepad == old(self).previous_gamepad,
            final(self).map == old(self).map,
            final(self).trig == old(self).trig,
    {
        let a = normalize(angle);
        let c = self.trig.cos(a);
        let s = self.trig.sin(a);
        assert(-0x1_0000_0000 <= c * MOVE_STEP <= 0x1_0000_0000) by (nonlinear_arith)
            requires
                -65536 <= c <= 65536,
        ;
        assert(-0x1_0000_0000 <= s * MOVE_STEP <= 0x1_0000_0000) by (nonlinear_arith)
            requires
                -65536 <= s <= 65536,
        ;
        self.player_angle = a;
        self.step_x = div_floor(c * MOVE_STEP, ONE);
        self.step_y = div_floor(s * MOVE_STEP, ONE);
    }

    /// Applies one tick of movement: turning first, then a step forwards
    /// and/or backwards along the new facing, half as long again when
    /// sprinting. A step that would leave the grid or enter a wall is
    /// dropped and the position stays exactly as it was.
    #[verifier::rlimit(40)]
    pub fn update_character(
        &mut self,
        left: bool,
        right: bool,
        forwards: bool,
        backwards: bool,
        sprint: bool,
    )
        requires
            old(self).wf(),
        ensures
            final(self).wf(),
            character_step(*old(self), *final(self), left, right, forwards, backwards, sprint),
            final(self).view == old(self).view,
            final(self).previous_gamepad == old(self).previous_gamepad,
    {
        let mut angle = self.player_angle;
        if left {
            angle = angle + LOOK_STEP;
        }
        if right {
            angle = angle - LOOK_STEP;
        }
        self.look(angle);
        assert(-70000 <= self.step_x <= 70000 && -70000 <= self.step_y <= 70000) by (nonlinear_arith)
            requires
                self.step_x == walk(cosine(self.trig.quarter@, self.player_angle as int)),
                self.step_y == walk(sine(self.trig.quarter@, self.player_angle as int)),
                -65536 <= cosine(self.trig.quarter@, self.player_angle as int) <= 65536,
                -65536 <= sine(self.trig.quarter@, self.player_angle as int) <= 65536,
        ;
        let (sx, sy) = if sprint {
            (div_floor(self.step_x * 3, 2), div_floor(self.step_y * 3, 2))
        } else {
            (self.step_x, self.step_y)
        };
        let mut x = self.player_x;
        let mut y = self.player_y;
        if forwards {
            x = x + sx;
            y = y + sy;
        }
        if backwards {
            x = x - sx;
            y = y - sy;
        }
        if can_stand_at(&self.map, x, y) {
            self.player_x = x;
            self.player_y = y;
        }
    }
}


/// Whether the first button is held in the gamepad bits.
pub fn x_pressed(gamepad: u8) -> (r: bool)
    ensures
        r == held(gamepad, BUTTON_1),
{
    gamepad & BUTTON_1 != 0
}

/// Whether the second button is held in the gamepad bits.
pub fn z_pressed(gamepad: u8) -> (r: bool)
    ensures
        r == held(gamepad, BUTTON_2),
{
    gamepad & BUTTON_2 != 0
}

/// Whether up is held in the gamepad bits.
pub fn up_pressed(gamepad: u8) -> (r: bool)
    ensures
        r == held(gamepad, BUTTON_UP),
{
    gamepad & BUTTON_UP != 0
}

/// Whether down is held in the gamepad bits.
pub fn down_pressed(gamepad: u8) -> (r: bool)
    ensures
        r == held(gamepad, BUTTON_DOWN),
{
    gamepad & BUTTON_DOWN != 0
}

/// Whether left is held in the gamepad bits.
pub fn left_pressed(gamepad: u8) -> (r: bool)
    ensures
        r == held(gamepad, BUTTON_LEFT),
{
    gamepad & BUTTON_LEFT != 0
}

/// Whether right is held in the gamepad bits.
pub fn right_pressed(gamepad: u8) -> (r: bool)
    ensures
        r == held(gamepad, BUTTON_RIGHT),
{
    gamepad & BUTTON_RIGHT != 0
}

/// Mouse button bit of the left button.
pub const MOUSE_LEFT: u8 = 1;

/// Mouse button bit of the right button.
pub const MOUSE_RIGHT: u8 = 2;

/// Whether the left mouse button is held in the mouse button bits.
pub fn left_clicked(mouse_buttons: u8) -> (r: bool)
    ensures
        r == held(mouse_buttons, MOUSE_LEFT),
{
    mouse_buttons & MOUSE_LEFT != 0
}

/// Whether the right mouse button is held in the mouse button bits.
pub fn right_clicked(mouse_buttons: u8) -> (r: bool)
    ensures
        r == held(mouse_buttons, MOUSE_RIGHT),
{
    mouse_buttons & MOUSE_RIGHT != 0
}

/// Starting column-axis position of the player in the built-in maze.
pub const START_X: i64 = 104858;

/// Starting row-axis position of the player in the built-in maze.
pub const START_Y: i64 = 98304;

impl State {
    /// The start menu over the built-in maze, the player near its top-left
    /// corner facing along the column axis.
    pub fn new(trig: TrigTable) -> (s: State)
        requires
            trig.wf(),
        ensures
            s.wf(),
            s.view == Mode::StartMenu,
            s.player_x == START_X,
            s.player_y == START_Y,
            s.player_angle == 0,
            s.select_x == 4,
            s.select_y == 4,
            s.previous_gamepad == 0,
            s.map.side == crate::grid::MAZE_SIDE,
            s.map.cells@ == crate::grid::maze_layout(),
            s.trig.quarter@ == trig.quarter@,
    {
        let map = GridMap::maze();
        let mut s = State {
            view: Mode::StartMenu,
            player_x: START_X,
            player_y: START_Y,
            player_angle: 0,
            step_x: 0,
            step_y: 0,
            select_x: 4,
            select_y: 4,
            map,
            trig,
            previous_gamepad: 0,
        };
        s.look(0);
        s
    }

    /// The first-person view of `map` with the player at `(x, y)` facing
    /// `angle` (normalized), or none when the grid is smaller than 3 or the
    /// player may not stand there.
    pub fn with_map(map: GridMap, trig: TrigTable, x: i64, y: i64, angle: i64) -> (r: Option<State>)
        requires
            map.wf(),
            trig.wf(),
        ensures
            r is Some <==> (3 <= map.side && can_stand(map, x as int, y as int)),
            r matches Some(s) ==> {
                &&& s.wf()
                &&& s.view == Mode::FirstPerson
                &&& s.player_x == x
                &&& s.player_y == y
                &&& s.player_angle == normalized(angle as int)
                &&& same_grid(s.map, map)
                &&& s.trig.quarter@ == trig.quarter@
                &&& s.select_x == 1
                &&& s.select_y == 1
                &&& s.previous_gamepad == 0
            },
    {
        if map.side < 3 || !can_stand_at(&map, x, y) {
            return None;
        }
        let mut s = State {
            view: Mode::FirstPerson,
            player_x: x,
            player_y: y,
            player_angle: 0,
            step_x: 0,
            step_y: 0,
            select_x: 1,
            select_y: 1,
            map,
            trig,
            previous_gamepad: 0,
        };
        s.look(angle);
        Some(s)
    }

    /// Shows `view` from the next frame on.
    pub fn set_view(&mut self, view: Mode)
        ensures
            final(self).view == view,
            final(self).player_x == old(self).player_x,
            final(self).player_y == old(self).player_y,
            final(self).player_angle == old(self).player_angle,
            final(self).step_x == old(self).step_x,
            final(self).step_y == old(self).step_y,
            final(self).select_x == old(self).select_x,
            final(self).select_y == old(self).select_y,
            final(self).previous_gamepad == old(self).previous_gamepad,
            final(self).map == old(self).map,
            final(self).trig == old(self).trig,
    {
        self.view = view;
    }

    /// Casts one ray at `angle` from the player.
    pub fn raycast(&self, angle: i64) -> (r: Ray)
        requires
            self.wf(),
            i64::MIN + ANGLE_FULL <= angle,
        ensures
            r == ray_spec(
                self.map,
                self.trig.quarter@,
                self.player_x as int,
                self.player_y as int,
                self.player_angle as int,
                angle as int,
            ),
            r.distance <= ESCAPED,
    {
        cast(&self.map, &self.trig, self.player_x, self.player_y, self.player_angle, angle)
    }

    /// Casts one ray per screen column across the field of view, in order
    /// of increasing angle.
    pub fn get_rays(&self) -> (rays: RayBuffer)
        requires
            self.wf(),
        ensures
            buffered_rays(rays).len() == NUMBER_OF_RAYS,
            forall|i: int|
                0 <= i < NUMBER_OF_RAYS ==> #[trigger] buffered_rays(rays)[i] == ray_spec(
                    self.map,
                    self.trig.quarter@,
                    self.player_x as int,
                    self.player_y as int,
                    self.player_angle as int,
                    column_angle(self.player_angle as int, i),
                ),
    {
        sweep(&self.map, &self.trig, self.player_x, self.player_y, self.player_angle)
    }

    /// Moves the editor's selection for the newly pressed buttons and flips
    /// the selected cell on the first button unless the player stands in it.
    fn edit_map(&mut self, just: u8)
        requires
            old(self).wf(),
        ensures
            final(self).wf(),
            editor_step(*old(self), *final(self), just),
            final(self).view == old(self).view,
            final(self).previous_gamepad == old(self).previous_gamepad,
    {
        let side = self.map.side;
        if up_pressed(just) && self.select_y > 1 {
            self.select_y = self.select_y - 1;
        }
        if down_pressed(just) && (self.select_y as usize) < side - 2 {
            self.select_y = self.select_y + 1;
        }
        if left_pressed(just) && self.select_x > 1 {
            self.select_x = self.select_x - 1;
        }
        if right_pressed(just) && (self.select_x as usize) < side - 2 {
            self.select_x = self.select_x + 1;
        }
        let sel_x = self.select_x as i64;
        let sel_y = self.select_y as i64;
        let on_player = sel_x == div_floor(self.player_x, ONE) && sel_y == div_floor(self.player_y, ONE);
        if x_pressed(just) && !on_player {
            let wall = self.map.is_wall(sel_y, sel_x);
            self.map.set(sel_y, sel_x, !wall);
        }
    }

    /// Runs one frame's decisions for the gamepad bits `gamepad`: the start
    /// menu waits for the first button, the first-person view moves the
    /// player, the editor moves its selection and edits the grid, and a new
    /// press of the second button swaps game and editor.
    pub fn update(&mut self, gamepad: u8)
        requires
            old(self).wf(),
        ensures
            final(self).wf(),
            final(self).view == next_view(old(self).view, gamepad, old(self).previous_gamepad),
            final(self).previous_gamepad == gamepad,
            old(self).view == Mode::FirstPerson ==> character_step(
                *old(self),
                *final(self),
                held(gamepad, BUTTON_LEFT),
                held(gamepad, BUTTON_RIGHT),
                held(gamepad, BUTTON_UP),
                held(gamepad, BUTTON_DOWN),
                held(gamepad, BUTTON_1),
            ),
            old(self).view == Mode::MapEditor ==> editor_step(
                *old(self),
                *final(self),
                just_pressed(gamepad, old(self).previous_gamepad),
            ),
            old(self).view == Mode::StartMenu ==> {
                &&& final(self).player_x == old(self).player_x
                &&& final(self).player_y == old(self).player_y
                &&& final(self).player_angle == old(self).player_angle
                &&& final(self).select_x == old(self).select_x
                &&& final(self).select_y == old(self).select_y
                &&& final(self).map == old(self).map
                &&& final(self).trig == old(self).trig
            },
    {
        let just = gamepad & (gamepad ^ self.previous_gamepad);
        match self.view {
            Mode::StartMenu => {
                if x_pressed(gamepad) {
                    self.set_view(Mode::FirstPerson);
                }
            },
            Mode::MapEditor => {
                self.edit_map(just);
            },
            Mode::FirstPerson => {
                self.update_character(
                    left_pressed(gamepad),
                    right_pressed(gamepad),
                    up_pressed(gamepad),
                    down_pressed(gamepad),
                    x_pressed(gamepad),
                );
            },
        }
        if z_pressed(just) {
            let next = match self.view {
                Mode::FirstPerson => Mode::MapEditor,
                Mode::MapEditor => Mode::FirstPerson,
                Mode::StartMenu => Mode::StartMenu,
            };
            self.set_view(next);
        }
        self.previous_gamepad = gamepad;
    }
}

} // verus!
