use raycaster::angle::{normalize, TrigTable, ANGLE_FULL, ANGLE_QUARTER, TABLE_LEN};
use raycaster::caster::{cast, Ray, ESCAPED, FOV, HALF_FOV, NUMBER_OF_RAYS, SCREEN_SIZE};
use raycaster::geometry::{distance, div_floor, isqrt, ONE};
use raycaster::grid::{in_bounds, GridMap, MAZE_SIDE, OPEN_DIGIT, ROW_END, WALL_DIGIT};
use raycaster::state::{
    down_pressed, left_clicked, left_pressed, right_clicked, right_pressed, up_pressed, x_pressed,
    z_pressed, Mode, State, BUTTON_1, BUTTON_2, BUTTON_DOWN, BUTTON_LEFT, BUTTON_RIGHT, BUTTON_UP,
    LOOK_STEP, MOVE_STEP, START_X, START_Y,
};

fn sine_values() -> Vec<i64> {
    (0..TABLE_LEN)
        .map(|i| {
            let a = (i as f64) * std::f64::consts::FRAC_PI_2 / (ANGLE_QUARTER as f64);
            (a.sin() * ONE as f64).round() as i64
        })
        .collect()
}

fn table() -> TrigTable {
    TrigTable::new(sine_values()).unwrap()
}

fn half(n: i64) -> i64 {
    n * ONE + ONE / 2
}

/// An 8 by 8 grid with a solid border, the player at `(x, y)` facing `angle`.
fn bordered_state(x: i64, y: i64, angle: i64) -> State {
    State::with_map(GridMap::bordered(8), table(), x, y, angle).unwrap()
}

#[test]
fn new_grid_is_open() {
    let g = GridMap::new(8);
    for row in -2..10 {
        for col in -2..10 {
            assert!(!g.is_wall(row, col));
        }
    }
}

#[test]
fn off_grid_reads_open() {
    let g = GridMap::bordered(8);
    assert!(g.is_wall(0, 0));
    assert!(g.is_wall(7, 3));
    assert!(!g.is_wall(-1, 0));
    assert!(!g.is_wall(0, 8));
    assert!(!g.is_wall(8, 8));
    assert!(!g.is_wall(3, 3));
}

#[test]
fn set_changes_one_cell() {
    let mut g = GridMap::new(4);
    g.set(2, 1, true);
    assert!(g.is_wall(2, 1));
    assert!(!g.is_wall(1, 2));
    g.set(2, 1, false);
    assert!(!g.is_wall(2, 1));
}

#[test]
fn bounds_of_cells() {
    assert!(in_bounds(15, 0, 0));
    assert!(in_bounds(15, 14, 14));
    assert!(!in_bounds(15, 15, 0));
    assert!(!in_bounds(15, 0, -1));
    assert!(!in_bounds(15, -1, 3));
}

#[test]
fn maze_has_walls_on_its_border() {
    let g = GridMap::maze();
    assert_eq!(g.side, MAZE_SIDE);
    for i in 0..15 {
        assert!(g.is_wall(0, i));
        assert!(g.is_wall(14, i));
        assert!(g.is_wall(i, 0));
        assert!(g.is_wall(i, 14));
    }
    assert!(!g.is_wall(1, 1));
    assert!(g.is_wall(2, 2));
}

#[test]
fn encode_writes_rows_of_digits() {
    let mut g = GridMap::new(2);
    g.set(0, 1, true);
    let text = g.encode();
    assert_eq!(text, vec![OPEN_DIGIT, WALL_DIGIT, ROW_END, OPEN_DIGIT, OPEN_DIGIT, ROW_END]);
    assert_eq!(text, b"01\n00\n".to_vec());
}

#[test]
fn round_trip_of_maze() {
    let g = GridMap::maze();
    let back = GridMap::decode(&g.encode()).unwrap();
    assert_eq!(back.side, g.side);
    assert_eq!(back.cells, g.cells);
}

#[test]
fn round_trip_of_edited_grid() {
    let mut g = GridMap::bordered(8);
    g.set(3, 4, true);
    g.set(0, 0, false);
    let back = GridMap::decode(&g.encode()).unwrap();
    assert_eq!(back.side, 8);
    assert_eq!(back.cells, g.cells);
}

#[test]
fn decode_reads_text() {
    let g = GridMap::decode(&b"111\n101\n111\n".to_vec()).unwrap();
    assert_eq!(g.side, 3);
    assert!(g.is_wall(0, 0));
    assert!(!g.is_wall(1, 1));
    assert!(g.is_wall(1, 2));
}

#[test]
fn decode_rejects_bad_text() {
    assert!(GridMap::decode(&Vec::new()).is_none());
    assert!(GridMap::decode(&b"111\n101\n11\n".to_vec()).is_none());
    assert!(GridMap::decode(&b"111\n1x1\n111\n".to_vec()).is_none());
    assert!(GridMap::decode(&b"1111101111\n".to_vec()).is_none());
    assert!(GridMap::decode(&b"11\n11 ".to_vec()).is_none());
}

#[test]
fn normalize_wraps_angles() {
    assert_eq!(normalize(0), 0);
    assert_eq!(normalize(ANGLE_FULL), 0);
    assert_eq!(normalize(-1), ANGLE_FULL - 1);
    assert_eq!(normalize(ANGLE_FULL + 5), 5);
    assert_eq!(normalize(-3 * ANGLE_FULL - 7), ANGLE_FULL - 7);
}

#[test]
fn normalize_is_idempotent_and_turn_invariant() {
    for a in [-40000i64, -16384, -91, 0, 5, 4096, 16383, 16384, 99999] {
        let n = normalize(a);
        assert_eq!(normalize(n), n);
        assert_eq!(normalize(a + ANGLE_FULL), n);
        assert_eq!(normalize(a - ANGLE_FULL), n);
        assert!(0 <= n && n < ANGLE_FULL);
    }
}

#[test]
fn table_conditions() {
    assert!(TrigTable::new(Vec::new()).is_none());
    let mut v = sine_values();
    v[0] = 1;
    assert!(TrigTable::new(v).is_none());
    let mut v = sine_values();
    v[ANGLE_QUARTER as usize] = ONE - 1;
    assert!(TrigTable::new(v).is_none());
    let mut v = sine_values();
    v[10] = -1;
    assert!(TrigTable::new(v).is_none());
    let mut v = sine_values();
    v[10] = 0;
    assert!(TrigTable::new(v).is_none());
    let mut v = sine_values();
    v[10] = ONE + 1;
    assert!(TrigTable::new(v).is_none());
    assert!(TrigTable::new(sine_values()).is_some());
}

#[test]
fn table_symmetries() {
    let t = table();
    assert_eq!(t.cos(0), ONE);
    assert_eq!(t.sin(0), 0);
    assert_eq!(t.sin(ANGLE_QUARTER), ONE);
    assert_eq!(t.cos(ANGLE_QUARTER), 0);
    assert_eq!(t.cos(2 * ANGLE_QUARTER), -ONE);
    assert_eq!(t.sin(3 * ANGLE_QUARTER), -ONE);
    assert_eq!(t.sin(-ANGLE_QUARTER), -ONE);
    let v = sine_values();
    assert_eq!(t.sin(100), v[100]);
    assert_eq!(t.sin(2 * ANGLE_QUARTER - 100), v[100]);
    assert_eq!(t.sin(2 * ANGLE_QUARTER + 100), -v[100]);
    assert_eq!(t.cos(100), v[4096 - 100]);
}

#[test]
fn square_roots() {
    assert_eq!(isqrt(0), 0);
    assert_eq!(isqrt(15), 3);
    assert_eq!(isqrt(16), 4);
    assert_eq!(isqrt(17), 4);
    assert_eq!(isqrt(1 << 84), 1 << 42);
    assert_eq!(distance(3 * ONE, -4 * ONE), (5 * ONE) as u64);
    assert_eq!(distance(0, 0), 0);
    assert_eq!(distance(1, 1), 1);
}

#[test]
fn floor_division() {
    assert_eq!(div_floor(7, 2), 3);
    assert_eq!(div_floor(-7, 2), -4);
    assert_eq!(div_floor(-1, ONE), -1);
}

#[test]
fn adjacent_wall_along_column_axis() {
    // The wall column 7 is one unit in front of x = 6.
    let s = bordered_state(6 * ONE, half(3), 0);
    let ray = s.raycast(0);
    assert_eq!(ray.distance, ONE as u64);
    assert!(ray.vertical);
    assert_eq!(ray.perpendicular, ONE);
}

#[test]
fn adjacent_wall_along_row_axis() {
    // Facing a quarter turn: towards larger rows; row 7 is one unit away.
    let s = bordered_state(half(3), 6 * ONE, ANGLE_QUARTER);
    let ray = s.raycast(ANGLE_QUARTER);
    assert_eq!(ray.distance, ONE as u64);
    assert!(!ray.vertical);
    let ray = s.raycast(3 * ANGLE_QUARTER);
    assert_eq!(ray.distance, (5 * ONE) as u64);
    assert!(!ray.vertical);
}

#[test]
fn border_three_and_a_half_cells_ahead() {
    let s = bordered_state(half(3), half(3), 0);
    let ray = s.raycast(0);
    assert_eq!(ray.distance, (7 * ONE - half(3)) as u64);
    assert_eq!(ray.distance, 229376);
    assert!(ray.vertical);
    assert_eq!(ray.angle_diff, 0);
}

#[test]
fn single_open_cell_walls_half_a_cell_away() {
    let mut g = GridMap::new(8);
    for r in 0..8 {
        for c in 0..8 {
            if !(r == 3 && c == 3) {
                g.set(r, c, true);
            }
        }
    }
    let s = State::with_map(g, table(), half(3), half(3), 0).unwrap();
    let ray = s.raycast(0);
    assert_eq!(ray.distance, (ONE / 2) as u64);
    assert!(ray.vertical);
    let ray = s.raycast(ANGLE_QUARTER);
    assert_eq!(ray.distance, (ONE / 2) as u64);
    assert!(!ray.vertical);
}

#[test]
fn diagonal_ray_meets_a_wall() {
    // From a cell centre at 45 degrees the ray leaves through the cell corner.
    let s = bordered_state(half(3), half(3), 0);
    let t = table();
    let ray = cast(&s.map, &t, half(3), half(3), 0, ANGLE_QUARTER / 2);
    assert!(ray.distance > 0);
    assert!(ray.distance < ESCAPED);
}

#[test]
fn open_world_ray_escapes() {
    let g = GridMap::new(8);
    let t = table();
    let ray = cast(&g, &t, half(3), half(3), 0, 0);
    assert_eq!(ray.distance, ESCAPED);
    assert!(ray.vertical);
    assert_eq!(ray.wall_height(), 0);
}

#[test]
fn centre_ray_needs_no_correction() {
    let s = bordered_state(half(2), half(4), 1234);
    let ray = s.raycast(1234);
    assert_eq!(ray.angle_diff, 0);
    assert_eq!(ray.perpendicular, ray.distance as i64);
    let rays = s.get_rays();
    let centre = &rays[NUMBER_OF_RAYS / 2];
    assert_eq!(centre.angle_diff, 0);
    assert_eq!(centre.perpendicular, centre.distance as i64);
}

#[test]
fn off_centre_ray_is_shortened() {
    let s = bordered_state(half(3), half(3), 0);
    let ray = s.raycast(HALF_FOV);
    assert!(ray.perpendicular < ray.distance as i64);
    assert!(ray.perpendicular > 0);
}

#[test]
fn sweep_covers_field_of_view_in_order() {
    let s = bordered_state(half(3), half(3), 500);
    let rays = s.get_rays();
    assert_eq!(rays.len(), NUMBER_OF_RAYS);
    assert_eq!(rays[0].angle_diff, -HALF_FOV);
    for i in 0..NUMBER_OF_RAYS {
        let expected = -HALF_FOV + (i as i64 * FOV) / NUMBER_OF_RAYS as i64;
        assert_eq!(rays[i].angle_diff, expected);
        assert!(rays[i].distance < ESCAPED);
        assert_eq!(rays[i], s.raycast(500 + expected));
    }
}

#[test]
fn sweep_leaves_state_alone() {
    let s = bordered_state(half(3), half(3), 500);
    let first: Vec<Ray> = s.get_rays().iter().copied().collect();
    let second: Vec<Ray> = s.get_rays().iter().copied().collect();
    assert_eq!(first, second);
    assert_eq!(s.player_x, half(3));
    assert_eq!(s.player_angle, 500);
}

#[test]
fn wall_heights() {
    let ray = |p: i64| Ray { angle_diff: 0, distance: 0, perpendicular: p, vertical: true };
    assert_eq!(ray(ONE).wall_height(), 100);
    assert_eq!(ray(2 * ONE).wall_height(), 50);
    assert_eq!(ray(ONE / 2).wall_height(), SCREEN_SIZE);
    assert_eq!(ray(0).wall_height(), SCREEN_SIZE);
    assert_eq!(ray(-5).wall_height(), SCREEN_SIZE);
    assert_eq!(ray(ESCAPED as i64).wall_height(), 0);
}

#[test]
fn walking_into_wall_keeps_position() {
    // Column 7 is the border; the player stands just in front of it.
    let mut s = bordered_state(7 * ONE - 100, half(3), 0);
    let (x, y) = (s.player_x, s.player_y);
    s.update_character(false, false, true, false, false);
    assert_eq!((s.player_x, s.player_y), (x, y));
    s.update_character(false, false, true, false, true);
    assert_eq!((s.player_x, s.player_y), (x, y));
}

#[test]
fn walking_into_open_cell_moves_by_step() {
    let mut s = bordered_state(half(3), half(3), 0);
    assert_eq!((s.step_x, s.step_y), (MOVE_STEP, 0));
    s.update_character(false, false, true, false, false);
    assert_eq!((s.player_x, s.player_y), (half(3) + MOVE_STEP, half(3)));
    s.update_character(false, false, false, true, false);
    assert_eq!((s.player_x, s.player_y), (half(3), half(3)));
    s.update_character(false, false, true, false, true);
    assert_eq!(s.player_x, half(3) + MOVE_STEP * 3 / 2);
}

#[test]
fn walking_along_rows() {
    let mut s = bordered_state(half(3), half(3), ANGLE_QUARTER);
    assert_eq!((s.step_x, s.step_y), (0, MOVE_STEP));
    s.update_character(false, false, true, false, false);
    assert_eq!((s.player_x, s.player_y), (half(3), half(3) + MOVE_STEP));
}

#[test]
fn turning_wraps_and_comes_first() {
    let mut s = bordered_state(half(3), half(3), 0);
    s.update_character(true, false, false, false, false);
    assert_eq!(s.player_angle, LOOK_STEP);
    s.update_character(false, true, false, false, false);
    assert_eq!(s.player_angle, 0);
    s.update_character(false, true, false, false, false);
    assert_eq!(s.player_angle, ANGLE_FULL - LOOK_STEP);
    s.update_character(true, true, false, false, false);
    assert_eq!(s.player_angle, ANGLE_FULL - LOOK_STEP);
    // Turning and moving in one tick moves along the new facing.
    let mut s = bordered_state(half(3), half(3), ANGLE_QUARTER - LOOK_STEP);
    s.update_character(true, false, true, false, false);
    assert_eq!(s.player_angle, ANGLE_QUARTER);
    assert_eq!((s.player_x, s.player_y), (half(3), half(3) + MOVE_STEP));
}

#[test]
fn placement_must_be_open_floor() {
    let t = table;
    assert!(State::with_map(GridMap::bordered(8), t(), half(0), half(3), 0).is_none());
    assert!(State::with_map(GridMap::bordered(8), t(), 0, half(3), 0).is_none());
    assert!(State::with_map(GridMap::bordered(8), t(), half(3), 8 * ONE, 0).is_none());
    assert!(State::with_map(GridMap::new(2), t(), half(1), half(1), 0).is_none());
    let s = State::with_map(GridMap::bordered(8), t(), half(3), half(3), -1).unwrap();
    assert_eq!(s.player_angle, ANGLE_FULL - 1);
    assert_eq!(s.view, Mode::FirstPerson);
}

#[test]
fn start_menu_waits_for_first_button() {
    let mut s = State::new(table());
    assert_eq!(s.view, Mode::StartMenu);
    assert_eq!((s.player_x, s.player_y), (START_X, START_Y));
    s.update(BUTTON_2);
    assert_eq!(s.view, Mode::StartMenu);
    s.update(0);
    s.update(BUTTON_1);
    assert_eq!(s.view, Mode::FirstPerson);
    assert_eq!((s.player_x, s.player_y), (START_X, START_Y));
}

#[test]
fn second_button_swaps_game_and_editor() {
    let mut s = bordered_state(half(3), half(3), 0);
    s.update(BUTTON_2);
    assert_eq!(s.view, Mode::MapEditor);
    // Held down, it is not a new press.
    s.update(BUTTON_2);
    assert_eq!(s.view, Mode::MapEditor);
    s.update(0);
    s.update(BUTTON_2);
    assert_eq!(s.view, Mode::FirstPerson);
}

#[test]
fn game_view_moves_player_from_gamepad() {
    let mut s = bordered_state(half(3), half(3), 0);
    s.update(BUTTON_UP);
    assert_eq!(s.player_x, half(3) + MOVE_STEP);
    s.update(BUTTON_LEFT);
    assert_eq!(s.player_angle, LOOK_STEP);
}

#[test]
fn editor_moves_selection_within_inner_cells() {
    let mut s = bordered_state(half(3), half(3), 0);
    s.set_view(Mode::MapEditor);
    assert_eq!((s.select_x, s.select_y), (1, 1));
    s.update(BUTTON_UP);
    assert_eq!((s.select_x, s.select_y), (1, 1));
    s.update(0);
    s.update(BUTTON_DOWN | BUTTON_RIGHT);
    assert_eq!((s.select_x, s.select_y), (2, 2));
    for _ in 0..10 {
        s.update(0);
        s.update(BUTTON_DOWN | BUTTON_RIGHT);
    }
    assert_eq!((s.select_x, s.select_y), (6, 6));
    s.update(0);
    s.update(BUTTON_LEFT);
    assert_eq!((s.select_x, s.select_y), (5, 6));
}

#[test]
fn editor_flips_selected_cell_but_not_players() {
    let mut s = bordered_state(half(3), half(3), 0);
    s.set_view(Mode::MapEditor);
    s.update(BUTTON_1);
    assert!(s.map.is_wall(1, 1));
    s.update(0);
    s.update(BUTTON_1);
    assert!(!s.map.is_wall(1, 1));
    // Move the selection onto the player's cell (3, 3).
    for _ in 0..2 {
        s.update(0);
        s.update(BUTTON_DOWN | BUTTON_RIGHT);
    }
    assert_eq!((s.select_x, s.select_y), (3, 3));
    s.update(0);
    s.update(BUTTON_1);
    assert!(!s.map.is_wall(3, 3));
}

#[test]
fn gamepad_bits() {
    assert!(x_pressed(BUTTON_1));
    assert!(!x_pressed(BUTTON_2));
    assert!(z_pressed(BUTTON_2 | BUTTON_UP));
    assert!(up_pressed(BUTTON_UP));
    assert!(down_pressed(BUTTON_DOWN));
    assert!(left_pressed(BUTTON_LEFT));
    assert!(right_pressed(BUTTON_RIGHT));
    assert!(!right_pressed(BUTTON_LEFT));
    assert!(left_clicked(1));
    assert!(right_clicked(2));
    assert!(!left_clicked(2));
}

#[test]
fn walled_grid_rays_always_meet_walls() {
    let s = State::new(table());
    let mut angle = -ANGLE_FULL;
    while angle < 2 * ANGLE_FULL {
        let ray = s.raycast(angle);
        assert!(ray.distance < ESCAPED);
        angle += 97;
    }
    for (x, y) in [(half(1), half(1)), (ONE + 1, 13 * ONE + 5), (half(7), half(5))] {
        let s = State::with_map(GridMap::maze(), table(), x, y, 321).unwrap();
        for ray in s.get_rays().iter() {
            assert!(ray.distance < ESCAPED);
        }
        for a in [0, ANGLE_QUARTER, 2 * ANGLE_QUARTER, 3 * ANGLE_QUARTER] {
            assert!(s.raycast(a).distance < ESCAPED);
        }
    }
}
