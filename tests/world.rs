use chinchilib::geometry::{TrigTable, HALF_TURN, QUARTER_TURN, TURN, UNIT};
use chinchilib::grid::GridMap;
use chinchilib::keys::{KeySet, MyKeys};
use chinchilib::raycast::{key_command, Command, Heading, PanDirection, World, MARCH_STEP, PAN_STEP};

fn table() -> TrigTable {
    let v: Vec<i64> = (0..TURN)
        .map(|k| ((k as f64) * std::f64::consts::TAU / (TURN as f64)).sin() * (UNIT as f64))
        .map(|v| v.round() as i64)
        .collect();
    TrigTable::from_sines(v).unwrap()
}

#[test]
fn default_world_layout() {
    let w = World::new(table());
    assert_eq!(w.position_xy(), (2 * UNIT, 2 * UNIT));
    assert_eq!(w.heading_angle(), 0);
    assert_eq!(w.fov_angle(), 12_743);
    assert!(!w.is_wall((2 * UNIT, 2 * UNIT)));
    assert!(w.is_wall((0, 2 * UNIT)));
    assert!(w.is_wall((4 * UNIT + 10, 2 * UNIT)));
}

#[test]
fn wall_test_truncates_and_bounds() {
    let w = World::new(table());
    assert!(!w.is_wall((15_000, 15_000)));
    assert!(!w.is_wall((39_999, 39_999)));
    assert!(w.is_wall((40_000, 20_000)));
    // -0.5 truncates to cell 0, which is the border wall.
    assert!(w.is_wall((-5_000, 20_000)));
    assert!(w.is_wall((-20_000, 20_000)));
    assert!(w.is_wall((60_000, 20_000)));
    assert!(w.is_wall((i64::MIN, i64::MAX)));
}

#[test]
fn distance_to_border_within_one_step() {
    let w = World::new(table());
    let d = w.distance_to_wall(0);
    assert!((d - 2 * UNIT).abs() <= MARCH_STEP);
    assert_eq!(d, 20_000);
    assert_eq!(w.distance_to_wall(1000 * TURN), 20_000);
    assert_eq!(w.distance_to_wall(i64::MIN), 20_000);
    assert_eq!(w.distance_to_wall(-3 * TURN + HALF_TURN), 10_100);
}

#[test]
fn distance_backward_first_wall_step() {
    let w = World::new(table());
    // The ray leaves cell 1 for the border cell 0 once x drops under 1.0.
    assert_eq!(w.distance_to_wall(HALF_TURN), 10_100);
    assert_eq!(w.distance_to_wall(QUARTER_TURN), 20_000);
    assert_eq!(w.distance_to_wall(-QUARTER_TURN), 10_100);
}

#[test]
fn open_map_edge_counts_as_wall() {
    let map = GridMap::new(3, 3);
    let w = World::from_parts(map, (UNIT / 2, UNIT / 2), 0, 1000, table()).unwrap();
    // Out of the grid counts as a wall: x reaches 3.0 after 2.5 units.
    assert_eq!(w.distance_to_wall(0), 25_000);
}

#[test]
fn march_gives_up_at_guard() {
    let flat = TrigTable::from_sines(vec![0; TURN as usize]).unwrap();
    let w = World::from_parts(GridMap::new(3, 3), (UNIT / 2, UNIT / 2), 0, 1000, flat).unwrap();
    // A table of zeros never moves the ray: the march ends at (3 + 3 + 1) units.
    assert_eq!(w.distance_to_wall(0), 70_000);
}

#[test]
fn column_distances_follow_rays() {
    let w = World::new(table());
    let ds = w.distance_to_walls(5);
    assert_eq!(ds.len(), 5);
    assert_eq!(ds[2], 20_000);
    // To the left the ray meets the wall at y = 1 after about 1.74 units; to
    // the right the wall at x = 4 after about 2.44.
    assert!(ds[0] > 17_000 && ds[0] < 18_000);
    assert!(ds[4] > 24_000 && ds[4] < 25_000);
    let angles = chinchilib::generate_ray_angles(5, w.fov_angle());
    for i in 0..5 {
        assert_eq!(ds[i], w.distance_to_wall(angles[i]));
    }
}

#[test]
fn forward_moves_until_wall() {
    let mut w = World::new(table());
    w.move_player(Heading::Forward);
    assert_eq!(w.position_xy(), (22_000, 20_000));
    for _ in 0..20 {
        w.move_player(Heading::Forward);
        let p = w.position_xy();
        assert!(!w.is_wall(p));
    }
    assert_eq!(w.position_xy(), (38_000, 20_000));
}

#[test]
fn strafe_and_back_moves() {
    let mut w = World::new(table());
    w.move_player(Heading::Left);
    assert_eq!(w.position_xy(), (20_000, 18_000));
    w.move_player(Heading::Right);
    assert_eq!(w.position_xy(), (20_000, 20_000));
    w.move_player(Heading::Backward);
    assert_eq!(w.position_xy(), (18_000, 20_000));
}

#[test]
fn pans_wrap_around() {
    let mut w = World::new(table());
    w.pan_left();
    assert_eq!(w.heading_angle(), TURN - PAN_STEP);
    w.pan_right();
    assert_eq!(w.heading_angle(), 0);
    w.pan_right();
    assert_eq!(w.heading_angle(), PAN_STEP);
    assert_eq!(w.position_xy(), (2 * UNIT, 2 * UNIT));
}

#[test]
fn tick_applies_each_held_key_in_order() {
    let mut w = World::new(table());
    let mut keys = KeySet::new();
    keys.insert(MyKeys::Right);
    keys.insert(MyKeys::Up);
    assert!(w.on_tick(&keys));
    assert_eq!(w.position_xy(), (22_000, 20_000));
    assert_eq!(w.heading_angle(), PAN_STEP);
    assert!(!w.on_tick(&KeySet::new()));
    assert_eq!(w.position_xy(), (22_000, 20_000));
}

#[test]
fn key_commands() {
    assert_eq!(key_command(MyKeys::KeyZ), Command::Move(Heading::Forward));
    assert_eq!(key_command(MyKeys::Down), Command::Move(Heading::Backward));
    assert_eq!(key_command(MyKeys::KeyQ), Command::Move(Heading::Left));
    assert_eq!(key_command(MyKeys::KeyD), Command::Move(Heading::Right));
    assert_eq!(key_command(MyKeys::KeyA), Command::Pan(PanDirection::Left));
    assert_eq!(key_command(MyKeys::Right), Command::Pan(PanDirection::Right));
}

#[test]
fn world_from_parts_checks() {
    assert!(World::from_parts(GridMap::bordered(5, 5), (0, 0), 0, 100, table()).is_none());
    assert!(World::from_parts(GridMap::bordered(5, 5), (UNIT, UNIT), 0, TURN + 1, table()).is_none());
    assert!(World::from_parts(GridMap::bordered(5, 5), (UNIT, UNIT), 0, -1, table()).is_none());
    let w = World::from_parts(GridMap::bordered(5, 5), (UNIT, UNIT), -PAN_STEP, 100, table()).unwrap();
    assert_eq!(w.heading_angle(), TURN - PAN_STEP);
    assert_eq!(w.fov_angle(), 100);
}

#[test]
fn grid_map_cells() {
    let mut m = GridMap::new(3, 2);
    assert_eq!(m.columns(), 3);
    assert_eq!(m.rows(), 2);
    assert!(!m.is_wall_cell(1, 1));
    m.set_wall(1, 1);
    assert!(m.is_wall_cell(1, 1));
    assert!(!m.is_wall_cell(0, 0));
    m.set_wall(5, 5);
    assert!(m.is_wall_cell(3, 0));
    assert!(m.is_wall_cell(0, 2));
    assert!(m.is_wall_cell(-1, 0));
    let b = GridMap::bordered(4, 3);
    assert!(!b.is_wall_cell(1, 1));
    assert!(!b.is_wall_cell(2, 1));
    assert!(b.is_wall_cell(0, 1));
    assert!(b.is_wall_cell(3, 2));
    assert!(b.is_wall_cell(2, 0));
}

#[test]
fn view_projects_middle_column() {
    let w = World::new(table());
    let wall = rgb::RGBA8 { r: 1, g: 2, b: 3, a: 4 };
    let void = rgb::RGBA8 { r: 0, g: 0, b: 0, a: 0 };
    let mut frame = vec![9u8; 5 * 10 * 4];
    w.draw(&mut frame, 5, 10, wall, void);
    // The middle ray meets the wall 2 units away: a column of 10 / 2 = 5 rows.
    for y in 0..10 {
        let i = (y * 5 + 2) * 4;
        let expected = if (3..8).contains(&y) { [1, 2, 3, 4] } else { [0, 0, 0, 0] };
        assert_eq!(&frame[i..i + 4], &expected);
    }
}
