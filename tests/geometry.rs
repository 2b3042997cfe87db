use chinchilib::geometry::{
    degrees_to_angle, generate_ray_angles, move_forward, move_forward_floored, normalize_angle, TrigTable,
    HALF_TURN, QUARTER_TURN, TURN, UNIT,
};

fn sine_values() -> Vec<i64> {
    (0..TURN)
        .map(|k| ((k as f64) * std::f64::consts::TAU / (TURN as f64)).sin() * (UNIT as f64))
        .map(|v| v.round() as i64)
        .collect()
}

fn table() -> TrigTable {
    TrigTable::from_sines(sine_values()).unwrap()
}

fn to_angle(radians: f64) -> i64 {
    (radians * (TURN as f64) / std::f64::consts::TAU).round() as i64
}

fn to_radians(angle: i64) -> f64 {
    (angle as f64) * std::f64::consts::TAU / (TURN as f64)
}

fn to_units(v: i64) -> f64 {
    (v as f64) / (UNIT as f64)
}

#[test]
fn move_forward_floored_1() {
    let t = table();
    let res = move_forward_floored((0, 0), to_angle(0.0), UNIT, &t);
    assert_eq!(res, (1, 0));
    let res = move_forward_floored((0, 0), to_angle(0.0), 2 * UNIT, &t);
    assert_eq!(res, (2, 0));
    let res = move_forward_floored((10, 20), to_angle(0.0), 2 * UNIT, &t);
    assert_eq!(res, (12, 20));
}

#[test]
fn move_forward_1() {
    let t = table();
    let res = move_forward((0, 0), to_angle(0.0), UNIT, &t);
    assert_eq!(res, (UNIT, 0));
    let res = move_forward((0, 0), to_angle(std::f64::consts::PI), UNIT, &t);
    let res = (to_units(res.0), to_units(res.1));
    assert!(res.0 < -0.999);
    assert!(res.0 > -1.009);
    assert!(res.1 > -0.001);
    assert!(res.1 < 0.001);
    let res = move_forward((0, 0), to_angle(std::f64::consts::FRAC_PI_2), UNIT, &t);
    let res = (to_units(res.0), to_units(res.1));
    assert!(res.0 > -0.001);
    assert!(res.0 < 0.001);
    assert!(res.1 > 0.999);
    assert!(res.1 < 1.009);
    let res = move_forward((0, 0), to_angle(std::f64::consts::FRAC_PI_2 * 3.0), UNIT, &t);
    let res = (to_units(res.0), to_units(res.1));
    assert!(res.0 > -0.001);
    assert!(res.0 < 0.001);
    assert!(res.1 < -0.999);
    assert!(res.1 > -1.009);
}

#[test]
fn generate_ray_angles_odd_1() {
    let res: Vec<f64> = generate_ray_angles(3, to_angle(3.0)).into_iter().map(to_radians).collect();
    assert!(res[0] > -1.6);
    assert!(res[0] < 1.4);
    assert!(res[1] > -0.01);
    assert!(res[1] < 0.01);
    assert!(res[2] < 1.6);
    assert!(res[2] > 1.4);
}

#[test]
fn generate_ray_angles_odd_2() {
    let res: Vec<f64> = generate_ray_angles(5, to_angle(4.0)).into_iter().map(to_radians).collect();
    assert!(res[0] > -2.01);
    assert!(res[0] < 1.99);
    assert!(res[1] > -1.01);
    assert!(res[1] < 0.99);
    assert!(res[2] > -0.01);
    assert!(res[2] < 0.01);
    assert!(res[3] > 0.99);
    assert!(res[3] < 1.01);
    assert!(res[4] > 1.99);
    assert!(res[4] < 2.01);
}

#[test]
fn generate_ray_angles_even() {
    let res: Vec<f64> = generate_ray_angles(4, to_angle(4.0)).into_iter().map(to_radians).collect();
    assert!(res[0] > -2.01);
    assert!(res[0] < 1.99);
    assert!(res[1] > -0.67);
    assert!(res[1] < -0.66);
    assert!(res[2] > 0.66);
    assert!(res[2] < 0.67);
    assert!(res[3] > 1.99);
    assert!(res[3] < 2.01);
}

#[test]
fn ray_angles_exact_values() {
    assert_eq!(generate_ray_angles(5, 1000), vec![-500, -250, 0, 250, 500]);
    assert_eq!(generate_ray_angles(4, 900), vec![-450, -150, 150, 450]);
    assert_eq!(generate_ray_angles(3, 7), vec![-3, 0, 3]);
    assert_eq!(generate_ray_angles(4, 7), vec![-3, -1, 1, 3]);
    assert_eq!(generate_ray_angles(1, 1000), vec![0]);
    assert_eq!(generate_ray_angles(0, 1000), Vec::<i64>::new());
}

#[test]
fn ray_angles_span_and_spacing() {
    let n: usize = 7;
    let fov: i64 = 12_744;
    let res = generate_ray_angles(n, fov);
    assert_eq!(res.len(), n);
    assert_eq!(res[0], -fov / 2);
    assert_eq!(res[n - 1], fov / 2);
    for i in 0..n - 1 {
        let gap = (res[i + 1] - res[i]) * (n as i64 - 1);
        assert!(gap > fov - 2 * (n as i64 - 1));
        assert!(gap < fov + 2 * (n as i64 - 1));
    }
}

#[test]
fn ray_angles_mirror_for_odd_fov() {
    let res = generate_ray_angles(6, 12_743);
    assert_eq!(res[0], -6_371);
    assert_eq!(res[5], 6_371);
    for i in 0..6 {
        assert_eq!(res[i], -res[5 - i]);
    }
}

#[test]
fn move_zero_distance_stays() {
    let t = table();
    for direction in [0, 1234, QUARTER_TURN, HALF_TURN, -777, 3 * TURN / 2] {
        assert_eq!(move_forward((12_345, -6_789), direction, 0, &t), (12_345, -6_789));
    }
}

#[test]
fn move_forward_diagonal() {
    let t = table();
    // cos and sin of an eighth of a turn are both 0.7071.
    assert_eq!(move_forward((100, 200), TURN / 8, UNIT, &t), (100 + 7071, 200 + 7071));
    assert_eq!(move_forward((0, 0), HALF_TURN + TURN / 8, UNIT, &t), (-7071, -7071));
}

#[test]
fn floored_move_saturates_at_zero() {
    let t = table();
    assert_eq!(move_forward_floored((1, 1), HALF_TURN, 3 * UNIT, &t), (0, 1));
}

#[test]
fn trig_table_rejects_bad_input() {
    assert!(TrigTable::from_sines(vec![0; 10]).is_none());
    let mut v = sine_values();
    v[5] = UNIT + 1;
    assert!(TrigTable::from_sines(v).is_none());
    let t = table();
    assert_eq!(t.sin(QUARTER_TURN), UNIT);
    assert_eq!(t.cos(0), UNIT);
    assert_eq!(t.sin(-QUARTER_TURN), -UNIT);
}

#[test]
fn angles_normalize_into_one_turn() {
    assert_eq!(normalize_angle(-1), TURN - 1);
    assert_eq!(normalize_angle(TURN), 0);
    assert_eq!(normalize_angle(-TURN - 5), TURN - 5);
    assert_eq!(normalize_angle(i64::MIN), 0);
    assert_eq!(degrees_to_angle(70), 12_743);
    assert_eq!(degrees_to_angle(90), QUARTER_TURN);
}
