use ink_stroke::geometry::{
    dist2, isqrt, left_vertex, perp_offset, right_vertex, scale, unit_component, Point, Vertex,
    MAX_THICKNESS, UNIT_ONE,
};
use ink_stroke::pen::{
    clamp_pressure, flat_pressure_curve, half_width, FlatCurve, PressureCurve, PRESSURE_ONE,
};

#[test]
fn isqrt_rounds_down() {
    assert_eq!(isqrt(0), 0);
    assert_eq!(isqrt(1), 1);
    assert_eq!(isqrt(2), 1);
    assert_eq!(isqrt(3), 1);
    assert_eq!(isqrt(4), 2);
    assert_eq!(isqrt(99), 9);
    assert_eq!(isqrt(100), 10);
    assert_eq!(isqrt(u64::MAX), 4294967295);
    assert_eq!(isqrt(1 << 60), 1 << 30);
    assert_eq!(isqrt((1 << 60) - 1), (1 << 30) - 1);
}

#[test]
fn isqrt_brackets_its_argument() {
    let mut n: u64 = 1;
    while n < u64::MAX / 3 {
        let r = isqrt(n) as u128;
        assert!(r * r <= n as u128 && (n as u128) < (r + 1) * (r + 1));
        n = n * 3 + 1;
    }
}

#[test]
fn dist2_of_extremes() {
    let a = Point { x: i32::MIN, y: i32::MIN };
    let b = Point { x: i32::MAX, y: i32::MAX };
    assert_eq!(dist2(a, b), 2 * 4294967295u128 * 4294967295u128);
    assert_eq!(dist2(a, a), 0);
    assert_eq!(dist2(Point { x: 0, y: 0 }, Point { x: 3, y: -4 }), 25);
}

#[test]
fn unit_component_values() {
    assert_eq!(unit_component(5, 25), UNIT_ONE as i64);
    assert_eq!(unit_component(-5, 25), -(UNIT_ONE as i64));
    assert_eq!(unit_component(0, 25), 0);
    assert_eq!(unit_component(3, 25), 644245094);
    assert_eq!(unit_component(-4, 25), -858993459);
}

#[test]
fn scale_rounds_toward_zero() {
    assert_eq!(scale(UNIT_ONE as i64, 77), 77);
    assert_eq!(scale(-(UNIT_ONE as i64), 77), -77);
    assert_eq!(scale(UNIT_ONE as i64 / 2, 5), 2);
    assert_eq!(scale(-(UNIT_ONE as i64) / 2, 5), -2);
    assert_eq!(scale(0, MAX_THICKNESS), 0);
    assert_eq!(scale(UNIT_ONE as i64, MAX_THICKNESS), MAX_THICKNESS as i64);
}

#[test]
fn perp_offset_turns_right() {
    let o = Point { x: 0, y: 0 };
    assert_eq!(perp_offset(o, Point { x: 9, y: 0 }, 4), (0, -4));
    assert_eq!(perp_offset(o, Point { x: -9, y: 0 }, 4), (0, 4));
    assert_eq!(perp_offset(o, Point { x: 0, y: 9 }, 4), (4, 0));
    assert_eq!(perp_offset(o, Point { x: 0, y: -9 }, 4), (-4, 0));
    assert_eq!(perp_offset(o, Point { x: 300, y: 400 }, 1000), (799, -599));
}

#[test]
fn vertices_left_and_right() {
    let at = Point { x: 10, y: -10 };
    assert_eq!(left_vertex(at, (3, -4)), Vertex { x: 7, y: -6 });
    assert_eq!(right_vertex(at, (3, -4)), Vertex { x: 13, y: -14 });
}

#[test]
fn pressure_is_clamped() {
    assert_eq!(clamp_pressure(-1), 0);
    assert_eq!(clamp_pressure(i64::MIN), 0);
    assert_eq!(clamp_pressure(0), 0);
    assert_eq!(clamp_pressure(12345), 12345);
    assert_eq!(clamp_pressure(65536), PRESSURE_ONE);
    assert_eq!(clamp_pressure(65537), PRESSURE_ONE);
    assert_eq!(clamp_pressure(i64::MAX), PRESSURE_ONE);
}

#[test]
fn flat_curve_is_identity() {
    assert_eq!(flat_pressure_curve(0), 0);
    assert_eq!(flat_pressure_curve(40000), 40000);
    assert_eq!(FlatCurve.width_multiplier(PRESSURE_ONE), PRESSURE_ONE);
}

#[test]
fn half_width_formula() {
    assert_eq!(half_width(16, PRESSURE_ONE), 8);
    assert_eq!(half_width(16, PRESSURE_ONE / 2), 4);
    assert_eq!(half_width(15, PRESSURE_ONE), 7);
    assert_eq!(half_width(0, PRESSURE_ONE), 0);
    assert_eq!(half_width(16, 0), 0);
    assert_eq!(half_width(u32::MAX, u32::MAX), 140737488289792);
    assert!(half_width(u32::MAX, u32::MAX) <= MAX_THICKNESS);
}

#[test]
fn offset_is_close_to_the_exact_one() {
    let o = Point { x: 0, y: 0 };
    let mut seed: u64 = 12345;
    for _ in 0..2000 {
        seed = seed.wrapping_mul(6364136223846793005).wrapping_add(1442695040888963407);
        let x = ((seed >> 33) % 20001) as i32 - 10000;
        seed = seed.wrapping_mul(6364136223846793005).wrapping_add(1442695040888963407);
        let y = ((seed >> 33) % 20001) as i32 - 10000;
        seed = seed.wrapping_mul(6364136223846793005).wrapping_add(1442695040888963407);
        let hw = (seed >> 33) % 5000;
        if x == 0 && y == 0 {
            continue;
        }
        let (ox, oy) = perp_offset(o, Point { x, y }, hw);
        let len = ((x as f64) * (x as f64) + (y as f64) * (y as f64)).sqrt();
        let ex = y as f64 * hw as f64 / len;
        let ey = -(x as f64) * hw as f64 / len;
        assert!((ox as f64).abs() <= ex.abs() + 1e-6 && ex.abs() - (ox as f64).abs() < 2.0);
        assert!((oy as f64).abs() <= ey.abs() + 1e-6 && ey.abs() - (oy as f64).abs() < 2.0);
        assert!(ox as f64 * ex >= 0.0 && oy as f64 * ey >= 0.0);
        assert!((ox as i128).pow(2) + (oy as i128).pow(2) <= (hw as i128).pow(2));
    }
}
