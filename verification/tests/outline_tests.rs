use ink_stroke::geometry::{Point, Vertex};
use ink_stroke::outline::{
    pen_stroke_to_path, retain_distinct, segment_to_path, stroke_data_to_path, stroke_point_of,
    StrokeData, StrokePoint,
};
use ink_stroke::pen::{FlatCurve, PenEvent, PressureCurve, PRESSURE_ONE};

/// Grid units per pixel used by these tests.
const SUB: i32 = 256;

fn sample(x: i32, y: i32, pressure: u32) -> PenEvent {
    PenEvent { pos: Point { x: x * SUB, y: y * SUB }, pressure, speed: PRESSURE_ONE }
}

fn point(x: i32, y: i32, thickness: u64) -> StrokePoint {
    StrokePoint { pos: Point { x, y }, thickness }
}

fn stroke(points: Vec<StrokePoint>) -> StrokeData {
    StrokeData::from_points(points).unwrap()
}

fn to_pixels(v: &Vertex) -> (f64, f64) {
    (v.x as f64 / SUB as f64, v.y as f64 / SUB as f64)
}

#[test]
fn straight_stroke_gives_rectangle() {
    let stroke = vec![sample(0, 0, PRESSURE_ONE), sample(100, 0, PRESSURE_ONE)];
    let poly = pen_stroke_to_path(&stroke, 16 * SUB as u32, &FlatCurve);
    let got: Vec<(f64, f64)> = poly.vertices.iter().map(to_pixels).collect();
    assert_eq!(got.len(), 4);
    let expected = [(0.0, -8.0), (0.0, 8.0), (100.0, 8.0), (100.0, -8.0)];
    // The ribbon is a closed loop: it may start at any of its corners.
    let start = got
        .iter()
        .position(|p| (p.0 - expected[0].0).abs() < 1e-4 && (p.1 - expected[0].1).abs() < 1e-4)
        .unwrap();
    for k in 0..4 {
        let p = got[(start + k) % 4];
        assert!((p.0 - expected[k].0).abs() < 1e-4, "{:?}", got);
        assert!((p.1 - expected[k].1).abs() < 1e-4, "{:?}", got);
    }
}

#[test]
fn straight_stroke_exact_vertices() {
    let stroke = vec![sample(0, 0, PRESSURE_ONE), sample(100, 0, PRESSURE_ONE)];
    let poly = pen_stroke_to_path(&stroke, 16 * SUB as u32, &FlatCurve);
    assert_eq!(
        poly.vertices,
        vec![
            Vertex { x: 0, y: 8 * 256 },
            Vertex { x: 100 * 256, y: 8 * 256 },
            Vertex { x: 100 * 256, y: -8 * 256 },
            Vertex { x: 0, y: -8 * 256 },
        ]
    );
}

#[test]
fn vertical_stroke_exact_vertices() {
    let data = stroke(vec![point(0, 0, 5), point(0, 40, 7)]);
    let poly = stroke_data_to_path(&data);
    assert_eq!(
        poly.vertices,
        vec![
            Vertex { x: -5, y: 0 },
            Vertex { x: -7, y: 40 },
            Vertex { x: 7, y: 40 },
            Vertex { x: 5, y: 0 },
        ]
    );
}

#[test]
fn diagonal_stroke_rounds_toward_the_points() {
    // Direction (300, 400) has length 500; the exact offset at half-width
    // 1000 is (800, -600), and each component is rounded toward zero.
    let data = stroke(vec![point(0, 0, 1000), point(300, 400, 1000)]);
    let poly = stroke_data_to_path(&data);
    assert_eq!(
        poly.vertices,
        vec![
            Vertex { x: -799, y: 599 },
            Vertex { x: 300 - 799, y: 400 + 599 },
            Vertex { x: 300 + 799, y: 400 - 599 },
            Vertex { x: 799, y: -599 },
        ]
    );
}

#[test]
fn interior_point_uses_the_segment_just_walked() {
    // Right, then up. On the way out the corner is offset perpendicular to
    // the first segment, on the way back perpendicular to the second.
    let data = stroke(vec![point(0, 0, 2), point(10, 0, 2), point(10, 10, 2)]);
    let poly = stroke_data_to_path(&data);
    assert_eq!(
        poly.vertices,
        vec![
            Vertex { x: 0, y: 2 },
            Vertex { x: 10, y: 2 },
            Vertex { x: 8, y: 10 },
            Vertex { x: 12, y: 10 },
            Vertex { x: 12, y: 0 },
            Vertex { x: 0, y: -2 },
        ]
    );
}

#[test]
fn distinct_positions_give_two_vertices_each() {
    for n in 2..40usize {
        let points: Vec<StrokePoint> =
            (0..n).map(|i| point(i as i32 * 7, (i as i32 * i as i32) % 11, 3)).collect();
        let poly = stroke_data_to_path(&stroke(points));
        assert_eq!(poly.vertices.len(), 2 * n);
    }
}

#[test]
fn fewer_than_two_points_give_nothing() {
    assert_eq!(stroke_data_to_path(&stroke(vec![])).vertices, vec![]);
    assert_eq!(stroke_data_to_path(&stroke(vec![point(3, 4, 9)])).vertices, vec![]);
    assert_eq!(pen_stroke_to_path(&vec![], 16, &FlatCurve).vertices, vec![]);
    assert_eq!(pen_stroke_to_path(&vec![sample(1, 1, PRESSURE_ONE)], 16, &FlatCurve).vertices, vec![]);
}

#[test]
fn repeated_position_is_skipped() {
    let with_repeat =
        stroke(vec![point(0, 0, 10), point(0, 0, 30), point(50, 50, 10)]);
    let without = stroke(vec![point(0, 0, 10), point(50, 50, 10)]);
    let a = stroke_data_to_path(&with_repeat);
    let b = stroke_data_to_path(&without);
    assert_eq!(a.vertices.len(), 4);
    assert_eq!(a.vertices, b.vertices);
}

#[test]
fn stroke_that_never_moves_gives_nothing() {
    let data = stroke(vec![point(5, 5, 10), point(5, 5, 10), point(5, 5, 10)]);
    assert_eq!(stroke_data_to_path(&data).vertices, vec![]);
}

#[test]
fn retain_distinct_keeps_first_of_each_run() {
    let points = vec![
        point(0, 0, 1),
        point(0, 0, 2),
        point(1, 0, 3),
        point(1, 0, 4),
        point(1, 0, 5),
        point(0, 0, 6),
    ];
    assert_eq!(retain_distinct(&points), vec![point(0, 0, 1), point(1, 0, 3), point(0, 0, 6)]);
}

#[test]
fn extreme_coordinates_stay_finite() {
    let data = stroke(vec![
        point(i32::MIN, i32::MIN, 140737488355328),
        point(i32::MAX, i32::MAX, 140737488355328),
        point(i32::MIN, i32::MAX, 0),
    ]);
    let poly = stroke_data_to_path(&data);
    assert_eq!(poly.vertices.len(), 6);
    for (k, v) in poly.vertices.iter().enumerate() {
        let p = if k < 3 { data.points()[k] } else { data.points()[5 - k] };
        let dx = (v.x - p.pos.x as i64) as i128;
        let dy = (v.y - p.pos.y as i64) as i128;
        let t = p.thickness as i128;
        assert!(dx * dx + dy * dy <= t * t);
    }
}

#[test]
fn pressure_scales_the_half_width() {
    let stroke = vec![sample(0, 0, PRESSURE_ONE / 2), sample(100, 0, PRESSURE_ONE / 4)];
    let poly = pen_stroke_to_path(&stroke, 16 * SUB as u32, &FlatCurve);
    assert_eq!(
        poly.vertices,
        vec![
            Vertex { x: 0, y: 4 * 256 },
            Vertex { x: 100 * 256, y: 2 * 256 },
            Vertex { x: 100 * 256, y: -2 * 256 },
            Vertex { x: 0, y: -4 * 256 },
        ]
    );
}

struct Doubling;

impl PressureCurve for Doubling {
    fn multiplier(&self, pressure: u32) -> u32 {
        pressure.saturating_mul(2)
    }

    fn width_multiplier(&self, pressure: u32) -> u32 {
        pressure.saturating_mul(2)
    }
}

#[test]
fn a_curve_of_ones_own_is_applied() {
    let p = stroke_point_of(sample(1, 2, PRESSURE_ONE / 2), 16 * SUB as u32, &Doubling);
    assert_eq!(p, StrokePoint { pos: Point { x: 256, y: 512 }, thickness: 8 * 256 });
}

#[test]
fn segment_quad_walks_round_the_segment() {
    let quad = segment_to_path(
        [sample(0, 0, PRESSURE_ONE), sample(10, 0, PRESSURE_ONE / 2)],
        4 * SUB as u32,
        &FlatCurve,
    );
    assert_eq!(
        quad.vertices,
        vec![
            Vertex { x: 0, y: 512 },
            Vertex { x: 0, y: -512 },
            Vertex { x: 2560, y: -256 },
            Vertex { x: 2560, y: 256 },
        ]
    );
}

#[test]
fn segment_quad_of_a_point_is_empty() {
    let quad = segment_to_path(
        [sample(3, 3, PRESSURE_ONE), sample(3, 3, PRESSURE_ONE)],
        4 * SUB as u32,
        &FlatCurve,
    );
    assert_eq!(quad.vertices, vec![]);
}

#[test]
fn segment_returns_both_ends() {
    let data = stroke(vec![point(0, 0, 1), point(5, 0, 2), point(9, 9, 3)]);
    assert_eq!(data.segment(0), [point(0, 0, 1), point(5, 0, 2)]);
    assert_eq!(data.segment(1), [point(5, 0, 2), point(9, 9, 3)]);
}

#[test]
fn from_events_takes_position_and_half_width() {
    let events = vec![sample(1, 2, PRESSURE_ONE), sample(3, 4, 0), sample(5, 6, PRESSURE_ONE / 2)];
    let data = StrokeData::from_events(&events, 1000, &FlatCurve);
    assert_eq!(
        data.points(),
        &vec![point(256, 512, 500), point(768, 1024, 0), point(1280, 1536, 250)]
    );
}

#[test]
fn stroke_too_thick_is_refused() {
    assert!(StrokeData::from_points(vec![point(0, 0, 140737488355328)]).is_some());
    assert!(StrokeData::from_points(vec![point(0, 0, 1), point(1, 1, 140737488355329)]).is_none());
    assert!(StrokeData::from_points(vec![point(0, 0, u64::MAX)]).is_none());
    let points = vec![point(0, 0, 1), point(4, 4, 2)];
    assert_eq!(StrokeData::from_points(points.clone()).unwrap().into_points(), points);
}
