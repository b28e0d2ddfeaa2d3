//! Splines, simplified outlines and triangulations, on real-valued points.

use std::f32::consts::PI;

use bevy::math::Vec2;
use boids::fish::ear::ear_clip;
use boids::fish::outline::{cleanup, join_sides, outline, simplify, spline_v2, Sampling, Segment};
use boids::fish::paint::{fill_ellipse, fill_polygon, paint, stroke_polyline, Dab, Rgba};
use boids::mesh::Mesh;

fn colinearity(p1: Vec2, p2: Vec2, p3: Vec2) -> f32 {
    let u = p2 - p1;
    let v = p3 - p2;
    let udv = u.dot(v);
    if udv < 0.0 {
        return 0.0;
    }
    (udv * udv) / (u.length_squared() * v.length_squared())
}

/// The sampling rate of a segment: `None` where points coincide.
fn rate(s: &Segment<Vec2>, detail: f32) -> Option<f32> {
    let c1 = s.before.map(|p0| colinearity(p0, s.start, s.end));
    let c2 = s.after.map(|p3| colinearity(s.start, s.end, p3));
    let colin = match (c1, c2) {
        (Some(a), Some(b)) => (a + b) / 2.0,
        (Some(a), None) | (None, Some(a)) => a,
        (None, None) => 0.0,
    };
    let rdetail = detail * (1.0 - colin);
    if !rdetail.is_finite() {
        return None;
    }
    if rdetail <= 0.0 {
        return Some(0.0);
    }
    Some(rdetail.min((s.start.distance(s.end) * 1.1).max(4.0)))
}

fn sampling(s: &Segment<Vec2>, detail: f32) -> Sampling {
    match rate(s, detail) {
        None => Sampling::Nothing,
        Some(r) if r <= 0.0 => Sampling::Start,
        Some(r) => Sampling::Samples(r.floor() as usize + 1, r.ceil() > r),
    }
}

fn sample(s: &Segment<Vec2>, detail: f32, j: usize) -> Vec2 {
    let r = rate(s, detail).unwrap();
    let t1 = s.before.map_or(Vec2::ZERO, |p0| 0.5 * (s.end - p0));
    let t2 = s.after.map_or(Vec2::ZERO, |p3| 0.5 * (p3 - s.start));
    let k = j as f32 / r;
    let k2 = k * k;
    let k3 = k2 * k;
    let h1 = 2.0 * k3 - 3.0 * k2 + 1.0;
    let h2 = -2.0 * k3 + 3.0 * k2;
    let h3 = k3 - 2.0 * k2 + k;
    let h4 = k3 - k2;
    h1 * s.start + h2 * s.end + h3 * t1 + h4 * t2
}

fn spline(points: &[Vec2], detail: f32) -> Vec<Vec2> {
    spline_v2(
        &points.to_vec(),
        |s: Segment<Vec2>| sampling(&s, detail),
        |s: Segment<Vec2>, j: usize| sample(&s, detail, j),
    )
}

fn far(a: Vec2, b: Vec2) -> bool {
    a.distance(b) > 0.5
}

fn within(eps: f32, p: Vec2, a: Vec2, b: Vec2) -> bool {
    let ab = b - a;
    let len_sq = ab.length_squared();
    let t = if len_sq > 0.0 {
        ((p - a).dot(ab) / len_sq).clamp(0.0, 1.0)
    } else {
        0.0
    };
    p.distance_squared(a + ab * t) <= eps * eps
}

fn shoelace(sum: f32, a: Vec2, b: Vec2) -> f32 {
    sum + (a.x * b.y - b.x * a.y)
}

fn turns(ccw: bool, a: Vec2, b: Vec2, c: Vec2) -> bool {
    let sign = if ccw { 1.0 } else { -1.0 };
    sign * (b - a).perp_dot(c - a) > 0.0
}

fn inside(p: Vec2, a: Vec2, b: Vec2, c: Vec2) -> bool {
    let d1 = (b - a).perp_dot(p - a);
    let d2 = (c - b).perp_dot(p - b);
    let d3 = (a - c).perp_dot(p - c);
    let has_neg = d1 < 0.0 || d2 < 0.0 || d3 < 0.0;
    let has_pos = d1 > 0.0 || d2 > 0.0 || d3 > 0.0;
    !(has_neg && has_pos)
}

fn ears(points: &Vec<Vec2>) -> Vec<(u32, u32, u32)> {
    ear_clip(points, 0.0f32, shoelace, |a: f32| a > 0.0, turns, inside)
}

#[test]
fn spline_collapses_straight_runs() {
    let points = [
        Vec2::new(0.0, 0.0),
        Vec2::new(10.0, 0.0),
        Vec2::new(20.0, 0.0),
        Vec2::new(30.0, 0.0),
    ];
    let out = spline(&points, 500.0);
    assert_eq!(
        out,
        vec![
            Vec2::new(0.0, 0.0),
            Vec2::new(10.0, 0.0),
            Vec2::new(20.0, 0.0)
        ]
    );
}

#[test]
fn spline_matches_lua_output() {
    const EXPECTED: &[(f32, f32)] = &[
        (0.00000, 0.00000),
        (2.57253, 1.23907),
        (8.96883, 4.10691),
        (17.20699, 7.32941),
        (25.30509, 9.63249),
        (30.00000, 10.00000),
        (30.00000, 10.00000),
        (33.99098, 8.34245),
        (37.37952, 4.95943),
        (40.49302, 0.91500),
        (43.65889, -2.72676),
        (47.20454, -4.90181),
        (50.00000, -5.00000),
        (50.00000, -5.00000),
        (53.97816, -3.04170),
        (58.41584, 0.81530),
        (63.12100, 5.75476),
        (67.90159, 10.96046),
        (72.56553, 15.61617),
        (76.92079, 18.90566),
        (80.00000, 20.00000),
        (80.00000, 20.00000),
        (83.76359, 19.13855),
        (87.67316, 16.34203),
        (91.45978, 12.37247),
        (94.85448, 7.99189),
        (97.58832, 3.96232),
        (99.39234, 1.04578),
        (100.00000, 0.00000),
    ];
    let points = [
        Vec2::new(0.0, 0.0),
        Vec2::new(30.0, 10.0),
        Vec2::new(50.0, -5.0),
        Vec2::new(80.0, 20.0),
        Vec2::new(100.0, 0.0),
    ];
    let out = spline(&points, 7.0);
    assert_eq!(out.len(), EXPECTED.len(), "point count");
    for (i, (want, got)) in EXPECTED.iter().zip(&out).enumerate() {
        let d = Vec2::new(want.0, want.1).distance(*got);
        assert!(d < 1e-3, "point {i}: {got} vs {want:?}");
    }
}

#[test]
fn spline_short_input_passthrough() {
    let points = [Vec2::ZERO, Vec2::new(5.0, 5.0), Vec2::new(10.0, 0.0)];
    let out = spline(&points, 100.0);
    assert_eq!(out, points.to_vec());
}

#[test]
fn spline_hits_segment_endpoints() {
    let points = [
        Vec2::new(0.0, 0.0),
        Vec2::new(10.0, 10.0),
        Vec2::new(20.0, -3.0),
        Vec2::new(30.0, 8.0),
        Vec2::new(40.0, 0.0),
    ];
    let out = spline(&points, 50.0);
    assert_eq!(out[0], points[0]);
    for p in &points[1..points.len() - 1] {
        assert!(out.iter().any(|q| q.distance(*p) < 1e-4), "missing {p:?}");
    }
    assert!(out.last().unwrap().distance(points[4]) < 1e-4);
}

#[test]
fn spline_duplicate_points_emit_nothing_for_segment() {
    let points = [
        Vec2::new(0.0, 0.0),
        Vec2::new(10.0, 2.0),
        Vec2::new(10.0, 2.0),
        Vec2::new(20.0, 0.0),
        Vec2::new(30.0, 5.0),
    ];
    let out = spline(&points, 50.0);
    assert!(out.iter().all(|p| p.x.is_finite() && p.y.is_finite()));
}

#[test]
fn cleanup_dedupes_below_half_pixel() {
    let points = vec![
        Vec2::new(0.0, 0.0),
        Vec2::new(0.2, 0.0),
        Vec2::new(0.6, 0.0),
        Vec2::new(0.7, 0.0),
        Vec2::new(2.0, 0.0),
    ];
    let out = cleanup(&points, far);
    assert_eq!(
        out,
        vec![Vec2::new(0.0, 0.0), Vec2::new(0.6, 0.0), Vec2::new(2.0, 0.0)]
    );
}

#[test]
fn simplify_is_subpixel_faithful() {
    let points: Vec<Vec2> = (0..100)
        .map(|i| {
            let t = i as f32 / 99.0 * PI;
            Vec2::new(t.cos() * 50.0, t.sin() * 50.0)
        })
        .collect();
    let out = simplify(&points, |p: Vec2, a: Vec2, b: Vec2| within(0.15, p, a, b));
    assert!(out.len() < points.len() / 2, "no reduction: {}", out.len());
    assert_eq!(out[0], points[0]);
    assert_eq!(*out.last().unwrap(), *points.last().unwrap());
    for &p in &points {
        let mut best = f32::MAX;
        for pair in out.windows(2) {
            let (a, b) = (pair[0], pair[1]);
            let ab = b - a;
            let t = ((p - a).dot(ab) / ab.length_squared()).clamp(0.0, 1.0);
            best = best.min(p.distance(a + ab * t));
        }
        assert!(best <= 0.15 + 1e-4, "point {p} off by {best}");
    }
}

#[test]
fn ear_clip_preserves_area() {
    let l_shape = [
        Vec2::new(0.0, 0.0),
        Vec2::new(4.0, 0.0),
        Vec2::new(4.0, 1.0),
        Vec2::new(1.0, 1.0),
        Vec2::new(1.0, 3.0),
        Vec2::new(0.0, 3.0),
    ];
    for flip in [false, true] {
        let pts: Vec<Vec2> = if flip {
            l_shape.iter().rev().copied().collect()
        } else {
            l_shape.to_vec()
        };
        let mut tri_area = 0.0;
        let mut count = 0;
        for (a, b, c) in ears(&pts) {
            let (a, b, c) = (pts[a as usize], pts[b as usize], pts[c as usize]);
            tri_area += ((b - a).perp_dot(c - a) / 2.0).abs();
            count += 1;
        }
        assert_eq!(count, pts.len() - 2);
        // 4x1 horizontal bar + 1x2 vertical leg.
        assert!((tri_area - 6.0).abs() < 1e-4, "area {tri_area}");
    }
}

#[test]
fn emitter_flips_to_world_coords() {
    let origin = Vec2::new(640.0, 400.0);
    let world = |p: Vec2| [p.x - origin.x, origin.y - p.y];
    let mut mesh: Mesh<[f32; 2]> = Mesh::new();
    mesh.vertex(world(Vec2::new(640.0, 400.0)));
    mesh.vertex(world(Vec2::new(0.0, 0.0)));
    mesh.vertex(world(Vec2::new(1280.0, 800.0)));
    assert_eq!(mesh.vertices[0], [0.0, 0.0]);
    assert_eq!(mesh.vertices[1], [-640.0, 400.0]);
    assert_eq!(mesh.vertices[2], [640.0, -400.0]);
}

#[test]
fn few_corners_give_no_triangles() {
    assert!(ears(&vec![]).is_empty());
    assert!(ears(&vec![Vec2::ZERO, Vec2::X]).is_empty());
    assert_eq!(ears(&vec![Vec2::ZERO, Vec2::X, Vec2::Y]), vec![(2, 0, 1)]);
}

#[test]
fn a_square_is_cut_at_its_first_corner() {
    let square = vec![
        Vec2::new(0.0, 0.0),
        Vec2::new(1.0, 0.0),
        Vec2::new(1.0, 1.0),
        Vec2::new(0.0, 1.0),
    ];
    assert_eq!(ears(&square), vec![(3, 0, 1), (3, 1, 2)]);
}

#[test]
fn an_outline_that_crosses_itself_is_fanned() {
    let crossed = vec![
        Vec2::new(0.0, 0.0),
        Vec2::new(2.0, 2.0),
        Vec2::new(2.0, 0.0),
        Vec2::new(0.0, 2.0),
    ];
    // A polygon that never turns the right way is fanned around one corner.
    let fan = ear_clip(
        &crossed,
        0.0f32,
        shoelace,
        |a: f32| a > 0.0,
        |_: bool, _: Vec2, _: Vec2, _: Vec2| false,
        inside,
    );
    assert_eq!(fan.len(), 2);
    for (a, b, c) in fan {
        assert!(a != b && b != c && a != c);
    }
}

#[test]
fn sides_are_joined_back_along_the_right() {
    assert_eq!(join_sides(&vec![1, 2, 3], &vec![4, 5]), vec![1, 2, 3, 5, 4]);
    assert_eq!(join_sides::<i32>(&vec![], &vec![]), Vec::<i32>::new());
}

#[test]
fn an_outline_is_splined_cleaned_and_simplified() {
    let shape = vec![
        Vec2::new(0.0, 0.0),
        Vec2::new(10.0, 0.0),
        Vec2::new(20.0, 0.0),
        Vec2::new(30.0, 0.0),
    ];
    let out = outline(
        &shape,
        |s: Segment<Vec2>| sampling(&s, 500.0),
        |s: Segment<Vec2>, j: usize| sample(&s, 500.0, j),
        far,
        |p: Vec2, a: Vec2, b: Vec2| within(0.15, p, a, b),
    );
    // The straight run's three starts merge into its two ends.
    assert_eq!(out, vec![Vec2::new(0.0, 0.0), Vec2::new(20.0, 0.0)]);
}

const WHITE: Rgba = Rgba { r: 255, g: 255, b: 255, a: 255 };
const INK: Rgba = Rgba { r: 10, g: 20, b: 30, a: 200 };

fn places<Q: Copy>(mesh: &Mesh<Dab<Q>>) -> Vec<Q> {
    mesh.vertices.iter().map(|v| v.at).collect()
}

#[test]
fn strokes_have_four_vertices_per_point() {
    let row = |_: Option<i32>, p: i32, _: Option<i32>| (p, p + 1, p + 2, p + 3);
    let mut mesh: Mesh<Dab<i32>> = Mesh::new();
    stroke_polyline(&mut mesh, &vec![0, 10, 20], INK, false, row);
    assert_eq!(places(&mesh), vec![0, 1, 2, 3, 10, 11, 12, 13, 20, 21, 22, 23]);
    let edge = Rgba { a: 0, ..INK };
    for (q, v) in mesh.vertices.iter().enumerate() {
        assert_eq!(v.color, [edge, INK, INK, edge][q % 4]);
    }
    assert_eq!(mesh.indices.len(), 2 * 18);
    assert_eq!(mesh.indices[..6], [0, 4, 5, 0, 5, 1]);
    let mut closed: Mesh<Dab<i32>> = Mesh::new();
    stroke_polyline(&mut closed, &vec![0, 10, 20], INK, true, row);
    assert_eq!(closed.indices.len(), 3 * 18);
    assert_eq!(closed.indices[36..42], [8, 0, 1, 8, 1, 9]);
    let mut nothing: Mesh<Dab<i32>> = Mesh::new();
    stroke_polyline(&mut nothing, &vec![7], INK, false, row);
    assert!(nothing.vertices.is_empty() && nothing.indices.is_empty());
}

#[test]
fn ellipses_are_fans() {
    let mut mesh: Mesh<Dab<i32>> = Mesh::new();
    fill_ellipse(&mut mesh, 9, &vec![1, 2, 3, 4], INK);
    assert_eq!(places(&mesh), vec![9, 1, 2, 3, 4]);
    assert!(mesh.vertices.iter().all(|v| v.color == INK));
    assert_eq!(mesh.indices, vec![0, 1, 2, 0, 2, 3, 0, 3, 4, 0, 4, 1]);
}

#[test]
fn a_closing_point_is_not_filled() {
    let square = vec![
        Vec2::new(0.0, 0.0),
        Vec2::new(1.0, 0.0),
        Vec2::new(1.0, 1.0),
        Vec2::new(0.0, 1.0),
        Vec2::new(0.0, 0.0),
    ];
    let mut mesh: Mesh<Dab<Vec2>> = Mesh::new();
    fill_polygon(
        &mut mesh,
        &square,
        INK,
        |a: Vec2, b: Vec2| a.distance(b) < 1e-3,
        |p: Vec2| p,
        0.0f32,
        shoelace,
        |a: f32| a > 0.0,
        turns,
        inside,
    );
    assert_eq!(places(&mesh), square[..4].to_vec());
    assert!(mesh.vertices.iter().all(|v| v.color == INK));
    assert_eq!(mesh.indices, vec![3, 0, 1, 3, 1, 2]);
}

#[test]
fn degenerate_outlines_paint_nothing() {
    let mut mesh: Mesh<Dab<Vec2>> = Mesh::new();
    paint(
        &mut mesh,
        &vec![Vec2::ZERO, Vec2::X],
        INK,
        WHITE,
        |a: Vec2, b: Vec2| a.distance(b) < 1e-3,
        |p: Vec2| p,
        0.0f32,
        shoelace,
        |a: f32| a > 0.0,
        turns,
        inside,
        |_: Option<Vec2>, p: Vec2, _: Option<Vec2>| (p, p, p, p),
    );
    assert!(mesh.vertices.is_empty());
    paint(
        &mut mesh,
        &vec![Vec2::ZERO, Vec2::X, Vec2::Y],
        INK,
        WHITE,
        |a: Vec2, b: Vec2| a.distance(b) < 1e-3,
        |p: Vec2| p,
        0.0f32,
        shoelace,
        |a: f32| a > 0.0,
        turns,
        inside,
        |_: Option<Vec2>, p: Vec2, _: Option<Vec2>| (p, p, p, p),
    );
    // The fill, and an unclosed stroke of two segments over it.
    assert_eq!(mesh.vertices.len(), 3 + 4 * 3);
    assert_eq!(mesh.indices.len(), 3 + 2 * 18);
    assert_eq!((mesh.vertices[0].color, mesh.vertices[4].color), (INK, WHITE));
}

#[test]
fn cleaning_up_twice_changes_nothing_more() {
    let far = |a: i32, b: i32| (a - b).abs() > 5;
    let points = vec![0, 2, 6, 7, 20, 14, 15, 40];
    let out = cleanup(&points, far);
    assert_eq!(out, vec![0, 6, 20, 14, 40]);
    assert_eq!(cleanup(&out, far), out);
}

#[test]
fn convex_polygons_are_fanned() {
    let hexagon: Vec<Vec2> = (0..6)
        .map(|i| Vec2::from_angle(i as f32 / 6.0 * std::f32::consts::TAU))
        .collect();
    let want: Vec<(u32, u32, u32)> = (0..4).map(|k| (5, k, k + 1)).collect();
    assert_eq!(ears(&hexagon), want);
}
