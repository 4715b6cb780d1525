use collide2d::check_range;
use collide2d::move_shape;
use collide2d::project_shape;
use collide2d::rotate;
use collide2d::sat;
use collide2d::Rotor2;
use collide2d::Shape;
use collide2d::Vec2i;
use collide2d::Vec3i;

fn v3(x: i64, y: i64, z: i64) -> Vec3i {
    Vec3i { x, y, z }
}

fn v2(x: i64, y: i64) -> Vec2i {
    Vec2i { x, y }
}

/// A square with vertices (±h, ±h) in counter-clockwise order.
fn square(h: i64, origin: Vec3i) -> Shape {
    Shape { vertices: vec![v3(h, h, 0), v3(-h, h, 0), v3(-h, -h, 0), v3(h, -h, 0)], origin }
}

/// A regular 4-gon of the given radius around (0, 0), as the factory lays it
/// out: vertex i at angle i/4 * 2*pi.
fn diamond(r: i64, origin: Vec3i) -> Shape {
    Shape { vertices: vec![v3(r, 0, 0), v3(0, r, 0), v3(-r, 0, 0), v3(0, -r, 0)], origin }
}

#[test]
fn separated_squares_no_collision() {
    let a = square(1, v3(0, 0, 0));
    let b = square(1, v3(10, 0, 0));
    assert!(sat(&a, &b).is_none());
}

#[test]
fn separated_squares_large_gap_no_collision() {
    let a = square(1, v3(0, 0, 0));
    let b = square(1, v3(50000, 40000, 0));
    assert!(sat(&a, &b).is_none());
}

#[test]
fn touching_squares_still_collide() {
    // Sharing an edge exactly: no axis shows a strictly positive gap.
    let a = square(1, v3(0, 0, 0));
    let b = square(1, v3(2, 0, 0));
    assert!(sat(&a, &b).is_some());
}

#[test]
fn overlapping_squares_exact_penetration() {
    // Two squares of half-extent 1, the second offset by (1, 0): the minimum
    // penetration is 1 grid unit along the x axis. The first axis achieving
    // it is A's fourth edge, whose unnormalized perpendicular is (-2, 0) of
    // squared length 4, so the reported measure is -2 (= -1 * length 2).
    let a = square(1, v3(0, 0, 0));
    let b = square(1, v3(1, 0, 0));
    let info = sat(&a, &b).unwrap();
    assert_eq!(info.distance, -2);
    assert_eq!(info.vector, v2(-2, 0));
    assert_eq!(info.axis_len_sq, 4);
    assert_eq!(info.seperation, v2(4, 0));
    assert!(!info.contain_a);
    assert!(!info.contain_b);
    // Snapshots carry the inputs at the time of the test.
    assert_eq!(info.shape_a.vertices, a.vertices);
    assert_eq!(info.shape_a.origin, a.origin);
    assert_eq!(info.shape_b.vertices, b.vertices);
    assert_eq!(info.shape_b.origin, b.origin);
}

#[test]
fn snapshots_survive_later_mutation() {
    let mut a = square(1, v3(0, 0, 0));
    let b = square(1, v3(1, 0, 0));
    let info = sat(&a, &b).unwrap();
    move_shape(&mut a, v3(7, 8, 9));
    assert_eq!(info.shape_a.vertices, square(1, v3(0, 0, 0)).vertices);
    assert_eq!(info.shape_a.origin, v3(0, 0, 0));
}

#[test]
fn containment_flags_follow_last_axis() {
    // A small diamond concentric inside a large one. The flags reflect only
    // the last axis evaluated (B's fourth edge, perpendicular (-5, 5)): on
    // it A's interval is (-5, 5) and B's is (-25, 25), so B contains A and
    // not the other way round.
    let a = diamond(1, v3(0, 0, 0));
    let b = diamond(5, v3(0, 0, 0));
    let info = sat(&a, &b).unwrap();
    assert!(!info.contain_a);
    assert!(info.contain_b);
    // The minimum normalized penetration is achieved first by A's first
    // edge, perpendicular (-1, -1): measure -6 at squared length 2.
    assert_eq!(info.distance, -6);
    assert_eq!(info.vector, v2(-1, -1));
    assert_eq!(info.axis_len_sq, 2);
    assert_eq!(info.seperation, v2(6, 6));
}

#[test]
fn degenerate_zero_edge_yields_zero_axis() {
    // A repeated vertex makes one edge's perpendicular the zero vector.
    // Everything projects to 0 on it, so it shows no gap and a penetration
    // measure of 0, which wins the minimum: the normalize-or-zero policy
    // degrades silently rather than failing.
    let a = Shape {
        vertices: vec![v3(1, 1, 0), v3(1, 1, 0), v3(-1, 1, 0), v3(0, -1, 0)],
        origin: v3(0, 0, 0),
    };
    let b = square(1, v3(0, 0, 0));
    let info = sat(&a, &b).unwrap();
    assert_eq!(info.distance, 0);
    assert_eq!(info.vector, v2(0, 0));
    assert_eq!(info.axis_len_sq, 0);
    assert_eq!(info.seperation, v2(0, 0));
}

#[test]
fn project_shape_triangle_interval() {
    let poly = vec![v2(0, 0), v2(4, 1), v2(2, 5)];
    let axis = v2(1, 0);
    assert_eq!(project_shape(&poly, &axis), (0, 4));
    let axis = v2(0, 1);
    assert_eq!(project_shape(&poly, &axis), (0, 5));
    let axis = v2(1, 1);
    assert_eq!(project_shape(&poly, &axis), (0, 7));
    let axis = v2(-1, 2);
    assert_eq!(project_shape(&poly, &axis), (-2, 8));
}

#[test]
fn project_shape_reversed_order_same_interval() {
    let poly = vec![v2(3, -2), v2(-5, 7), v2(1, 1), v2(0, -4), v2(6, 6)];
    let mut rev = poly.clone();
    rev.reverse();
    let axes = [v2(1, 0), v2(0, 1), v2(2, -3), v2(-7, 5)];
    for axis in axes.iter() {
        assert_eq!(project_shape(&poly, axis), project_shape(&rev, axis));
    }
}

#[test]
fn check_range_plain_and_inverted() {
    // Plain: the first flag says A's interval contains B's.
    assert_eq!(check_range((-5, 5), (-2, 2), false), (true, false));
    assert_eq!(check_range((-2, 2), (-5, 5), false), (false, true));
    assert_eq!(check_range((-3, 3), (-3, 3), false), (true, true));
    assert_eq!(check_range((0, 4), (1, 5), false), (false, false));
    // Inverted: every comparison flips.
    assert_eq!(check_range((-5, 5), (-2, 2), true), (false, true));
    assert_eq!(check_range((-2, 2), (-5, 5), true), (true, false));
    assert_eq!(check_range((-3, 3), (-3, 3), true), (true, true));
}

#[test]
fn move_shape_shifts_vertices_and_origin() {
    let mut s = Shape { vertices: vec![v3(1, 2, 3), v3(-4, 5, -6), v3(7, -8, 9)], origin: v3(10, 20, 30) };
    move_shape(&mut s, v3(100, -200, 300));
    assert_eq!(s.vertices, vec![v3(101, -198, 303), v3(96, -195, 294), v3(107, -208, 309)]);
    assert_eq!(s.origin, v3(110, -180, 330));
}

#[test]
fn move_shape_returns_handle_for_chaining() {
    let mut s = square(1, v3(0, 0, 0));
    move_shape(move_shape(&mut s, v3(1, 0, 0)), v3(0, 2, 0));
    assert_eq!(s.origin, v3(1, 2, 0));
    assert_eq!(s.vertices[0], v3(2, 3, 0));
}

#[test]
fn translate_compose_matches_single_translation() {
    // Translating by d1 then d2 equals translating once by d1 + d2.
    let mk = || Shape { vertices: vec![v3(3, -1, 4), v3(1, 5, -9), v3(2, 6, 5)], origin: v3(-2, 7, 1) };
    let mut twice = mk();
    let d1 = v3(11, -13, 17);
    let d2 = v3(-19, 23, -29);
    move_shape(&mut twice, d1);
    move_shape(&mut twice, d2);
    let mut once = mk();
    move_shape(&mut once, v3(d1.x + d2.x, d1.y + d2.y, d1.z + d2.z));
    assert_eq!(twice.vertices, once.vertices);
    assert_eq!(twice.origin, once.origin);
}

#[test]
fn rotate_quarter_turn_is_exact() {
    // A quarter turn's rotor is (0, ROT_ONE): (x, y) goes exactly to (-y, x)
    // about the coordinate origin (0, 0), z untouched, origin untouched.
    let mut s = Shape { vertices: vec![v3(3, 4, 7), v3(-2, 5, -1), v3(0, -6, 2)], origin: v3(9, 9, 9) };
    rotate(&mut s, Rotor2 { cos_n: 0, sin_n: 65536 });
    assert_eq!(s.vertices, vec![v3(-4, 3, 7), v3(-5, -2, -1), v3(6, 0, 2)]);
    assert_eq!(s.origin, v3(9, 9, 9));
}

#[test]
fn rotate_quarter_turn_round_trip_is_identity() {
    let mk = || Shape { vertices: vec![v3(3, 4, 7), v3(-2, 5, -1), v3(0, -6, 2)], origin: v3(0, 0, 0) };
    let mut s = mk();
    rotate(&mut s, Rotor2 { cos_n: 0, sin_n: 65536 });
    rotate(&mut s, Rotor2 { cos_n: 0, sin_n: -65536 });
    assert_eq!(s.vertices, mk().vertices);
}

#[test]
fn rotate_round_trip_within_rounding_tolerance() {
    // An arbitrary angle's rotor is not exact on the grid: going there and
    // back lands within a couple of grid units of the start.
    let angle: f64 = 0.7;
    let c = (angle.cos() * 65536.0).round() as i64;
    let s = (angle.sin() * 65536.0).round() as i64;
    let mk = || Shape { vertices: vec![v3(1000, -2000, 5), v3(-3000, 400, 6), v3(250, 125, 7)], origin: v3(0, 0, 0) };
    let mut shape = mk();
    rotate(&mut shape, Rotor2 { cos_n: c, sin_n: s });
    rotate(&mut shape, Rotor2 { cos_n: c, sin_n: -s });
    let orig = mk();
    for (a, b) in shape.vertices.iter().zip(orig.vertices.iter()) {
        assert!((a.x - b.x).abs() <= 2);
        assert!((a.y - b.y).abs() <= 2);
        assert_eq!(a.z, b.z);
    }
}

#[test]
fn rotate_chaining_handle() {
    let mut s = square(1, v3(0, 0, 0));
    rotate(rotate(&mut s, Rotor2 { cos_n: 0, sin_n: 65536 }), Rotor2 { cos_n: 0, sin_n: 65536 });
    // Two quarter turns: (x, y) -> (-x, -y).
    assert_eq!(s.vertices[0], v3(-1, -1, 0));
}
