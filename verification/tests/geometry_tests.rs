use rust_kpc::geometry::{closest_point_on_triangle, Barycentric, Centroid, Vector3, AABB};

fn v(x: i32, y: i32, z: i32) -> Vector3 {
    Vector3::new(x, y, z)
}

fn unit_box() -> AABB {
    AABB { min: v(0, 0, 0), max: v(10, 10, 10) }
}

#[test]
fn aabb_contains_corners_and_rejects_outside() {
    let b = unit_box();
    assert!(b.contains(v(0, 0, 0)));
    assert!(b.contains(v(10, 10, 10)));
    assert!(b.contains(v(5, 0, 10)));
    assert!(!b.contains(v(11, 5, 5)));
    assert!(!b.contains(v(5, -1, 5)));
    assert!(!b.contains(v(5, 5, 11)));
}

#[test]
fn aabb_intersects_touching_overlapping_and_separated() {
    let a = unit_box();
    let touching = AABB { min: v(10, 10, 10), max: v(20, 20, 20) };
    let overlapping = AABB { min: v(5, -5, 5), max: v(15, 5, 15) };
    let separated = AABB { min: v(11, 0, 0), max: v(20, 10, 10) };
    assert!(a.intersects(&touching));
    assert!(touching.intersects(&a));
    assert!(a.intersects(&overlapping));
    assert!(!a.intersects(&separated));
    assert!(!separated.intersects(&a));
}

#[test]
fn segment_through_box_meets_it() {
    let b = unit_box();
    // Crosses the box along x.
    assert!(b.intersects_line_segment(v(-5, 5, 5), v(15, 5, 5)));
    // Starts inside.
    assert!(b.intersects_line_segment(v(5, 5, 5), v(100, 100, 100)));
    // Ends inside, endpoints swapped give the same answer.
    assert!(b.intersects_line_segment(v(100, 100, 100), v(5, 5, 5)));
}

#[test]
fn segment_missing_box_is_rejected() {
    let b = unit_box();
    // Entirely above the box.
    assert!(!b.intersects_line_segment(v(-5, 20, 5), v(15, 20, 5)));
    // Diagonal that passes the box's corner region without touching it:
    // its bounding box overlaps the box but a cross-product axis separates.
    assert!(!b.intersects_line_segment(v(-20, 5, 5), v(5, 30, 5)));
}

#[test]
fn tri_aabb_and_merge() {
    let pos = vec![v(0, 0, 0), v(4, -2, 1), v(1, 5, -3), v(10, 10, 10)];
    let idx = vec![0u32, 1, 2, 3, 3, 3];
    let b0 = AABB::compute_tri_aabb(&pos, &idx, 0);
    assert_eq!(b0, AABB { min: v(0, -2, -3), max: v(4, 5, 1) });
    let b1 = AABB::compute_tri_aabb(&pos, &idx, 1);
    assert_eq!(b1, AABB { min: v(10, 10, 10), max: v(10, 10, 10) });
    let m = AABB::merge_aabb(&b0, &b1);
    assert_eq!(m, AABB { min: v(0, -2, -3), max: v(10, 10, 10) });
    assert_eq!(AABB::merge_aabb(&b1, &b0), m);
}

#[test]
fn centroid_is_exact_in_thirds() {
    let pos = vec![v(0, 0, 0), v(1, -1, 3), v(1, -1, 3)];
    let idx = vec![0u32, 1, 2];
    // The centroid is (2/3, -2/3, 2): held as three times each coordinate.
    assert_eq!(AABB::compute_centroid(&pos, &idx, 0), Centroid { x3: 2, y3: -2, z3: 6 });
}

fn point_of(w: Barycentric, a: Vector3, b: Vector3, c: Vector3) -> (f64, f64, f64) {
    let s = (w.wa + w.wb + w.wc) as f64;
    (
        (w.wa as f64 * a.x as f64 + w.wb as f64 * b.x as f64 + w.wc as f64 * c.x as f64) / s,
        (w.wa as f64 * a.y as f64 + w.wb as f64 * b.y as f64 + w.wc as f64 * c.y as f64) / s,
        (w.wa as f64 * a.z as f64 + w.wb as f64 * b.z as f64 + w.wc as f64 * c.z as f64) / s,
    )
}

#[test]
fn closest_point_vertex_regions() {
    let a = v(0, 0, 0);
    let b = v(10, 0, 0);
    let c = v(0, 10, 0);
    assert_eq!(closest_point_on_triangle(v(-5, -5, 3), a, b, c), Barycentric { wa: 1, wb: 0, wc: 0 });
    assert_eq!(closest_point_on_triangle(v(20, -1, 0), a, b, c), Barycentric { wa: 0, wb: 1, wc: 0 });
    assert_eq!(closest_point_on_triangle(v(-1, 20, 0), a, b, c), Barycentric { wa: 0, wb: 0, wc: 1 });
    // The query point equal to a corner.
    assert_eq!(closest_point_on_triangle(a, a, b, c), Barycentric { wa: 1, wb: 0, wc: 0 });
    assert_eq!(closest_point_on_triangle(b, a, b, c), Barycentric { wa: 0, wb: 1, wc: 0 });
}

#[test]
fn closest_point_edge_regions() {
    let a = v(0, 0, 0);
    let b = v(10, 0, 0);
    let c = v(0, 10, 0);
    // Below edge ab: projects to (4, 0, 0).
    let w = closest_point_on_triangle(v(4, -7, 2), a, b, c);
    assert_eq!(point_of(w, a, b, c), (4.0, 0.0, 0.0));
    // Left of edge ac: projects to (0, 3, 0).
    let w = closest_point_on_triangle(v(-6, 3, 0), a, b, c);
    assert_eq!(point_of(w, a, b, c), (0.0, 3.0, 0.0));
    // Beyond edge bc: (10, 10, 0) projects to (5, 5, 0).
    let w = closest_point_on_triangle(v(10, 10, 0), a, b, c);
    assert_eq!(point_of(w, a, b, c), (5.0, 5.0, 0.0));
}

#[test]
fn closest_point_face_region() {
    let a = v(0, 0, 0);
    let b = v(10, 0, 0);
    let c = v(0, 10, 0);
    let w = closest_point_on_triangle(v(2, 3, 7), a, b, c);
    assert!(w.wa > 0 && w.wb > 0 && w.wc > 0);
    assert_eq!(point_of(w, a, b, c), (2.0, 3.0, 0.0));
}

#[test]
fn closest_point_degenerate_triangle_has_no_face_point() {
    // All corners equal: the first vertex region answers.
    let a = v(1, 1, 1);
    assert_eq!(closest_point_on_triangle(v(5, 5, 5), a, a, a), Barycentric { wa: 1, wb: 0, wc: 0 });
}

#[test]
fn points_of_the_triangle_are_their_own_closest_points() {
    let a = v(0, 0, 0);
    let b = v(12, 0, 0);
    let c = v(0, 12, 6);
    for p in [v(3, 4, 2), v(6, 0, 0), v(0, 6, 3), v(6, 6, 3), v(12, 0, 0), v(0, 12, 6)] {
        let w = closest_point_on_triangle(p, a, b, c);
        assert_eq!(point_of(w, a, b, c), (p.x as f64, p.y as f64, p.z as f64));
    }
}

#[test]
fn segment_with_a_point_inside_meets_box() {
    let b = AABB { min: v(0, 0, 0), max: v(10, 10, 10) };
    // Passes through (5, 5, 5) at its middle, with both ends outside.
    assert!(b.intersects_line_segment(v(-5, 0, 10), v(15, 10, 0)));
    // Touches the corner (10, 10, 10) only.
    assert!(b.intersects_line_segment(v(8, 12, 10), v(12, 8, 10)));
}
