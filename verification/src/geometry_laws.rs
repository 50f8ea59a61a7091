//! Laws of the box, segment and triangle predicates.
use vstd::prelude::*;
use crate::geometry::{
    abs_int, box_holds, box_of_points, box_within, boxes_overlap, closest_weights, diff_dot,
    merged, segment_meets_box, tri_box, tri_corner, weights_name, Vector3, AABB,
};

verus! {

/// Overlap of two boxes does not depend on the order of the boxes.
pub proof fn lemma_overlap_symmetric(a: AABB, b: AABB)
    ensures
        boxes_overlap(a, b) == boxes_overlap(b, a),
{
}

/// Two boxes that hold a common point overlap.
pub proof fn lemma_common_point_overlap(a: AABB, b: AABB, p: Vector3)
    requires
        box_holds(a, p),
        box_holds(b, p),
    ensures
        boxes_overlap(a, b),
{
}

/// A box that holds a box overlapping `q` overlaps `q` itself.
pub proof fn lemma_overlap_grows(inner: AABB, outer: AABB, q: AABB)
    requires
        box_within(inner, outer),
        boxes_overlap(inner, q),
    ensures
        boxes_overlap(outer, q),
{
}

/// Containment of boxes is transitive.
pub proof fn lemma_within_transitive(a: AABB, b: AABB, c: AABB)
    requires
        box_within(a, b),
        box_within(b, c),
    ensures
        box_within(a, c),
{
}

/// The merge of two boxes holds both, does not depend on their order, and is
/// held by every box that holds both.
pub proof fn lemma_merge_is_least_bound(a: AABB, b: AABB, c: AABB)
    ensures
        box_within(a, merged(a, b)),
        box_within(b, merged(a, b)),
        merged(a, b) == merged(b, a),
        box_within(a, c) && box_within(b, c) ==> box_within(merged(a, b), c),
{
}

/// The box of a triangle holds its three corners, and is held by every box
/// that holds them.
pub proof fn lemma_tri_box_is_least_bound(pos: Seq<Vector3>, idx: Seq<u32>, t: int, c: AABB)
    ensures
        box_holds(tri_box(pos, idx, t), tri_corner(pos, idx, t, 0)),
        box_holds(tri_box(pos, idx, t), tri_corner(pos, idx, t, 1)),
        box_holds(tri_box(pos, idx, t), tri_corner(pos, idx, t, 2)),
        box_holds(c, tri_corner(pos, idx, t, 0)) && box_holds(c, tri_corner(pos, idx, t, 1))
            && box_holds(c, tri_corner(pos, idx, t, 2)) ==> box_within(tri_box(pos, idx, t), c),
{
}

proof fn lemma_abs_product_le(a: int, e: int, l: int)
    requires
        abs_int(a) <= e,
    ensures
        abs_int(a * l) <= e * abs_int(l),
{
    if a >= 0 && l >= 0 {
        assert(a * l <= e * l) by (nonlinear_arith)
            requires
                0 <= a <= e,
                l >= 0,
        ;
        assert(a * l >= 0) by (nonlinear_arith)
            requires
                a >= 0,
                l >= 0,
        ;
    } else if a >= 0 && l < 0 {
        assert(a * (-l) <= e * (-l)) by (nonlinear_arith)
            requires
                0 <= a <= e,
                l < 0,
        ;
        assert(a * l <= 0) by (nonlinear_arith)
            requires
                a >= 0,
                l < 0,
        ;
        assert(a * (-l) == -(a * l)) by (nonlinear_arith);
    } else if a < 0 && l >= 0 {
        assert((-a) * l <= e * l) by (nonlinear_arith)
            requires
                0 <= -a <= e,
                l >= 0,
        ;
        assert(a * l <= 0) by (nonlinear_arith)
            requires
                a < 0,
                l >= 0,
        ;
        assert((-a) * l == -(a * l)) by (nonlinear_arith);
    } else {
        assert((-a) * (-l) <= e * (-l)) by (nonlinear_arith)
            requires
                0 <= -a <= e,
                l < 0,
        ;
        assert(a * l >= 0) by (nonlinear_arith)
            requires
                a < 0,
                l < 0,
        ;
        assert((-a) * (-l) == a * l) by (nonlinear_arith);
    }
}

/// One cross-product test holds when the segment starts inside the box:
/// with `t = a + l` and `|a| <= e` on both axes.
proof fn lemma_cross_test_from_inside(aa: int, ab: int, la: int, lb: int, ea: int, eb: int)
    requires
        abs_int(aa) <= ea,
        abs_int(ab) <= eb,
    ensures
        abs_int((aa + la) * lb - (ab + lb) * la) <= ea * abs_int(lb) + eb * abs_int(la),
{
    assert((aa + la) * lb - (ab + lb) * la == aa * lb - ab * la) by (nonlinear_arith);
    lemma_abs_product_le(aa, ea, lb);
    lemma_abs_product_le(ab, eb, la);
}

/// A segment that starts inside the box meets the box.
pub proof fn lemma_segment_from_inside_meets(b: AABB, l0: Vector3, l1: Vector3)
    requires
        box_holds(b, l0),
    ensures
        segment_meets_box(b, l0, l1),
{
    let ax = 2 * l0.x - (b.max.x + b.min.x);
    let ay = 2 * l0.y - (b.max.y + b.min.y);
    let az = 2 * l0.z - (b.max.z + b.min.z);
    let lx = l1.x - l0.x;
    let ly = l1.y - l0.y;
    let lz = l1.z - l0.z;
    let ex = b.max.x - b.min.x;
    let ey = b.max.y - b.min.y;
    let ez = b.max.z - b.min.z;
    lemma_cross_test_from_inside(ay, az, ly, lz, ey, ez);
    lemma_cross_test_from_inside(az, ax, lz, lx, ez, ex);
    lemma_cross_test_from_inside(ax, ay, lx, ly, ex, ey);
    assert((l0.x + l1.x) - (b.max.x + b.min.x) == ax + lx);
    assert((l0.y + l1.y) - (b.max.y + b.min.y) == ay + ly);
    assert((l0.z + l1.z) - (b.max.z + b.min.z) == az + lz);
}

proof fn lemma_cross_reversed(ta: int, tb: int, la: int, lb: int)
    ensures
        abs_int(ta * (-lb) - tb * (-la)) == abs_int(ta * lb - tb * la),
{
    assert(ta * (-lb) - tb * (-la) == -(ta * lb - tb * la)) by (nonlinear_arith);
}

/// The segment test does not depend on which endpoint comes first.
pub proof fn lemma_segment_test_symmetric(b: AABB, l0: Vector3, l1: Vector3)
    ensures
        segment_meets_box(b, l0, l1) == segment_meets_box(b, l1, l0),
{
    let lx = l1.x - l0.x;
    let ly = l1.y - l0.y;
    let lz = l1.z - l0.z;
    let tx = (l0.x + l1.x) - (b.max.x + b.min.x);
    let ty = (l0.y + l1.y) - (b.max.y + b.min.y);
    let tz = (l0.z + l1.z) - (b.max.z + b.min.z);
    lemma_cross_reversed(ty, tz, ly, lz);
    lemma_cross_reversed(tz, tx, lz, lx);
    lemma_cross_reversed(tx, ty, lx, ly);
    assert(l0.x - l1.x == -lx);
    assert(l0.y - l1.y == -ly);
    assert(l0.z - l1.z == -lz);
}

/// A segment that ends inside the box meets the box.
pub proof fn lemma_segment_to_inside_meets(b: AABB, l0: Vector3, l1: Vector3)
    requires
        box_holds(b, l1),
    ensures
        segment_meets_box(b, l0, l1),
{
    lemma_segment_from_inside_meets(b, l1, l0);
    lemma_segment_test_symmetric(b, l1, l0);
}

/// On one axis, the point at parameter `n / d` of a segment starting at
/// `l0` with extent `l`, scaled by `d`, lies in `[mn, mx]` (scaled by `d`).
spec fn scaled_on_axis(l0: int, l: int, mn: int, mx: int, n: int, d: int) -> bool {
    d * mn <= d * l0 + n * l <= d * mx
}

proof fn lemma_scaled_center(l0: int, l: int, mn: int, mx: int, n: int, d: int)
    requires
        0 <= n <= d,
        d > 0,
        scaled_on_axis(l0, l, mn, mx, n, d),
    ensures
        abs_int(2 * (d * l0 + n * l) - d * (mx + mn)) <= d * (mx - mn),
        d * (2 * l0 + l - (mx + mn)) == (2 * (d * l0 + n * l) - d * (mx + mn)) + (d - 2 * n) * l,
        abs_int((d - 2 * n) * l) <= d * abs_int(l),
{
    assert(d * (mx + mn) == d * mx + d * mn && d * (mx - mn) == d * mx - d * mn) by (nonlinear_arith);
    assert(d * (2 * l0 + l - (mx + mn)) == (2 * (d * l0 + n * l) - d * (mx + mn)) + (d - 2 * n) * l)
        by (nonlinear_arith);
    lemma_abs_product_le(d - 2 * n, d, l);
}

/// Dividing both sides of `d * x <= d * y` by a positive `d`.
proof fn lemma_cancel_positive(d: int, x: int, y: int)
    requires
        d > 0,
        d * x <= d * y,
    ensures
        x <= y,
{
    assert(x <= y) by (nonlinear_arith)
        requires
            d > 0,
            d * x <= d * y,
    ;
}

proof fn lemma_abs_scale(d: int, x: int)
    requires
        d > 0,
    ensures
        abs_int(d * x) == d * abs_int(x),
{
    assert(abs_int(d * x) == d * abs_int(x)) by (nonlinear_arith)
        requires
            d > 0,
    ;
}

/// The box-axis test on one axis holds for a segment with a point in the
/// box's slab on that axis.
proof fn lemma_axis_test_from_point(l0: int, l: int, mn: int, mx: int, n: int, d: int)
    requires
        0 <= n <= d,
        d > 0,
        scaled_on_axis(l0, l, mn, mx, n, d),
    ensures
        abs_int(2 * l0 + l - (mx + mn)) <= abs_int(l) + (mx - mn),
{
    lemma_scaled_center(l0, l, mn, mx, n, d);
    let t = 2 * l0 + l - (mx + mn);
    lemma_abs_scale(d, t);
    assert(d * (abs_int(l) + (mx - mn)) == d * abs_int(l) + d * (mx - mn)) by (nonlinear_arith);
    lemma_cancel_positive(d, abs_int(t), abs_int(l) + (mx - mn));
}

/// The cross-product test of two axes holds for a segment with a point in
/// the box's slabs on both axes.
proof fn lemma_cross_test_from_point(
    l0a: int,
    la: int,
    mna: int,
    mxa: int,
    l0b: int,
    lb: int,
    mnb: int,
    mxb: int,
    n: int,
    d: int,
)
    requires
        0 <= n <= d,
        d > 0,
        scaled_on_axis(l0a, la, mna, mxa, n, d),
        scaled_on_axis(l0b, lb, mnb, mxb, n, d),
    ensures
        abs_int((2 * l0a + la - (mxa + mna)) * lb - (2 * l0b + lb - (mxb + mnb)) * la) <= (mxa
            - mna) * abs_int(lb) + (mxb - mnb) * abs_int(la),
{
    lemma_scaled_center(l0a, la, mna, mxa, n, d);
    lemma_scaled_center(l0b, lb, mnb, mxb, n, d);
    let ta = 2 * l0a + la - (mxa + mna);
    let tb = 2 * l0b + lb - (mxb + mnb);
    let ca = 2 * (d * l0a + n * la) - d * (mxa + mna);
    let cb = 2 * (d * l0b + n * lb) - d * (mxb + mnb);
    let k = d - 2 * n;
    assert(d * (ta * lb - tb * la) == ca * lb - cb * la) by (nonlinear_arith)
        requires
            d * ta == ca + k * la,
            d * tb == cb + k * lb,
    ;
    lemma_abs_product_le(ca, d * (mxa - mna), lb);
    lemma_abs_product_le(cb, d * (mxb - mnb), la);
    let x = ta * lb - tb * la;
    let y = (mxa - mna) * abs_int(lb) + (mxb - mnb) * abs_int(la);
    lemma_abs_scale(d, x);
    assert(d * y == d * (mxa - mna) * abs_int(lb) + d * (mxb - mnb) * abs_int(la)) by (nonlinear_arith)
        requires
            y == (mxa - mna) * abs_int(lb) + (mxb - mnb) * abs_int(la),
    ;
    lemma_cancel_positive(d, abs_int(x), y);
}

/// A segment with a point in the box meets the box: when the point at
/// parameter `n / d` (with `0 <= n <= d`) lies in the closed box, the
/// separating-axis test accepts the segment.
pub proof fn lemma_segment_point_in_box_meets(b: AABB, l0: Vector3, l1: Vector3, n: int, d: int)
    requires
        0 <= n <= d,
        d > 0,
        d * b.min.x <= d * l0.x + n * (l1.x - l0.x) <= d * b.max.x,
        d * b.min.y <= d * l0.y + n * (l1.y - l0.y) <= d * b.max.y,
        d * b.min.z <= d * l0.z + n * (l1.z - l0.z) <= d * b.max.z,
    ensures
        segment_meets_box(b, l0, l1),
{
    let lx = l1.x - l0.x;
    let ly = l1.y - l0.y;
    let lz = l1.z - l0.z;
    assert(scaled_on_axis(l0.x as int, lx, b.min.x as int, b.max.x as int, n, d));
    assert(scaled_on_axis(l0.y as int, ly, b.min.y as int, b.max.y as int, n, d));
    assert(scaled_on_axis(l0.z as int, lz, b.min.z as int, b.max.z as int, n, d));
    lemma_axis_test_from_point(l0.x as int, lx, b.min.x as int, b.max.x as int, n, d);
    lemma_axis_test_from_point(l0.y as int, ly, b.min.y as int, b.max.y as int, n, d);
    lemma_axis_test_from_point(l0.z as int, lz, b.min.z as int, b.max.z as int, n, d);
    lemma_cross_test_from_point(
        l0.y as int,
        ly,
        b.min.y as int,
        b.max.y as int,
        l0.z as int,
        lz,
        b.min.z as int,
        b.max.z as int,
        n,
        d,
    );
    lemma_cross_test_from_point(
        l0.z as int,
        lz,
        b.min.z as int,
        b.max.z as int,
        l0.x as int,
        lx,
        b.min.x as int,
        b.max.x as int,
        n,
        d,
    );
    lemma_cross_test_from_point(
        l0.x as int,
        lx,
        b.min.x as int,
        b.max.x as int,
        l0.y as int,
        ly,
        b.min.y as int,
        b.max.y as int,
        n,
        d,
    );
    assert((l0.x + l1.x) - (b.max.x + b.min.x) == 2 * l0.x + lx - (b.max.x + b.min.x));
    assert((l0.y + l1.y) - (b.max.y + b.min.y) == 2 * l0.y + ly - (b.max.y + b.min.y));
    assert((l0.z + l1.z) - (b.max.z + b.min.z) == 2 * l0.z + lz - (b.max.z + b.min.z));
}

/// A segment that meets the box has a bounding box that overlaps it: the
/// test never accepts a segment that is separated from the box on an axis.
pub proof fn lemma_segment_meets_overlaps(b: AABB, l0: Vector3, l1: Vector3)
    requires
        segment_meets_box(b, l0, l1),
    ensures
        boxes_overlap(box_of_points(l0, l1, l1), b),
{
}

/// A query point equal to the first corner is its own closest point.
pub proof fn lemma_closest_at_first_corner(a: Vector3, b: Vector3, c: Vector3)
    ensures
        closest_weights(a, a, b, c) == (1int, 0int, 0int),
{
    assert(diff_dot(b, a, a, a) == 0);
    assert(diff_dot(c, a, a, a) == 0);
}

/// A query point equal to the second corner is its own closest point: the
/// weights name that corner.
pub proof fn lemma_closest_at_second_corner(a: Vector3, b: Vector3, c: Vector3)
    ensures
        closest_weights(b, a, b, c).0 + closest_weights(b, a, b, c).1 + closest_weights(
            b,
            a,
            b,
            c,
        ).2 > 0,
        weights_name(closest_weights(b, a, b, c), a, b, c, b),
{
    let ux = b.x - a.x;
    let uy = b.y - a.y;
    let uz = b.z - a.z;
    assert(diff_dot(b, a, b, a) == ux * ux + uy * uy + uz * uz);
    assert(ux * ux >= 0 && uy * uy >= 0 && uz * uz >= 0) by (nonlinear_arith);
    assert(diff_dot(b, a, b, b) == 0);
    assert(diff_dot(c, a, b, b) == 0);
    if diff_dot(b, a, b, a) <= 0 {
        assert(ux * ux == 0 && uy * uy == 0 && uz * uz == 0);
        assert(ux == 0 && uy == 0 && uz == 0) by (nonlinear_arith)
            requires
                ux * ux == 0 && uy * uy == 0 && uz * uz == 0,
        ;
    }
}


/// The triangle `abc` has positive area: `|ab|^2 |ac|^2 - (ab . ac)^2 > 0`.
pub open spec fn nondegenerate(a: Vector3, b: Vector3, c: Vector3) -> bool {
    diff_dot(b, a, b, a) * diff_dot(c, a, c, a) - diff_dot(b, a, c, a) * diff_dot(b, a, c, a) > 0
}

/// The Voronoi-region conditions of the face region force all three
/// barycentric numerators to be positive (in terms of `x = ab . ap`,
/// `y = ac . ap`, `uu = |ab|^2`, `ww = |ac|^2`, `uw = ab . ac`).
proof fn lemma_face_region_weights(x: int, y: int, uu: int, ww: int, uw: int)
    requires
        uu > 0,
        ww > 0,
        uu * ww - uw * uw > 0,
        !(x <= 0 && y <= 0),
        !(x - uu >= 0 && y - uw <= x - uu),
        !((uu * y - uw * x) <= 0 && x >= 0 && x - uu <= 0),
        !(y - ww >= 0 && x - uw <= y - ww),
        !((ww * x - uw * y) <= 0 && y >= 0 && y - ww <= 0),
        !((uu * ww - uw * uw - (uu * y - uw * x) - (ww * x - uw * y)) <= 0 && (y - uw) - (x - uu)
            >= 0 && (x - uw) - (y - ww) >= 0),
    ensures
        uu * y - uw * x > 0,
        ww * x - uw * y > 0,
        uu * ww - uw * uw - (uu * y - uw * x) - (ww * x - uw * y) > 0,
{
    assert(uu * y - uw * x > 0 && ww * x - uw * y > 0 && uu * ww - uw * uw - (uu * y - uw * x) - (
    ww * x - uw * y) > 0) by (nonlinear_arith)
        requires
            uu > 0,
            ww > 0,
            uu * ww - uw * uw > 0,
            !(x <= 0 && y <= 0),
            !(x - uu >= 0 && y - uw <= x - uu),
            !((uu * y - uw * x) <= 0 && x >= 0 && x - uu <= 0),
            !(y - ww >= 0 && x - uw <= y - ww),
            !((ww * x - uw * y) <= 0 && y >= 0 && y - ww <= 0),
            !((uu * ww - uw * uw - (uu * y - uw * x) - (ww * x - uw * y)) <= 0 && (y - uw) - (x
                - uu) >= 0 && (x - uw) - (y - ww) >= 0),
    ;
}

proof fn lemma_shifted_dot(u: (int, int, int), q: (int, int, int), r: (int, int, int))
    ensures
        u.0 * (q.0 - r.0) + u.1 * (q.1 - r.1) + u.2 * (q.2 - r.2) == (u.0 * q.0 + u.1 * q.1 + u.2
            * q.2) - (u.0 * r.0 + u.1 * r.1 + u.2 * r.2),
{
    assert(u.0 * (q.0 - r.0) + u.1 * (q.1 - r.1) + u.2 * (q.2 - r.2) == (u.0 * q.0 + u.1 * q.1
        + u.2 * q.2) - (u.0 * r.0 + u.1 * r.1 + u.2 * r.2)) by (nonlinear_arith);
}

proof fn lemma_nonneg_square_sum(u: (int, int, int))
    ensures
        u.0 * u.0 + u.1 * u.1 + u.2 * u.2 >= 0,
{
    assert(u.0 * u.0 + u.1 * u.1 + u.2 * u.2 >= 0) by (nonlinear_arith);
}

/// For a triangle of positive area the closest-point weights are never
/// negative and never all zero: the point found lies on the triangle.
pub proof fn lemma_closest_point_on_triangle(p: Vector3, a: Vector3, b: Vector3, c: Vector3)
    requires
        nondegenerate(a, b, c),
    ensures
        closest_weights(p, a, b, c).0 >= 0,
        closest_weights(p, a, b, c).1 >= 0,
        closest_weights(p, a, b, c).2 >= 0,
        closest_weights(p, a, b, c).0 + closest_weights(p, a, b, c).1 + closest_weights(
            p,
            a,
            b,
            c,
        ).2 > 0,
{
    let u = ((b.x - a.x) as int, (b.y - a.y) as int, (b.z - a.z) as int);
    let w = ((c.x - a.x) as int, (c.y - a.y) as int, (c.z - a.z) as int);
    let q = ((p.x - a.x) as int, (p.y - a.y) as int, (p.z - a.z) as int);
    let x = diff_dot(b, a, p, a);
    let y = diff_dot(c, a, p, a);
    let uu = diff_dot(b, a, b, a);
    let ww = diff_dot(c, a, c, a);
    let uw = diff_dot(b, a, c, a);
    // p - b = q - u and p - c = q - w.
    lemma_shifted_dot(u, q, u);
    lemma_shifted_dot(w, q, u);
    lemma_shifted_dot(u, q, w);
    lemma_shifted_dot(w, q, w);
    assert(diff_dot(c, a, b, a) == uw) by (nonlinear_arith)
        requires
            uw == diff_dot(b, a, c, a),
    {
    }
    let d1 = x;
    let d2 = y;
    let d3 = diff_dot(b, a, p, b);
    let d4 = diff_dot(c, a, p, b);
    let d5 = diff_dot(b, a, p, c);
    let d6 = diff_dot(c, a, p, c);
    assert(d3 == x - uu);
    assert(d4 == y - uw);
    assert(d5 == x - uw);
    assert(d6 == y - ww);
    lemma_nonneg_square_sum(u);
    lemma_nonneg_square_sum(w);
    assert(uu > 0 && ww > 0) by (nonlinear_arith)
        requires
            uu >= 0,
            ww >= 0,
            uu * ww - uw * uw > 0,
    ;
    let vc = d1 * d4 - d3 * d2;
    let vb = d5 * d2 - d1 * d6;
    let va = d3 * d6 - d5 * d4;
    assert(vc == uu * y - uw * x) by (nonlinear_arith)
        requires
            vc == d1 * d4 - d3 * d2,
            d1 == x,
            d2 == y,
            d3 == x - uu,
            d4 == y - uw,
    ;
    assert(vb == ww * x - uw * y) by (nonlinear_arith)
        requires
            vb == d5 * d2 - d1 * d6,
            d1 == x,
            d2 == y,
            d5 == x - uw,
            d6 == y - ww,
    ;
    assert(va == uu * ww - uw * uw - (uu * y - uw * x) - (ww * x - uw * y)) by (nonlinear_arith)
        requires
            va == d3 * d6 - d5 * d4,
            d3 == x - uu,
            d4 == y - uw,
            d5 == x - uw,
            d6 == y - ww,
    ;
    if d1 <= 0 && d2 <= 0 {
    } else if d3 >= 0 && d4 <= d3 {
    } else if vc <= 0 && d1 >= 0 && d3 <= 0 {
    } else if d6 >= 0 && d5 <= d6 {
    } else if vb <= 0 && d2 >= 0 && d6 <= 0 {
    } else if va <= 0 && d4 - d3 >= 0 && d5 - d6 >= 0 {
        // |bc|^2 = uu + ww - 2 uw > 0.
        assert(uu + ww - 2 * uw > 0) by (nonlinear_arith)
            requires
                uu > 0,
                ww > 0,
                uu * ww - uw * uw > 0,
        ;
    } else {
        lemma_face_region_weights(x, y, uu, ww, uw);
    }
}

/// Dot product of integer triples.
pub open spec fn dot3(e: (int, int, int), f: (int, int, int)) -> int {
    e.0 * f.0 + e.1 * f.1 + e.2 * f.2
}

/// `W * v - (wa * a + wb * b + wc * c)` with `W = wa + wb + wc`: `W` times
/// the direction from the point that weights `w` name to `v`.
pub open spec fn scaled_offset(v: Vector3, a: Vector3, b: Vector3, c: Vector3, w: (int, int, int)) -> (int, int, int) {
    let s = w.0 + w.1 + w.2;
    (
        s * v.x - (w.0 * a.x + w.1 * b.x + w.2 * c.x),
        s * v.y - (w.0 * a.y + w.1 * b.y + w.2 * c.y),
        s * v.z - (w.0 * a.z + w.1 * b.z + w.2 * c.z),
    )
}

/// The point `q` that weights `w` name is nearest to `p` among the points
/// of triangle `abc`: the direction from `q` to `p` makes no acute angle
/// with the direction from `q` to any corner, and so none with the
/// direction to any point of the triangle.
pub open spec fn nearest_on_triangle(p: Vector3, a: Vector3, b: Vector3, c: Vector3, w: (int, int, int)) -> bool {
    &&& dot3(scaled_offset(p, a, b, c, w), scaled_offset(a, a, b, c, w)) <= 0
    &&& dot3(scaled_offset(p, a, b, c, w), scaled_offset(b, a, b, c, w)) <= 0
    &&& dot3(scaled_offset(p, a, b, c, w), scaled_offset(c, a, b, c, w)) <= 0
}

/// `s1 * u + s2 * t`.
spec fn lin2(s1: int, u: (int, int, int), s2: int, t: (int, int, int)) -> (int, int, int) {
    (s1 * u.0 + s2 * t.0, s1 * u.1 + s2 * t.1, s1 * u.2 + s2 * t.2)
}

proof fn lemma_distrib2(e: int, s1: int, u: int, s2: int, t: int)
    ensures
        e * (s1 * u + s2 * t) == s1 * (e * u) + s2 * (e * t),
{
    assert(e * (s1 * u + s2 * t) == s1 * (e * u) + s2 * (e * t)) by (nonlinear_arith);
}

proof fn lemma_distrib3(k: int, r: int, m: int, u: int, n: int, t: int, e: int)
    ensures
        (k * r - m * u - n * t) * e == k * (r * e) - m * (u * e) - n * (t * e),
{
    let pa = k * r;
    let pb = m * u;
    let pc = n * t;
    assert((pa - pb - pc) * e == pa * e - pb * e - pc * e) by (nonlinear_arith);
    assert(pa * e == k * (r * e)) by (nonlinear_arith)
        requires
            pa == k * r,
    ;
    assert(pb * e == m * (u * e)) by (nonlinear_arith)
        requires
            pb == m * u,
    ;
    assert(pc * e == n * (t * e)) by (nonlinear_arith)
        requires
            pc == n * t,
    ;
}

proof fn lemma_dot_lin2(e: (int, int, int), s1: int, u: (int, int, int), s2: int, t: (int, int, int))
    ensures
        dot3(e, lin2(s1, u, s2, t)) == s1 * dot3(e, u) + s2 * dot3(e, t),
{
    lemma_distrib2(e.0, s1, u.0, s2, t.0);
    lemma_distrib2(e.1, s1, u.1, s2, t.1);
    lemma_distrib2(e.2, s1, u.2, s2, t.2);
    assert(s1 * dot3(e, u) == s1 * (e.0 * u.0) + s1 * (e.1 * u.1) + s1 * (e.2 * u.2))
        by (nonlinear_arith);
    assert(s2 * dot3(e, t) == s2 * (e.0 * t.0) + s2 * (e.1 * t.1) + s2 * (e.2 * t.2))
        by (nonlinear_arith);
}

proof fn lemma_dot_comb(
    k: int,
    r: (int, int, int),
    m: int,
    u: (int, int, int),
    n: int,
    t: (int, int, int),
    e: (int, int, int),
)
    ensures
        dot3(
            (k * r.0 - m * u.0 - n * t.0, k * r.1 - m * u.1 - n * t.1, k * r.2 - m * u.2 - n * t.2),
            e,
        ) == k * dot3(r, e) - m * dot3(u, e) - n * dot3(t, e),
{
    lemma_distrib3(k, r.0, m, u.0, n, t.0, e.0);
    lemma_distrib3(k, r.1, m, u.1, n, t.1, e.1);
    lemma_distrib3(k, r.2, m, u.2, n, t.2, e.2);
    assert(k * dot3(r, e) == k * (r.0 * e.0) + k * (r.1 * e.1) + k * (r.2 * e.2))
        by (nonlinear_arith);
    assert(m * dot3(u, e) == m * (u.0 * e.0) + m * (u.1 * e.1) + m * (u.2 * e.2))
        by (nonlinear_arith);
    assert(n * dot3(t, e) == n * (t.0 * e.0) + n * (t.1 * e.1) + n * (t.2 * e.2))
        by (nonlinear_arith);
}

/// In relative coordinates `r = p - a`, `u = b - a`, `t = c - a`, the
/// scaled offset of a point `a + r` is `W r - wb u - wc t`.
proof fn lemma_offset_relative(v: Vector3, a: Vector3, b: Vector3, c: Vector3, w: (int, int, int))
    ensures
        scaled_offset(v, a, b, c, w) == ({
            let s = w.0 + w.1 + w.2;
            (
                s * (v.x - a.x) - w.1 * (b.x - a.x) - w.2 * (c.x - a.x),
                s * (v.y - a.y) - w.1 * (b.y - a.y) - w.2 * (c.y - a.y),
                s * (v.z - a.z) - w.1 * (b.z - a.z) - w.2 * (c.z - a.z),
            )
        }),
{
    let s = w.0 + w.1 + w.2;
    assert(s * v.x - (w.0 * a.x + w.1 * b.x + w.2 * c.x) == s * (v.x - a.x) - w.1 * (b.x - a.x)
        - w.2 * (c.x - a.x)) by (nonlinear_arith)
        requires
            s == w.0 + w.1 + w.2,
    ;
    assert(s * v.y - (w.0 * a.y + w.1 * b.y + w.2 * c.y) == s * (v.y - a.y) - w.1 * (b.y - a.y)
        - w.2 * (c.y - a.y)) by (nonlinear_arith)
        requires
            s == w.0 + w.1 + w.2,
    ;
    assert(s * v.z - (w.0 * a.z + w.1 * b.z + w.2 * c.z) == s * (v.z - a.z) - w.1 * (b.z - a.z)
        - w.2 * (c.z - a.z)) by (nonlinear_arith)
        requires
            s == w.0 + w.1 + w.2,
    ;
}

/// The offset of `p`, dotted with `u` (`gu`) and with `t` (`gt`), makes no
/// acute angle with the directions `lin2(..)` to the three corners.
spec fn corner_signs(gu: int, gt: int, s: int, w1: int, w2: int) -> bool {
    &&& -w1 * gu - w2 * gt <= 0
    &&& (s - w1) * gu - w2 * gt <= 0
    &&& -w1 * gu + (s - w2) * gt <= 0
}

/// The sign conditions of the region search, in terms of `x = u . r`,
/// `y = t . r`, `uu = u . u`, `ww = t . t`, `uw = u . t`.
proof fn lemma_region_signs(x: int, y: int, uu: int, ww: int, uw: int, w: (int, int, int))
    requires
        uu > 0,
        ww > 0,
        uu * ww - uw * uw > 0,
        w == ({
            let d1 = x;
            let d2 = y;
            let d3 = x - uu;
            let d4 = y - uw;
            let d5 = x - uw;
            let d6 = y - ww;
            let vc = d1 * d4 - d3 * d2;
            let vb = d5 * d2 - d1 * d6;
            let va = d3 * d6 - d5 * d4;
            if d1 <= 0 && d2 <= 0 {
                (1int, 0int, 0int)
            } else if d3 >= 0 && d4 <= d3 {
                (0int, 1int, 0int)
            } else if vc <= 0 && d1 >= 0 && d3 <= 0 {
                (-d3, d1, 0int)
            } else if d6 >= 0 && d5 <= d6 {
                (0int, 0int, 1int)
            } else if vb <= 0 && d2 >= 0 && d6 <= 0 {
                (-d6, 0int, d2)
            } else if va <= 0 && d4 - d3 >= 0 && d5 - d6 >= 0 {
                (0int, d5 - d6, d4 - d3)
            } else {
                (va, vb, vc)
            }
        }),
    ensures
        corner_signs(
            (w.0 + w.1 + w.2) * x - w.1 * uu - w.2 * uw,
            (w.0 + w.1 + w.2) * y - w.1 * uw - w.2 * ww,
            w.0 + w.1 + w.2,
            w.1,
            w.2,
        ),
{
    let d1 = x;
    let d2 = y;
    let d3 = x - uu;
    let d4 = y - uw;
    let d5 = x - uw;
    let d6 = y - ww;
    let vc = d1 * d4 - d3 * d2;
    let vb = d5 * d2 - d1 * d6;
    let va = d3 * d6 - d5 * d4;
    assert(vc == uu * y - uw * x) by (nonlinear_arith)
        requires
            vc == x * (y - uw) - (x - uu) * y,
    ;
    assert(vb == ww * x - uw * y) by (nonlinear_arith)
        requires
            vb == (x - uw) * y - x * (y - ww),
    ;
    assert(va == uu * ww - uw * uw - (uu * y - uw * x) - (ww * x - uw * y)) by (nonlinear_arith)
        requires
            va == (x - uu) * (y - ww) - (x - uw) * (y - uw),
    ;
    let s = w.0 + w.1 + w.2;
    let gu = s * x - w.1 * uu - w.2 * uw;
    let gt = s * y - w.1 * uw - w.2 * ww;
    if d1 <= 0 && d2 <= 0 {
        assert(gu == x && gt == y) by (nonlinear_arith)
            requires
                s == 1,
                w.1 == 0,
                w.2 == 0,
                gu == s * x - w.1 * uu - w.2 * uw,
                gt == s * y - w.1 * uw - w.2 * ww,
        ;
        assert(corner_signs(x, y, 1, 0, 0));
    } else if d3 >= 0 && d4 <= d3 {
        assert(gu == x - uu && gt == y - uw) by (nonlinear_arith)
            requires
                s == 1,
                w.1 == 1,
                w.2 == 0,
                gu == s * x - w.1 * uu - w.2 * uw,
                gt == s * y - w.1 * uw - w.2 * ww,
        ;
        assert(corner_signs(x - uu, y - uw, 1, 1, 0));
    } else if vc <= 0 && d1 >= 0 && d3 <= 0 {
        // On edge ab: W = uu, wb = x, wc = 0.
        assert(s == uu);
        assert(gu == 0) by (nonlinear_arith)
            requires
                gu == s * x - w.1 * uu - w.2 * uw,
                s == uu,
                w.1 == x,
                w.2 == 0,
        ;
        assert(gt == vc) by (nonlinear_arith)
            requires
                gt == s * y - w.1 * uw - w.2 * ww,
                s == uu,
                w.1 == x,
                w.2 == 0,
                vc == uu * y - uw * x,
        ;
        assert(corner_signs(0, vc, uu, x, 0)) by (nonlinear_arith)
            requires
                uu > 0,
                vc <= 0,
        ;
    } else if d6 >= 0 && d5 <= d6 {
        assert(gu == x - uw && gt == y - ww) by (nonlinear_arith)
            requires
                s == 1,
                w.1 == 0,
                w.2 == 1,
                gu == s * x - w.1 * uu - w.2 * uw,
                gt == s * y - w.1 * uw - w.2 * ww,
        ;
        assert(corner_signs(x - uw, y - ww, 1, 0, 1));
    } else if vb <= 0 && d2 >= 0 && d6 <= 0 {
        // On edge ac: W = ww, wb = 0, wc = y.
        assert(s == ww);
        assert(gt == 0) by (nonlinear_arith)
            requires
                gt == s * y - w.1 * uw - w.2 * ww,
                s == ww,
                w.1 == 0,
                w.2 == y,
        ;
        assert(gu == vb) by (nonlinear_arith)
            requires
                gu == s * x - w.1 * uu - w.2 * uw,
                s == ww,
                w.1 == 0,
                w.2 == y,
                vb == ww * x - uw * y,
        ;
        assert(corner_signs(vb, 0, ww, 0, y)) by (nonlinear_arith)
            requires
                ww > 0,
                vb <= 0,
        ;
    } else if va <= 0 && d4 - d3 >= 0 && d5 - d6 >= 0 {
        // On edge bc: the offset is square to bc and points away from a.
        let bw = d5 - d6;
        let cw = d4 - d3;
        assert(s == bw + cw);
        assert(gu == -va) by (nonlinear_arith)
            requires
                bw == (x - uw) - (y - ww),
                cw == (y - uw) - (x - uu),
                s == bw + cw,
                w.1 == bw,
                w.2 == cw,
                gu == s * x - w.1 * uu - w.2 * uw,
                va == uu * ww - uw * uw - (uu * y - uw * x) - (ww * x - uw * y),
        ;
        assert(gt == -va) by (nonlinear_arith)
            requires
                bw == (x - uw) - (y - ww),
                cw == (y - uw) - (x - uu),
                s == bw + cw,
                w.1 == bw,
                w.2 == cw,
                gt == s * y - w.1 * uw - w.2 * ww,
                va == uu * ww - uw * uw - (uu * y - uw * x) - (ww * x - uw * y),
        ;
        assert(corner_signs(-va, -va, bw + cw, bw, cw)) by (nonlinear_arith)
            requires
                bw >= 0,
                cw >= 0,
                va <= 0,
        ;
    } else {
        // Inside the face: the offset is square to the plane.
        assert(s == uu * ww - uw * uw);
        assert(gu == 0) by (nonlinear_arith)
            requires
                w.1 == ww * x - uw * y,
                w.2 == uu * y - uw * x,
                s == uu * ww - uw * uw,
                gu == s * x - w.1 * uu - w.2 * uw,
        ;
        assert(gt == 0) by (nonlinear_arith)
            requires
                w.1 == ww * x - uw * y,
                w.2 == uu * y - uw * x,
                s == uu * ww - uw * uw,
                gt == s * y - w.1 * uw - w.2 * ww,
        ;
        assert(corner_signs(0, 0, s, w.1, w.2)) by (nonlinear_arith);
    }
}

/// For a triangle of positive area the point that the closest-point
/// weights name is the point of the triangle nearest to `p`.
pub proof fn lemma_closest_point_is_nearest(p: Vector3, a: Vector3, b: Vector3, c: Vector3)
    requires
        nondegenerate(a, b, c),
    ensures
        nearest_on_triangle(p, a, b, c, closest_weights(p, a, b, c)),
{
    let w = closest_weights(p, a, b, c);
    let s = w.0 + w.1 + w.2;
    let u = ((b.x - a.x) as int, (b.y - a.y) as int, (b.z - a.z) as int);
    let t = ((c.x - a.x) as int, (c.y - a.y) as int, (c.z - a.z) as int);
    let r = ((p.x - a.x) as int, (p.y - a.y) as int, (p.z - a.z) as int);
    let x = dot3(u, r);
    let y = dot3(t, r);
    let uu = dot3(u, u);
    let ww = dot3(t, t);
    let uw = dot3(u, t);
    assert(x == diff_dot(b, a, p, a));
    assert(y == diff_dot(c, a, p, a));
    assert(uu == diff_dot(b, a, b, a));
    assert(ww == diff_dot(c, a, c, a));
    assert(uw == diff_dot(b, a, c, a));
    lemma_shifted_dot(u, r, u);
    lemma_shifted_dot(t, r, u);
    lemma_shifted_dot(u, r, t);
    lemma_shifted_dot(t, r, t);
    assert(dot3(t, u) == uw) by (nonlinear_arith)
        requires
            uw == dot3(u, t),
    ;
    assert(diff_dot(b, a, p, b) == x - uu);
    assert(diff_dot(c, a, p, b) == y - uw);
    assert(diff_dot(b, a, p, c) == x - uw);
    assert(diff_dot(c, a, p, c) == y - ww);
    lemma_nonneg_square_sum(u);
    lemma_nonneg_square_sum(t);
    assert(uu > 0 && ww > 0) by (nonlinear_arith)
        requires
            uu >= 0,
            ww >= 0,
            uu * ww - uw * uw > 0,
    ;
    lemma_region_signs(x, y, uu, ww, uw, w);
    // The offsets in relative coordinates.
    lemma_offset_relative(p, a, b, c, w);
    lemma_offset_relative(a, a, b, c, w);
    lemma_offset_relative(b, a, b, c, w);
    lemma_offset_relative(c, a, b, c, w);
    let g = scaled_offset(p, a, b, c, w);
    assert(g == (s * r.0 - w.1 * u.0 - w.2 * t.0, s * r.1 - w.1 * u.1 - w.2 * t.1, s * r.2 - w.1
        * u.2 - w.2 * t.2));
    lemma_dot_comb(s, r, w.1, u, w.2, t, u);
    lemma_dot_comb(s, r, w.1, u, w.2, t, t);
    let gu = dot3(g, u);
    let gt = dot3(g, t);
    assert(dot3(r, u) == x && dot3(r, t) == y) by (nonlinear_arith)
        requires
            x == dot3(u, r),
            y == dot3(t, r),
    ;
    assert(dot3(t, t) == ww);
    assert(gu == s * x - w.1 * uu - w.2 * uw);
    assert(gt == s * y - w.1 * uw - w.2 * ww);
    // Directions to the corners.
    let zero = (0int, 0int, 0int);
    assert(scaled_offset(a, a, b, c, w) == lin2(-w.1, u, -w.2, t)) by (nonlinear_arith)
        requires
            scaled_offset(a, a, b, c, w) == (s * 0 - w.1 * u.0 - w.2 * t.0, s * 0 - w.1 * u.1
                - w.2 * t.1, s * 0 - w.1 * u.2 - w.2 * t.2),
    ;
    assert(scaled_offset(b, a, b, c, w) == lin2(s - w.1, u, -w.2, t)) by (nonlinear_arith)
        requires
            scaled_offset(b, a, b, c, w) == (s * u.0 - w.1 * u.0 - w.2 * t.0, s * u.1 - w.1 * u.1
                - w.2 * t.1, s * u.2 - w.1 * u.2 - w.2 * t.2),
    ;
    assert(scaled_offset(c, a, b, c, w) == lin2(-w.1, u, s - w.2, t)) by (nonlinear_arith)
        requires
            scaled_offset(c, a, b, c, w) == (s * t.0 - w.1 * u.0 - w.2 * t.0, s * t.1 - w.1 * u.1
                - w.2 * t.1, s * t.2 - w.1 * u.2 - w.2 * t.2),
    ;
    lemma_dot_lin2(g, -w.1, u, -w.2, t);
    lemma_dot_lin2(g, s - w.1, u, -w.2, t);
    lemma_dot_lin2(g, -w.1, u, s - w.2, t);
    assert(corner_signs(gu, gt, s, w.1, w.2));
    assert(dot3(g, scaled_offset(a, a, b, c, w)) == (-w.1) * gu + (-w.2) * gt);
    assert(dot3(g, scaled_offset(b, a, b, c, w)) == (s - w.1) * gu + (-w.2) * gt);
    assert(dot3(g, scaled_offset(c, a, b, c, w)) == (-w.1) * gu + (s - w.2) * gt);
    assert((-w.1) * gu + (-w.2) * gt == -w.1 * gu - w.2 * gt) by (nonlinear_arith);
    assert((s - w.1) * gu + (-w.2) * gt == (s - w.1) * gu - w.2 * gt) by (nonlinear_arith);
}

proof fn lemma_dot_lin3(
    g: (int, int, int),
    al: int,
    e1: (int, int, int),
    be: int,
    e2: (int, int, int),
    ga: int,
    e3: (int, int, int),
)
    ensures
        dot3(
            g,
            (al * e1.0 + be * e2.0 + ga * e3.0, al * e1.1 + be * e2.1 + ga * e3.1, al * e1.2 + be
                * e2.2 + ga * e3.2),
        ) == al * dot3(g, e1) + be * dot3(g, e2) + ga * dot3(g, e3),
{
    lemma_distrib_three(g.0, al, e1.0, be, e2.0, ga, e3.0);
    lemma_distrib_three(g.1, al, e1.1, be, e2.1, ga, e3.1);
    lemma_distrib_three(g.2, al, e1.2, be, e2.2, ga, e3.2);
    assert(al * dot3(g, e1) == al * (g.0 * e1.0) + al * (g.1 * e1.1) + al * (g.2 * e1.2))
        by (nonlinear_arith);
    assert(be * dot3(g, e2) == be * (g.0 * e2.0) + be * (g.1 * e2.1) + be * (g.2 * e2.2))
        by (nonlinear_arith);
    assert(ga * dot3(g, e3) == ga * (g.0 * e3.0) + ga * (g.1 * e3.1) + ga * (g.2 * e3.2))
        by (nonlinear_arith);
}

proof fn lemma_mul_swap(e: int, k: int, x: int)
    ensures
        e * (k * x) == k * (e * x),
{
    assert(e * (k * x) == k * (e * x)) by (nonlinear_arith);
}

proof fn lemma_distrib_three(e: int, al: int, x1: int, be: int, x2: int, ga: int, x3: int)
    ensures
        e * (al * x1 + be * x2 + ga * x3) == al * (e * x1) + be * (e * x2) + ga * (e * x3),
{
    let pa = al * x1;
    let pb = be * x2;
    let pc = ga * x3;
    assert(e * (pa + pb + pc) == e * pa + e * pb + e * pc) by (nonlinear_arith);
    lemma_mul_swap(e, al, x1);
    lemma_mul_swap(e, be, x2);
    lemma_mul_swap(e, ga, x3);
}

/// Per axis: `al (W a - Q) + be (W b - Q) + ga (W c - Q) == S (W p - Q)`
/// when `al a + be b + ga c == S p` with `S = al + be + ga`.
proof fn lemma_combined_offset(wt: int, q: int, a: int, b: int, c: int, p: int, al: int, be: int, ga: int)
    requires
        al * a + be * b + ga * c == (al + be + ga) * p,
    ensures
        al * (wt * a - q) + be * (wt * b - q) + ga * (wt * c - q) == (al + be + ga) * (wt * p - q),
{
    let ta = wt * a;
    let tb = wt * b;
    let tc = wt * c;
    assert(al * (ta - q) == al * ta - al * q) by (nonlinear_arith);
    assert(be * (tb - q) == be * tb - be * q) by (nonlinear_arith);
    assert(ga * (tc - q) == ga * tc - ga * q) by (nonlinear_arith);
    lemma_mul_swap(al, wt, a);
    lemma_mul_swap(be, wt, b);
    lemma_mul_swap(ga, wt, c);
    lemma_mul_swap(wt, al, a);
    lemma_mul_swap(wt, be, b);
    lemma_mul_swap(wt, ga, c);
    let s = al + be + ga;
    assert(s * q == al * q + be * q + ga * q) by (nonlinear_arith)
        requires
            s == al + be + ga,
    ;
    let pa = al * a;
    let pb = be * b;
    let pc = ga * c;
    assert(wt * (pa + pb + pc) == wt * pa + wt * pb + wt * pc) by (nonlinear_arith);
    lemma_mul_swap(wt, s, p);
    assert(s * (wt * p - q) == s * (wt * p) - s * q) by (nonlinear_arith);
}

/// For a triangle of positive area, a point of the triangle (one that
/// non-negative weights with a positive sum name) is its own closest
/// point: the weights found name it.
pub proof fn lemma_point_of_triangle_is_own_closest(
    p: Vector3,
    a: Vector3,
    b: Vector3,
    c: Vector3,
    al: int,
    be: int,
    ga: int,
)
    requires
        nondegenerate(a, b, c),
        al >= 0,
        be >= 0,
        ga >= 0,
        al + be + ga > 0,
        weights_name((al, be, ga), a, b, c, p),
    ensures
        weights_name(closest_weights(p, a, b, c), a, b, c, p),
{
    let w = closest_weights(p, a, b, c);
    lemma_closest_point_is_nearest(p, a, b, c);
    let g = scaled_offset(p, a, b, c, w);
    let ea = scaled_offset(a, a, b, c, w);
    let eb = scaled_offset(b, a, b, c, w);
    let ec = scaled_offset(c, a, b, c, w);
    let wt = w.0 + w.1 + w.2;
    let sum = al + be + ga;
    lemma_combined_offset(wt, w.0 * a.x + w.1 * b.x + w.2 * c.x, a.x as int, b.x as int, c.x as int, p.x as int, al, be, ga);
    lemma_combined_offset(wt, w.0 * a.y + w.1 * b.y + w.2 * c.y, a.y as int, b.y as int, c.y as int, p.y as int, al, be, ga);
    lemma_combined_offset(wt, w.0 * a.z + w.1 * b.z + w.2 * c.z, a.z as int, b.z as int, c.z as int, p.z as int, al, be, ga);
    lemma_dot_lin3(g, al, ea, be, eb, ga, ec);
    let comb = (al * ea.0 + be * eb.0 + ga * ec.0, al * ea.1 + be * eb.1 + ga * ec.1, al * ea.2 + be
        * eb.2 + ga * ec.2);
    assert(comb == (sum * g.0, sum * g.1, sum * g.2));
    assert(dot3(g, comb) == sum * dot3(g, g)) by (nonlinear_arith)
        requires
            comb == (sum * g.0, sum * g.1, sum * g.2),
    ;
    assert(al * dot3(g, ea) + be * dot3(g, eb) + ga * dot3(g, ec) <= 0) by (nonlinear_arith)
        requires
            al >= 0,
            be >= 0,
            ga >= 0,
            dot3(g, ea) <= 0,
            dot3(g, eb) <= 0,
            dot3(g, ec) <= 0,
    ;
    assert(g.0 == 0 && g.1 == 0 && g.2 == 0) by (nonlinear_arith)
        requires
            sum > 0,
            sum * dot3(g, g) <= 0,
            dot3(g, g) == g.0 * g.0 + g.1 * g.1 + g.2 * g.2,
    ;
}

/// `p / q <= n / d` for positive `q` and `d`, cross-multiplied.
spec fn frac_le(p: int, q: int, n: int, d: int) -> bool {
    p * d <= n * q
}

proof fn lemma_frac_trans(p: int, q: int, n1: int, d1: int, n2: int, d2: int)
    requires
        q > 0,
        d1 > 0,
        d2 > 0,
        frac_le(p, q, n1, d1),
        frac_le(n1, d1, n2, d2),
    ensures
        frac_le(p, q, n2, d2),
{
    assert(p * d1 * d2 <= n1 * q * d2) by (nonlinear_arith)
        requires
            p * d1 <= n1 * q,
            d2 > 0,
    ;
    assert(n1 * d2 * q <= n2 * d1 * q) by (nonlinear_arith)
        requires
            n1 * d2 <= n2 * d1,
            q > 0,
    ;
    assert(p * d2 * d1 <= n2 * q * d1) by (nonlinear_arith)
        requires
            p * d1 * d2 <= n1 * q * d2,
            n1 * d2 * q <= n2 * d1 * q,
    ;
    assert(p * d2 <= n2 * q) by (nonlinear_arith)
        requires
            p * d2 * d1 <= n2 * q * d1,
            d1 > 0,
    ;
}

/// One step of taking the largest entry parameter: `(n, d)` replaced by
/// `p / q` when that is larger and the axis moves.
spec fn entry_step(n: int, d: int, p: int, q: int) -> (int, int) {
    if q > 0 && p * d > n * q {
        (p, q)
    } else {
        (n, d)
    }
}

proof fn lemma_entry_step(n: int, d: int, p: int, q: int)
    requires
        d > 0,
        n >= 0,
    ensures
        entry_step(n, d, p, q).1 > 0,
        entry_step(n, d, p, q).0 >= 0,
        frac_le(n, d, entry_step(n, d, p, q).0, entry_step(n, d, p, q).1),
        q > 0 ==> frac_le(p, q, entry_step(n, d, p, q).0, entry_step(n, d, p, q).1),
        entry_step(n, d, p, q) == (n, d) || entry_step(n, d, p, q) == (p, q),
{
    if q > 0 && p * d > n * q {
        assert(p > 0) by (nonlinear_arith)
            requires
                p * d > n * q,
                d > 0,
                n >= 0,
                q > 0,
        ;
        assert(n * q <= p * d);
    }
}

/// The point at parameter `n / d` lies in the slab `[mn, mx]` of an axis
/// along which the segment moves forward (`l >= 0`), given the facts that
/// the separating-axis test yields.
proof fn lemma_slab_from_choice(l0: int, l: int, mn: int, mx: int, n: int, d: int)
    requires
        l >= 0,
        d > 0,
        mn <= l0 + l,
        l0 <= mx,
        l > 0 ==> frac_le(mn - l0, l, n, d),
        l == 0 ==> mn <= l0,
        n * l <= d * (mx - l0),
    ensures
        d * mn <= d * l0 + n * l <= d * mx,
{
    if l > 0 {
        assert(d * mn <= d * l0 + n * l) by (nonlinear_arith)
            requires
                (mn - l0) * d <= n * l,
        ;
    } else {
        assert(d * mn <= d * l0) by (nonlinear_arith)
            requires
                mn <= l0,
                d > 0,
        ;
        assert(n * l == 0) by (nonlinear_arith)
            requires
                l == 0,
        ;
    }
    assert(d * l0 + n * l <= d * mx) by (nonlinear_arith)
        requires
            n * l <= d * (mx - l0),
    ;
}

/// The exit bound of axis `a` at the parameter `p / q` of an axis `b`
/// whose entry it is, from the pairwise fact of the test.
proof fn lemma_exit_from_pair(pb: int, lb: int, la: int, l0a: int, mxa: int)
    requires
        lb > 0,
        pb * la <= (mxa - l0a) * lb,
    ensures
        pb * la <= lb * (mxa - l0a),
{
    assert(pb * la <= lb * (mxa - l0a)) by (nonlinear_arith)
        requires
            pb * la <= (mxa - l0a) * lb,
    ;
}

/// For a segment moving forward on every axis, the facts that the
/// separating-axis test yields give a parameter `n / d` in `[0, 1]` whose
/// point lies in all three slabs.
proof fn lemma_forward_witness(
    x0: int,
    lx: int,
    mnx: int,
    mxx: int,
    y0: int,
    ly: int,
    mny: int,
    mxy: int,
    z0: int,
    lz: int,
    mnz: int,
    mxz: int,
) -> (nd: (int, int))
    requires
        lx >= 0 && ly >= 0 && lz >= 0,
        mnx <= mxx && mny <= mxy && mnz <= mxz,
        mnx <= x0 + lx && x0 <= mxx,
        mny <= y0 + ly && y0 <= mxy,
        mnz <= z0 + lz && z0 <= mxz,
        (mnx - x0) * ly <= (mxy - y0) * lx,
        (mny - y0) * lx <= (mxx - x0) * ly,
        (mny - y0) * lz <= (mxz - z0) * ly,
        (mnz - z0) * ly <= (mxy - y0) * lz,
        (mnz - z0) * lx <= (mxx - x0) * lz,
        (mnx - x0) * lz <= (mxz - z0) * lx,
    ensures
        0 <= nd.0 <= nd.1,
        nd.1 > 0,
        nd.1 * mnx <= nd.1 * x0 + nd.0 * lx <= nd.1 * mxx,
        nd.1 * mny <= nd.1 * y0 + nd.0 * ly <= nd.1 * mxy,
        nd.1 * mnz <= nd.1 * z0 + nd.0 * lz <= nd.1 * mxz,
{
    let cx = mnx - x0;
    let cy = mny - y0;
    let cz = mnz - z0;
    lemma_entry_step(0, 1, cx, lx);
    let s1 = entry_step(0, 1, cx, lx);
    lemma_entry_step(s1.0, s1.1, cy, ly);
    let s2 = entry_step(s1.0, s1.1, cy, ly);
    lemma_entry_step(s2.0, s2.1, cz, lz);
    let s3 = entry_step(s2.0, s2.1, cz, lz);
    let n = s3.0;
    let d = s3.1;
    // The entry of every moving axis is no later than the chosen one.
    if lx > 0 {
        lemma_frac_trans(cx, lx, s1.0, s1.1, s2.0, s2.1);
        lemma_frac_trans(cx, lx, s2.0, s2.1, n, d);
    }
    if ly > 0 {
        lemma_frac_trans(cy, ly, s2.0, s2.1, n, d);
    }
    // `(n, d)` is `0 / 1` or the entry of a moving axis.
    assert(s3 == (0int, 1int) || (s3 == (cx, lx) && lx > 0) || (s3 == (cy, ly) && ly > 0) || (s3
        == (cz, lz) && lz > 0));
    // Zero-length axes: the start lies in the slab.
    assert(lx == 0 ==> mnx <= x0);
    assert(ly == 0 ==> mny <= y0);
    assert(lz == 0 ==> mnz <= z0);
    // Exit bounds at the chosen parameter.
    if s3 == (0int, 1int) {
        assert(n * lx <= d * (mxx - x0)) by (nonlinear_arith)
            requires
                n == 0,
                d == 1,
                x0 <= mxx,
        ;
        assert(n * ly <= d * (mxy - y0)) by (nonlinear_arith)
            requires
                n == 0,
                d == 1,
                y0 <= mxy,
        ;
        assert(n * lz <= d * (mxz - z0)) by (nonlinear_arith)
            requires
                n == 0,
                d == 1,
                z0 <= mxz,
        ;
    } else if s3 == (cx, lx) && lx > 0 {
        assert(cx * lx <= (mxx - x0) * lx) by (nonlinear_arith)
            requires
                cx == mnx - x0,
                mnx <= mxx,
                lx > 0,
        ;
        lemma_exit_from_pair(cx, lx, lx, x0, mxx);
        lemma_exit_from_pair(cx, lx, ly, y0, mxy);
        lemma_exit_from_pair(cx, lx, lz, z0, mxz);
    } else if s3 == (cy, ly) && ly > 0 {
        assert(cy * ly <= (mxy - y0) * ly) by (nonlinear_arith)
            requires
                cy == mny - y0,
                mny <= mxy,
                ly > 0,
        ;
        lemma_exit_from_pair(cy, ly, lx, x0, mxx);
        lemma_exit_from_pair(cy, ly, ly, y0, mxy);
        lemma_exit_from_pair(cy, ly, lz, z0, mxz);
    } else {
        assert(cz * lz <= (mxz - z0) * lz) by (nonlinear_arith)
            requires
                cz == mnz - z0,
                mnz <= mxz,
                lz > 0,
        ;
        lemma_exit_from_pair(cz, lz, lx, x0, mxx);
        lemma_exit_from_pair(cz, lz, ly, y0, mxy);
        lemma_exit_from_pair(cz, lz, lz, z0, mxz);
    }
    lemma_slab_from_choice(x0, lx, mnx, mxx, n, d);
    lemma_slab_from_choice(y0, ly, mny, mxy, n, d);
    lemma_slab_from_choice(z0, lz, mnz, mxz, n, d);
    (n, d)
}

/// An axis seen so that the segment moves forward along it: start,
/// extent, slab bounds, mirrored when the segment moves backward.
spec fn forward_axis(l0: int, l1: int, mn: int, mx: int) -> (int, int, int, int) {
    if l1 - l0 >= 0 {
        (l0, l1 - l0, mn, mx)
    } else {
        (-l0, l0 - l1, -mx, -mn)
    }
}

/// The box-axis test in forward form: the segment reaches the slab's low
/// side and starts before its high side.
proof fn lemma_forward_box_test(l0: int, l1: int, mn: int, mx: int)
    requires
        abs_int((l0 + l1) - (mx + mn)) <= abs_int(l1 - l0) + (mx - mn),
    ensures
        ({
            let f = forward_axis(l0, l1, mn, mx);
            &&& f.1 >= 0
            &&& f.2 <= f.0 + f.1
            &&& f.0 <= f.3
            &&& mn <= mx ==> f.2 <= f.3
            &&& f.3 - f.2 == mx - mn
        }),
{
}

/// The cross test of two axes in forward form: each axis's entry comes no
/// later than the other's exit.
proof fn lemma_forward_cross_test(
    l0a: int,
    l1a: int,
    mna: int,
    mxa: int,
    l0b: int,
    l1b: int,
    mnb: int,
    mxb: int,
)
    requires
        ({
            let la = l1a - l0a;
            let lb = l1b - l0b;
            let ta = (l0a + l1a) - (mxa + mna);
            let tb = (l0b + l1b) - (mxb + mnb);
            abs_int(ta * lb - tb * la) <= (mxa - mna) * abs_int(lb) + (mxb - mnb) * abs_int(la)
        }),
    ensures
        ({
            let fa = forward_axis(l0a, l1a, mna, mxa);
            let fb = forward_axis(l0b, l1b, mnb, mxb);
            &&& (fa.2 - fa.0) * fb.1 <= (fb.3 - fb.0) * fa.1
            &&& (fb.2 - fb.0) * fa.1 <= (fa.3 - fa.0) * fb.1
        }),
{
    let la = l1a - l0a;
    let lb = l1b - l0b;
    let ta = (l0a + l1a) - (mxa + mna);
    let tb = (l0b + l1b) - (mxb + mnb);
    let fa = forward_axis(l0a, l1a, mna, mxa);
    let fb = forward_axis(l0b, l1b, mnb, mxb);
    // In forward form the test reads the same.
    let sa: int = if la >= 0 { 1 } else { -1 };
    let sb: int = if lb >= 0 { 1 } else { -1 };
    let fta = 2 * fa.0 + fa.1 - (fa.3 + fa.2);
    let ftb = 2 * fb.0 + fb.1 - (fb.3 + fb.2);
    assert(fta == (if sa == 1 { ta } else { -ta }) && fa.1 == (if sa == 1 { la } else { -la })
        && fa.1 == abs_int(la));
    assert(ftb == (if sb == 1 { tb } else { -tb }) && fb.1 == (if sb == 1 { lb } else { -lb })
        && fb.1 == abs_int(lb));
    lemma_mirrored_cross(ta, la, tb, lb, sa, sb, fta, fa.1, ftb, fb.1);
    let ea = fa.3 - fa.2;
    let eb = fb.3 - fb.2;
    assert(ea == mxa - mna && eb == mxb - mnb);
    let x = fta * fb.1 - ftb * fa.1;
    assert(x == (2 * fa.0 - fa.3 - fa.2) * fb.1 - (2 * fb.0 - fb.3 - fb.2) * fa.1)
        by (nonlinear_arith)
        requires
            x == fta * fb.1 - ftb * fa.1,
            fta == 2 * fa.0 + fa.1 - (fa.3 + fa.2),
            ftb == 2 * fb.0 + fb.1 - (fb.3 + fb.2),
    ;
    assert((fa.2 - fa.0) * fb.1 <= (fb.3 - fb.0) * fa.1) by (nonlinear_arith)
        requires
            x == (2 * fa.0 - fa.3 - fa.2) * fb.1 - (2 * fb.0 - fb.3 - fb.2) * fa.1,
            -x <= ea * fb.1 + eb * fa.1,
            ea == fa.3 - fa.2,
            eb == fb.3 - fb.2,
    ;
    assert((fb.2 - fb.0) * fa.1 <= (fa.3 - fa.0) * fb.1) by (nonlinear_arith)
        requires
            x == (2 * fa.0 - fa.3 - fa.2) * fb.1 - (2 * fb.0 - fb.3 - fb.2) * fa.1,
            x <= ea * fb.1 + eb * fa.1,
            ea == fa.3 - fa.2,
            eb == fb.3 - fb.2,
    ;
}

proof fn lemma_mirrored_cross(
    ta: int,
    la: int,
    tb: int,
    lb: int,
    sa: int,
    sb: int,
    fta: int,
    fla: int,
    ftb: int,
    flb: int,
)
    requires
        sa == 1 || sa == -1,
        sb == 1 || sb == -1,
        fta == (if sa == 1 { ta } else { -ta }),
        fla == (if sa == 1 { la } else { -la }),
        ftb == (if sb == 1 { tb } else { -tb }),
        flb == (if sb == 1 { lb } else { -lb }),
    ensures
        abs_int(fta * flb - ftb * fla) == abs_int(ta * lb - tb * la),
{
    if sa == 1 && sb == 1 {
        assert(fta == ta && fla == la && ftb == tb && flb == lb);
    } else if sa == 1 {
        assert(fta * flb - ftb * fla == -(ta * lb - tb * la)) by (nonlinear_arith)
            requires
                fta == ta,
                fla == la,
                ftb == -tb,
                flb == -lb,
        ;
    } else if sb == 1 {
        assert(fta * flb - ftb * fla == -(ta * lb - tb * la)) by (nonlinear_arith)
            requires
                fta == -ta,
                fla == -la,
                ftb == tb,
                flb == lb,
        ;
    } else {
        assert(fta * flb - ftb * fla == ta * lb - tb * la) by (nonlinear_arith)
            requires
                fta == -ta,
                fla == -la,
                ftb == -tb,
                flb == -lb,
        ;
    }
}

/// A forward-form slab condition is the slab condition of the axis.
proof fn lemma_forward_slab(l0: int, l1: int, mn: int, mx: int, n: int, d: int)
    requires
        ({
            let f = forward_axis(l0, l1, mn, mx);
            d * f.2 <= d * f.0 + n * f.1 <= d * f.3
        }),
    ensures
        d * mn <= d * l0 + n * (l1 - l0) <= d * mx,
{
    if l1 - l0 < 0 {
        assert(d * mn <= d * l0 + n * (l1 - l0) <= d * mx) by (nonlinear_arith)
            requires
                d * (-mx) <= d * (-l0) + n * (l0 - l1) <= d * (-mn),
        ;
    }
}

/// The separating-axis test is exact: a segment that it accepts has a
/// point, at some parameter `n / d` in `[0, 1]`, in the box (a box that is
/// not inverted on any axis).
pub proof fn lemma_segment_meets_has_point(b: AABB, l0: Vector3, l1: Vector3) -> (nd: (int, int))
    requires
        b.min.x <= b.max.x && b.min.y <= b.max.y && b.min.z <= b.max.z,
        segment_meets_box(b, l0, l1),
    ensures
        0 <= nd.0 <= nd.1,
        nd.1 > 0,
        nd.1 * b.min.x <= nd.1 * l0.x + nd.0 * (l1.x - l0.x) <= nd.1 * b.max.x,
        nd.1 * b.min.y <= nd.1 * l0.y + nd.0 * (l1.y - l0.y) <= nd.1 * b.max.y,
        nd.1 * b.min.z <= nd.1 * l0.z + nd.0 * (l1.z - l0.z) <= nd.1 * b.max.z,
{
    lemma_forward_box_test(l0.x as int, l1.x as int, b.min.x as int, b.max.x as int);
    lemma_forward_box_test(l0.y as int, l1.y as int, b.min.y as int, b.max.y as int);
    lemma_forward_box_test(l0.z as int, l1.z as int, b.min.z as int, b.max.z as int);
    lemma_forward_cross_test(
        l0.y as int,
        l1.y as int,
        b.min.y as int,
        b.max.y as int,
        l0.z as int,
        l1.z as int,
        b.min.z as int,
        b.max.z as int,
    );
    lemma_forward_cross_test(
        l0.z as int,
        l1.z as int,
        b.min.z as int,
        b.max.z as int,
        l0.x as int,
        l1.x as int,
        b.min.x as int,
        b.max.x as int,
    );
    lemma_forward_cross_test(
        l0.x as int,
        l1.x as int,
        b.min.x as int,
        b.max.x as int,
        l0.y as int,
        l1.y as int,
        b.min.y as int,
        b.max.y as int,
    );
    let fx = forward_axis(l0.x as int, l1.x as int, b.min.x as int, b.max.x as int);
    let fy = forward_axis(l0.y as int, l1.y as int, b.min.y as int, b.max.y as int);
    let fz = forward_axis(l0.z as int, l1.z as int, b.min.z as int, b.max.z as int);
    let nd = lemma_forward_witness(
        fx.0,
        fx.1,
        fx.2,
        fx.3,
        fy.0,
        fy.1,
        fy.2,
        fy.3,
        fz.0,
        fz.1,
        fz.2,
        fz.3,
    );
    lemma_forward_slab(l0.x as int, l1.x as int, b.min.x as int, b.max.x as int, nd.0, nd.1);
    lemma_forward_slab(l0.y as int, l1.y as int, b.min.y as int, b.max.y as int, nd.0, nd.1);
    lemma_forward_slab(l0.z as int, l1.z as int, b.min.z as int, b.max.z as int, nd.0, nd.1);
    nd
}

} // verus!
