//! Integer-coordinate geometry: points, axis-aligned boxes, segments, and the
//! exact predicates the collision and culling code is built on.
//!
//! World positions are fixed-point integers, so every comparison and every
//! product below is exact.
use vstd::prelude::*;

verus! {

/// A point or a direction with integer (fixed-point) coordinates.
#[derive(Clone, Copy, Debug, PartialEq, Eq, Structural)]
pub struct Vector3 {
    pub x: i32,
    pub y: i32,
    pub z: i32,
}

impl Vector3 {
    pub fn new(x: i32, y: i32, z: i32) -> (v: Self)
        ensures
            v.x == x,
            v.y == y,
            v.z == z,
    {
        Vector3 { x, y, z }
    }
}

/// Axis-aligned bounding box given by its two extreme corners.
#[derive(Clone, Copy, Debug, PartialEq, Eq, Structural)]
pub struct AABB {
    pub min: Vector3,
    pub max: Vector3,
}

/// A segment from `origin` to `origin + direction`.
#[derive(Clone, Copy, Debug, PartialEq, Eq, Structural)]
pub struct Segment {
    pub origin: Vector3,
    pub direction: Vector3,
}

/// A sphere used by the physics code.
#[derive(Clone, Copy, Debug, PartialEq, Eq, Structural)]
pub struct PhysicsSphere {
    pub center: Vector3,
    pub radius: i32,
}

/// Which side of a plane a polygon lies on.
#[derive(Clone, Copy, Debug, PartialEq, Eq, Structural)]
pub enum PolySide {
    FrontSide,
    BackSide,
    Intersect,
}

pub open spec fn min_int(a: int, b: int) -> int {
    if a <= b { a } else { b }
}

pub open spec fn max_int(a: int, b: int) -> int {
    if a >= b { a } else { b }
}

pub open spec fn abs_int(a: int) -> int {
    if a < 0 { -a } else { a }
}

/// `p` lies in the closed box `b`.
pub open spec fn box_holds(b: AABB, p: Vector3) -> bool {
    &&& b.min.x <= p.x <= b.max.x
    &&& b.min.y <= p.y <= b.max.y
    &&& b.min.z <= p.z <= b.max.z
}

/// The closed boxes `a` and `b` share a point on every axis.
pub open spec fn boxes_overlap(a: AABB, b: AABB) -> bool {
    !(a.max.x < b.min.x || a.min.x > b.max.x || a.max.y < b.min.y || a.min.y > b.max.y
        || a.max.z < b.min.z || a.min.z > b.max.z)
}

/// Every point of box `inner` lies in box `outer` (corner-wise comparison).
pub open spec fn box_within(inner: AABB, outer: AABB) -> bool {
    &&& outer.min.x <= inner.min.x && inner.max.x <= outer.max.x
    &&& outer.min.y <= inner.min.y && inner.max.y <= outer.max.y
    &&& outer.min.z <= inner.min.z && inner.max.z <= outer.max.z
}

/// The smallest box that holds both `a` and `b`.
pub open spec fn merged(a: AABB, b: AABB) -> AABB {
    AABB {
        min: Vector3 {
            x: min_int(a.min.x as int, b.min.x as int) as i32,
            y: min_int(a.min.y as int, b.min.y as int) as i32,
            z: min_int(a.min.z as int, b.min.z as int) as i32,
        },
        max: Vector3 {
            x: max_int(a.max.x as int, b.max.x as int) as i32,
            y: max_int(a.max.y as int, b.max.y as int) as i32,
            z: max_int(a.max.z as int, b.max.z as int) as i32,
        },
    }
}

/// The smallest box that holds the three points.
pub open spec fn box_of_points(a: Vector3, b: Vector3, c: Vector3) -> AABB {
    AABB {
        min: Vector3 {
            x: min_int(min_int(a.x as int, b.x as int), c.x as int) as i32,
            y: min_int(min_int(a.y as int, b.y as int), c.y as int) as i32,
            z: min_int(min_int(a.z as int, b.z as int), c.z as int) as i32,
        },
        max: Vector3 {
            x: max_int(max_int(a.x as int, b.x as int), c.x as int) as i32,
            y: max_int(max_int(a.y as int, b.y as int), c.y as int) as i32,
            z: max_int(max_int(a.z as int, b.z as int), c.z as int) as i32,
        },
    }
}

/// Triangle `t` of an indexed mesh can be read: its three indices exist and
/// name existing positions.
pub open spec fn tri_readable(pos: Seq<Vector3>, idx: Seq<u32>, t: int) -> bool {
    &&& 0 <= t
    &&& 3 * t + 2 < idx.len()
    &&& idx[3 * t] < pos.len()
    &&& idx[3 * t + 1] < pos.len()
    &&& idx[3 * t + 2] < pos.len()
}

/// The three corners of triangle `t` of an indexed mesh.
pub open spec fn tri_corner(pos: Seq<Vector3>, idx: Seq<u32>, t: int, k: int) -> Vector3 {
    pos[idx[3 * t + k] as int]
}

/// The bounding box of triangle `t` of an indexed mesh.
pub open spec fn tri_box(pos: Seq<Vector3>, idx: Seq<u32>, t: int) -> AABB {
    box_of_points(tri_corner(pos, idx, t, 0), tri_corner(pos, idx, t, 1), tri_corner(pos, idx, t, 2))
}

/// The separating-axis test of a segment from `l0` to `l1` against box `b`,
/// carried out on the doubled coordinates so that it is exact: three box
/// axes, then the three cross products of the segment with the box axes.
pub open spec fn segment_meets_box(b: AABB, l0: Vector3, l1: Vector3) -> bool {
    let lx = l1.x - l0.x;
    let ly = l1.y - l0.y;
    let lz = l1.z - l0.z;
    let tx = (l0.x + l1.x) - (b.max.x + b.min.x);
    let ty = (l0.y + l1.y) - (b.max.y + b.min.y);
    let tz = (l0.z + l1.z) - (b.max.z + b.min.z);
    let ex = b.max.x - b.min.x;
    let ey = b.max.y - b.min.y;
    let ez = b.max.z - b.min.z;
    &&& abs_int(tx) <= abs_int(lx) + ex
    &&& abs_int(ty) <= abs_int(ly) + ey
    &&& abs_int(tz) <= abs_int(lz) + ez
    &&& abs_int(ty * lz - tz * ly) <= ey * abs_int(lz) + ez * abs_int(ly)
    &&& abs_int(tz * lx - tx * lz) <= ex * abs_int(lz) + ez * abs_int(lx)
    &&& abs_int(tx * ly - ty * lx) <= ex * abs_int(ly) + ey * abs_int(lx)
}

fn min_i32(a: i32, b: i32) -> (r: i32)
    ensures
        r == min_int(a as int, b as int),
{
    if a <= b {
        a
    } else {
        b
    }
}

fn max_i32(a: i32, b: i32) -> (r: i32)
    ensures
        r == max_int(a as int, b as int),
{
    if a >= b {
        a
    } else {
        b
    }
}

fn abs_i128(a: i128) -> (r: i128)
    requires
        a > i128::MIN,
    ensures
        r == abs_int(a as int),
{
    if a < 0 {
        -a
    } else {
        a
    }
}

/// Product of two integers of magnitude at most 2^40.
fn mul_small(a: i128, b: i128) -> (r: i128)
    requires
        -0x100_0000_0000 <= a <= 0x100_0000_0000,
        -0x100_0000_0000 <= b <= 0x100_0000_0000,
    ensures
        r == a * b,
        -0x1_0000_0000_0000_0000_0000 <= r <= 0x1_0000_0000_0000_0000_0000,
{
    assert(-0x1_0000_0000_0000_0000_0000 <= a * b <= 0x1_0000_0000_0000_0000_0000) by (nonlinear_arith)
        requires
            -0x100_0000_0000 <= a <= 0x100_0000_0000,
            -0x100_0000_0000 <= b <= 0x100_0000_0000,
    ;
    a * b
}

/// One cross-product test of the separating-axis check:
/// `|ta * lb - tb * la| <= ea * |lb| + eb * |la|`.
fn cross_axis_ok(ta: i128, tb: i128, la: i128, lb: i128, ea: i128, eb: i128) -> (r: bool)
    requires
        -0x100_0000_0000 <= ta <= 0x100_0000_0000,
        -0x100_0000_0000 <= tb <= 0x100_0000_0000,
        -0x100_0000_0000 <= la <= 0x100_0000_0000,
        -0x100_0000_0000 <= lb <= 0x100_0000_0000,
        -0x100_0000_0000 <= ea <= 0x100_0000_0000,
        -0x100_0000_0000 <= eb <= 0x100_0000_0000,
    ensures
        r == (abs_int(ta * lb - tb * la) <= ea * abs_int(lb as int) + eb * abs_int(la as int)),
{
    let p = mul_small(ta, lb);
    let q = mul_small(tb, la);
    let lhs = abs_i128(p - q);
    let rhs = mul_small(ea, abs_i128(lb)) + mul_small(eb, abs_i128(la));
    lhs <= rhs
}

impl AABB {
    /// Whether `point` lies inside the closed box.
    pub fn contains(&self, point: Vector3) -> (r: bool)
        ensures
            r == box_holds(*self, point),
    {
        point.x >= self.min.x && point.x <= self.max.x && point.y >= self.min.y && point.y
            <= self.max.y && point.z >= self.min.z && point.z <= self.max.z
    }

    /// Whether the two closed boxes overlap.
    pub fn intersects(&self, other: &AABB) -> (r: bool)
        ensures
            r == boxes_overlap(*self, *other),
    {
        !(self.max.x < other.min.x || self.min.x > other.max.x || self.max.y < other.min.y
            || self.min.y > other.max.y || self.max.z < other.min.z || self.min.z > other.max.z)
    }

    /// Segment / box intersection by the separating axis theorem.
    pub fn intersects_line_segment(&self, l0: Vector3, l1: Vector3) -> (r: bool)
        ensures
            r == segment_meets_box(*self, l0, l1),
    {
        let lx = l1.x as i128 - l0.x as i128;
        let ly = l1.y as i128 - l0.y as i128;
        let lz = l1.z as i128 - l0.z as i128;
        let tx = (l0.x as i128 + l1.x as i128) - (self.max.x as i128 + self.min.x as i128);
        let ty = (l0.y as i128 + l1.y as i128) - (self.max.y as i128 + self.min.y as i128);
        let tz = (l0.z as i128 + l1.z as i128) - (self.max.z as i128 + self.min.z as i128);
        let ex = self.max.x as i128 - self.min.x as i128;
        let ey = self.max.y as i128 - self.min.y as i128;
        let ez = self.max.z as i128 - self.min.z as i128;

        if abs_i128(tx) > abs_i128(lx) + ex {
            return false;
        }
        if abs_i128(ty) > abs_i128(ly) + ey {
            return false;
        }
        if abs_i128(tz) > abs_i128(lz) + ez {
            return false;
        }
        if !cross_axis_ok(ty, tz, ly, lz, ey, ez) {
            return false;
        }
        if !cross_axis_ok(tz, tx, lz, lx, ez, ex) {
            return false;
        }
        if !cross_axis_ok(tx, ty, lx, ly, ex, ey) {
            return false;
        }
        true
    }

    /// The bounding box of triangle `t` of the indexed mesh (`pos`, `idx`).
    pub fn compute_tri_aabb(pos: &[Vector3], idx: &[u32], t: usize) -> (b: AABB)
        requires
            tri_readable(pos@, idx@, t as int),
        ensures
            b == tri_box(pos@, idx@, t as int),
    {
        let n = idx.len();
        assert(3 * t + 2 < n);
        let a = pos[idx[t * 3] as usize];
        let b = pos[idx[t * 3 + 1] as usize];
        let c = pos[idx[t * 3 + 2] as usize];
        AABB {
            min: Vector3::new(
                min_i32(min_i32(a.x, b.x), c.x),
                min_i32(min_i32(a.y, b.y), c.y),
                min_i32(min_i32(a.z, b.z), c.z),
            ),
            max: Vector3::new(
                max_i32(max_i32(a.x, b.x), c.x),
                max_i32(max_i32(a.y, b.y), c.y),
                max_i32(max_i32(a.z, b.z), c.z),
            ),
        }
    }

    /// The smallest box holding both `a` and `b`.
    pub fn merge_aabb(a: &AABB, b: &AABB) -> (r: AABB)
        ensures
            r == merged(*a, *b),
    {
        AABB {
            min: Vector3::new(
                min_i32(a.min.x, b.min.x),
                min_i32(a.min.y, b.min.y),
                min_i32(a.min.z, b.min.z),
            ),
            max: Vector3::new(
                max_i32(a.max.x, b.max.x),
                max_i32(a.max.y, b.max.y),
                max_i32(a.max.z, b.max.z),
            ),
        }
    }

    /// The centroid of triangle `t`, exactly: its coordinates are the
    /// fields of the result divided by three.
    pub fn compute_centroid(pos: &[Vector3], idx: &[u32], t: usize) -> (c: Centroid)
        requires
            tri_readable(pos@, idx@, t as int),
        ensures
            c.x3 == tri_corner(pos@, idx@, t as int, 0).x + tri_corner(pos@, idx@, t as int, 1).x
                + tri_corner(pos@, idx@, t as int, 2).x,
            c.y3 == tri_corner(pos@, idx@, t as int, 0).y + tri_corner(pos@, idx@, t as int, 1).y
                + tri_corner(pos@, idx@, t as int, 2).y,
            c.z3 == tri_corner(pos@, idx@, t as int, 0).z + tri_corner(pos@, idx@, t as int, 1).z
                + tri_corner(pos@, idx@, t as int, 2).z,
    {
        let n = idx.len();
        assert(3 * t + 2 < n);
        let a = pos[idx[t * 3] as usize];
        let b = pos[idx[t * 3 + 1] as usize];
        let c = pos[idx[t * 3 + 2] as usize];
        Centroid {
            x3: a.x as i64 + b.x as i64 + c.x as i64,
            y3: a.y as i64 + b.y as i64 + c.y as i64,
            z3: a.z as i64 + b.z as i64 + c.z as i64,
        }
    }
}

/// A point held exactly with coordinates in thirds of a unit: the point is
/// `(x3 / 3, y3 / 3, z3 / 3)`.
#[derive(Clone, Copy, Debug, PartialEq, Eq, Structural)]
pub struct Centroid {
    pub x3: i64,
    pub y3: i64,
    pub z3: i64,
}

/// Barycentric weights of a point of a triangle's plane: the point is
/// `(wa * a + wb * b + wc * c) / (wa + wb + wc)`; when the three weights sum
/// to zero no point is described.
#[derive(Clone, Copy, Debug, PartialEq, Eq, Structural)]
pub struct Barycentric {
    pub wa: i128,
    pub wb: i128,
    pub wc: i128,
}

/// `(u1 - u0) . (v1 - v0)`.
pub open spec fn diff_dot(u1: Vector3, u0: Vector3, v1: Vector3, v0: Vector3) -> int {
    (u1.x - u0.x) * (v1.x - v0.x) + (u1.y - u0.y) * (v1.y - v0.y) + (u1.z - u0.z) * (v1.z
        - v0.z)
}

/// The weights that the Voronoi-region search for the closest point of a
/// triangle assigns to `p` and triangle `abc`: a vertex, a point of an
/// edge, or the projection onto the face.
pub open spec fn closest_weights(p: Vector3, a: Vector3, b: Vector3, c: Vector3) -> (int, int, int) {
    let d1 = diff_dot(b, a, p, a);
    let d2 = diff_dot(c, a, p, a);
    let d3 = diff_dot(b, a, p, b);
    let d4 = diff_dot(c, a, p, b);
    let d5 = diff_dot(b, a, p, c);
    let d6 = diff_dot(c, a, p, c);
    let vc = d1 * d4 - d3 * d2;
    let vb = d5 * d2 - d1 * d6;
    let va = d3 * d6 - d5 * d4;
    if d1 <= 0 && d2 <= 0 {
        (1, 0, 0)
    } else if d3 >= 0 && d4 <= d3 {
        (0, 1, 0)
    } else if vc <= 0 && d1 >= 0 && d3 <= 0 {
        (-d3, d1, 0)
    } else if d6 >= 0 && d5 <= d6 {
        (0, 0, 1)
    } else if vb <= 0 && d2 >= 0 && d6 <= 0 {
        (-d6, 0, d2)
    } else if va <= 0 && d4 - d3 >= 0 && d5 - d6 >= 0 {
        (0, d5 - d6, d4 - d3)
    } else {
        (va, vb, vc)
    }
}

/// Every coordinate of `v` has magnitude at most 2^24, so that the exact
/// barycentric weights of points built from it fit in 128 bits.
pub open spec fn coord_bounded(v: Vector3) -> bool {
    &&& -0x100_0000 <= v.x <= 0x100_0000
    &&& -0x100_0000 <= v.y <= 0x100_0000
    &&& -0x100_0000 <= v.z <= 0x100_0000
}

/// The point that weights `w` describe for triangle `abc` equals `q`:
/// `wa * a + wb * b + wc * c == (wa + wb + wc) * q` on every axis.
pub open spec fn weights_name(w: (int, int, int), a: Vector3, b: Vector3, c: Vector3, q: Vector3) -> bool {
    &&& w.0 * a.x + w.1 * b.x + w.2 * c.x == (w.0 + w.1 + w.2) * q.x
    &&& w.0 * a.y + w.1 * b.y + w.2 * c.y == (w.0 + w.1 + w.2) * q.y
    &&& w.0 * a.z + w.1 * b.z + w.2 * c.z == (w.0 + w.1 + w.2) * q.z
}

/// Product of two integers of magnitude at most 2^52.
fn mul_wide(a: i128, b: i128) -> (r: i128)
    requires
        -0x10_0000_0000_0000 <= a <= 0x10_0000_0000_0000,
        -0x10_0000_0000_0000 <= b <= 0x10_0000_0000_0000,
    ensures
        r == a * b,
        -0x100_0000_0000_0000_0000_0000_0000 <= r <= 0x100_0000_0000_0000_0000_0000_0000,
{
    assert(-0x100_0000_0000_0000_0000_0000_0000 <= a * b <= 0x100_0000_0000_0000_0000_0000_0000)
        by (nonlinear_arith)
        requires
            -0x10_0000_0000_0000 <= a <= 0x10_0000_0000_0000,
            -0x10_0000_0000_0000 <= b <= 0x10_0000_0000_0000,
    ;
    a * b
}

proof fn lemma_small_product(a: int, b: int)
    requires
        -0x200_0000 <= a <= 0x200_0000,
        -0x200_0000 <= b <= 0x200_0000,
    ensures
        -0x4_0000_0000_0000 <= a * b <= 0x4_0000_0000_0000,
{
    assert(-0x4_0000_0000_0000 <= a * b <= 0x4_0000_0000_0000) by (nonlinear_arith)
        requires
            -0x200_0000 <= a <= 0x200_0000,
            -0x200_0000 <= b <= 0x200_0000,
    ;
}

/// `(u1 - u0) . (v1 - v0)` for bounded coordinates.
fn dot_of_diffs(u1: Vector3, u0: Vector3, v1: Vector3, v0: Vector3) -> (r: i128)
    requires
        coord_bounded(u1),
        coord_bounded(u0),
        coord_bounded(v1),
        coord_bounded(v0),
    ensures
        r == diff_dot(u1, u0, v1, v0),
        -0x10_0000_0000_0000 <= r <= 0x10_0000_0000_0000,
{
    let ax = u1.x as i128 - u0.x as i128;
    let ay = u1.y as i128 - u0.y as i128;
    let az = u1.z as i128 - u0.z as i128;
    let bx = v1.x as i128 - v0.x as i128;
    let by = v1.y as i128 - v0.y as i128;
    let bz = v1.z as i128 - v0.z as i128;
    proof {
        lemma_small_product(ax as int, bx as int);
        lemma_small_product(ay as int, by as int);
        lemma_small_product(az as int, bz as int);
    }
    ax * bx + ay * by + az * bz
}

/// The point of triangle `abc` closest to `p`, found by testing the Voronoi
/// regions of the vertices, the edges and the face in turn; the result is
/// given by its barycentric weights.
pub fn closest_point_on_triangle(p: Vector3, a: Vector3, b: Vector3, c: Vector3) -> (w: Barycentric)
    requires
        coord_bounded(p),
        coord_bounded(a),
        coord_bounded(b),
        coord_bounded(c),
    ensures
        (w.wa as int, w.wb as int, w.wc as int) == closest_weights(p, a, b, c),
{
    let d1 = dot_of_diffs(b, a, p, a);
    let d2 = dot_of_diffs(c, a, p, a);
    if d1 <= 0 && d2 <= 0 {
        return Barycentric { wa: 1, wb: 0, wc: 0 };
    }
    let d3 = dot_of_diffs(b, a, p, b);
    let d4 = dot_of_diffs(c, a, p, b);
    if d3 >= 0 && d4 <= d3 {
        return Barycentric { wa: 0, wb: 1, wc: 0 };
    }
    let vc = mul_wide(d1, d4) - mul_wide(d3, d2);
    if vc <= 0 && d1 >= 0 && d3 <= 0 {
        return Barycentric { wa: -d3, wb: d1, wc: 0 };
    }
    let d5 = dot_of_diffs(b, a, p, c);
    let d6 = dot_of_diffs(c, a, p, c);
    if d6 >= 0 && d5 <= d6 {
        return Barycentric { wa: 0, wb: 0, wc: 1 };
    }
    let vb = mul_wide(d5, d2) - mul_wide(d1, d6);
    if vb <= 0 && d2 >= 0 && d6 <= 0 {
        return Barycentric { wa: -d6, wb: 0, wc: d2 };
    }
    let va = mul_wide(d3, d6) - mul_wide(d5, d4);
    if va <= 0 && d4 - d3 >= 0 && d5 - d6 >= 0 {
        return Barycentric { wa: 0, wb: d5 - d6, wc: d4 - d3 };
    }
    Barycentric { wa: va, wb: vb, wc: vc }
}

} // verus!
