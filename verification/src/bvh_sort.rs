//! Ordering triangles along an axis by their centroids, as the BVH split
//! needs it; a merge sort over triangle numbers.
use vstd::prelude::*;
use crate::geometry::{tri_corner, tri_readable, Vector3};

verus! {

broadcast use vstd::seq_lib::group_to_multiset_ensures;

/// Every triangle number in `tris` can be read from the mesh.
pub open spec fn all_readable(pos: Seq<Vector3>, idx: Seq<u32>, tris: Seq<usize>) -> bool {
    forall|j: int| 0 <= j < tris.len() ==> #[trigger] tri_readable(pos, idx, tris[j] as int)
}

/// Three times the centroid of triangle `t` along `axis` (0: x, 1: y,
/// otherwise z): it orders triangles exactly as their centroids do.
pub open spec fn centroid_key(pos: Seq<Vector3>, idx: Seq<u32>, t: int, axis: u8) -> int {
    let a = tri_corner(pos, idx, t, 0);
    let b = tri_corner(pos, idx, t, 1);
    let c = tri_corner(pos, idx, t, 2);
    if axis == 0 {
        a.x + b.x + c.x
    } else if axis == 1 {
        a.y + b.y + c.y
    } else {
        a.z + b.z + c.z
    }
}

/// `tris` is in ascending centroid order along `axis`.
pub open spec fn sorted_on_axis(pos: Seq<Vector3>, idx: Seq<u32>, tris: Seq<usize>, axis: u8) -> bool {
    forall|i: int, j: int|
        0 <= i < j < tris.len() ==> #[trigger] centroid_key(pos, idx, tris[i] as int, axis)
            <= #[trigger] centroid_key(pos, idx, tris[j] as int, axis)
}

pub proof fn lemma_same_elements_readable(
    pos: Seq<Vector3>,
    idx: Seq<u32>,
    a: Seq<usize>,
    b: Seq<usize>,
)
    requires
        all_readable(pos, idx, a),
        b.to_multiset() == a.to_multiset(),
    ensures
        all_readable(pos, idx, b),
{
    assert forall|j: int| 0 <= j < b.len() implies #[trigger] tri_readable(pos, idx, b[j] as int) by {
        assert(b.contains(b[j]));
        assert(b.to_multiset().count(b[j]) > 0);
        assert(a.contains(b[j]));
        let k = choose|k: int| 0 <= k < a.len() && a[k] == b[j];
        assert(tri_readable(pos, idx, a[k] as int));
    }
}

pub proof fn lemma_subrange_readable(
    pos: Seq<Vector3>,
    idx: Seq<u32>,
    a: Seq<usize>,
    lo: int,
    hi: int,
)
    requires
        all_readable(pos, idx, a),
        0 <= lo <= hi <= a.len(),
    ensures
        all_readable(pos, idx, a.subrange(lo, hi)),
{
    assert forall|j: int| 0 <= j < hi - lo implies #[trigger] tri_readable(
        pos,
        idx,
        a.subrange(lo, hi)[j] as int,
    ) by {
        assert(a.subrange(lo, hi)[j] == a[lo + j]);
        assert(tri_readable(pos, idx, a[lo + j] as int));
    }
}

/// Three times the centroid of triangle `t` along `axis`.
pub fn compute_centroid_key(pos: &[Vector3], idx: &[u32], t: usize, axis: u8) -> (k: i64)
    requires
        tri_readable(pos@, idx@, t as int),
    ensures
        k == centroid_key(pos@, idx@, t as int, axis),
{
    let n = idx.len();
    assert(3 * t + 2 < n);
    let a = pos[idx[t * 3] as usize];
    let b = pos[idx[t * 3 + 1] as usize];
    let c = pos[idx[t * 3 + 2] as usize];
    if axis == 0 {
        a.x as i64 + b.x as i64 + c.x as i64
    } else if axis == 1 {
        a.y as i64 + b.y as i64 + c.y as i64
    } else {
        a.z as i64 + b.z as i64 + c.z as i64
    }
}

/// Merges two runs that are each in centroid order into one.
fn merge_runs(pos: &[Vector3], idx: &[u32], left: Vec<usize>, right: Vec<usize>, axis: u8) -> (out:
    Vec<usize>)
    requires
        all_readable(pos@, idx@, left@),
        all_readable(pos@, idx@, right@),
        sorted_on_axis(pos@, idx@, left@, axis),
        sorted_on_axis(pos@, idx@, right@, axis),
    ensures
        out@.to_multiset() == left@.to_multiset().add(right@.to_multiset()),
        sorted_on_axis(pos@, idx@, out@, axis),
{
    let mut out: Vec<usize> = Vec::new();
    let mut i: usize = 0;
    let mut j: usize = 0;
    assert(left@.subrange(0, 0) =~= Seq::<usize>::empty());
    assert(right@.subrange(0, 0) =~= Seq::<usize>::empty());
    while i < left.len() || j < right.len()
        invariant
            0 <= i <= left.len(),
            0 <= j <= right.len(),
            all_readable(pos@, idx@, left@),
            all_readable(pos@, idx@, right@),
            sorted_on_axis(pos@, idx@, left@, axis),
            sorted_on_axis(pos@, idx@, right@, axis),
            out@.to_multiset() == left@.subrange(0, i as int).to_multiset().add(
                right@.subrange(0, j as int).to_multiset(),
            ),
            out.len() == i + j,
            sorted_on_axis(pos@, idx@, out@, axis),
            forall|k: int|
                0 <= k < out.len() ==> forall|m: int|
                    i <= m < left.len() ==> #[trigger] centroid_key(pos@, idx@, out@[k] as int, axis)
                        <= #[trigger] centroid_key(pos@, idx@, left@[m] as int, axis),
            forall|k: int|
                0 <= k < out.len() ==> forall|m: int|
                    j <= m < right.len() ==> #[trigger] centroid_key(pos@, idx@, out@[k] as int, axis)
                        <= #[trigger] centroid_key(pos@, idx@, right@[m] as int, axis),
        decreases left.len() + right.len() - i - j,
    {
        let take_left = if i < left.len() && j < right.len() {
            assert(tri_readable(pos@, idx@, left@[i as int] as int));
            assert(tri_readable(pos@, idx@, right@[j as int] as int));
            compute_centroid_key(pos, idx, left[i], axis) <= compute_centroid_key(
                pos,
                idx,
                right[j],
                axis,
            )
        } else {
            i < left.len()
        };
        let ghost old_out = out@;
        if take_left {
            let x = left[i];
            out.push(x);
            proof {
                assert(left@.subrange(0, i + 1) =~= left@.subrange(0, i as int).push(x));
                assert forall|a: int, b: int|
                    0 <= a < b < out@.len() implies #[trigger] centroid_key(
                        pos@,
                        idx@,
                        out@[a] as int,
                        axis,
                    ) <= #[trigger] centroid_key(pos@, idx@, out@[b] as int, axis) by {
                    if b == out@.len() - 1 {
                        assert(out@[a] == old_out[a]);
                        assert(centroid_key(pos@, idx@, old_out[a] as int, axis) <= centroid_key(
                            pos@,
                            idx@,
                            left@[i as int] as int,
                            axis,
                        ));
                    }
                }
                assert forall|k: int|
                    0 <= k < out.len() implies forall|m: int|
                        i + 1 <= m < left.len() ==> #[trigger] centroid_key(
                            pos@,
                            idx@,
                            out@[k] as int,
                            axis,
                        ) <= #[trigger] centroid_key(pos@, idx@, left@[m] as int, axis) by {
                    assert forall|m: int| i + 1 <= m < left.len() implies #[trigger] centroid_key(
                        pos@,
                        idx@,
                        out@[k] as int,
                        axis,
                    ) <= #[trigger] centroid_key(pos@, idx@, left@[m] as int, axis) by {
                        if k == out.len() - 1 {
                            assert(centroid_key(pos@, idx@, left@[i as int] as int, axis)
                                <= centroid_key(pos@, idx@, left@[m] as int, axis));
                        } else {
                            assert(out@[k] == old_out[k]);
                        }
                    }
                }
                assert forall|k: int|
                    0 <= k < out.len() implies forall|m: int|
                        j <= m < right.len() ==> #[trigger] centroid_key(
                            pos@,
                            idx@,
                            out@[k] as int,
                            axis,
                        ) <= #[trigger] centroid_key(pos@, idx@, right@[m] as int, axis) by {
                    assert forall|m: int| j <= m < right.len() implies #[trigger] centroid_key(
                        pos@,
                        idx@,
                        out@[k] as int,
                        axis,
                    ) <= #[trigger] centroid_key(pos@, idx@, right@[m] as int, axis) by {
                        if k == out.len() - 1 {
                            assert(centroid_key(pos@, idx@, right@[j as int] as int, axis)
                                <= centroid_key(pos@, idx@, right@[m] as int, axis));
                        } else {
                            assert(out@[k] == old_out[k]);
                        }
                    }
                }
            }
            i = i + 1;
        } else {
            let x = right[j];
            out.push(x);
            proof {
                assert(right@.subrange(0, j + 1) =~= right@.subrange(0, j as int).push(x));
                assert forall|a: int, b: int|
                    0 <= a < b < out@.len() implies #[trigger] centroid_key(
                        pos@,
                        idx@,
                        out@[a] as int,
                        axis,
                    ) <= #[trigger] centroid_key(pos@, idx@, out@[b] as int, axis) by {
                    if b == out@.len() - 1 {
                        assert(out@[a] == old_out[a]);
                        assert(centroid_key(pos@, idx@, old_out[a] as int, axis) <= centroid_key(
                            pos@,
                            idx@,
                            right@[j as int] as int,
                            axis,
                        ));
                    }
                }
                assert forall|k: int|
                    0 <= k < out.len() implies forall|m: int|
                        i <= m < left.len() ==> #[trigger] centroid_key(
                            pos@,
                            idx@,
                            out@[k] as int,
                            axis,
                        ) <= #[trigger] centroid_key(pos@, idx@, left@[m] as int, axis) by {
                    assert forall|m: int| i <= m < left.len() implies #[trigger] centroid_key(
                        pos@,
                        idx@,
                        out@[k] as int,
                        axis,
                    ) <= #[trigger] centroid_key(pos@, idx@, left@[m] as int, axis) by {
                        if k == out.len() - 1 {
                            assert(centroid_key(pos@, idx@, left@[i as int] as int, axis)
                                <= centroid_key(pos@, idx@, left@[m] as int, axis));
                        } else {
                            assert(out@[k] == old_out[k]);
                        }
                    }
                }
                assert forall|k: int|
                    0 <= k < out.len() implies forall|m: int|
                        j + 1 <= m < right.len() ==> #[trigger] centroid_key(
                            pos@,
                            idx@,
                            out@[k] as int,
                            axis,
                        ) <= #[trigger] centroid_key(pos@, idx@, right@[m] as int, axis) by {
                    assert forall|m: int| j + 1 <= m < right.len() implies #[trigger] centroid_key(
                        pos@,
                        idx@,
                        out@[k] as int,
                        axis,
                    ) <= #[trigger] centroid_key(pos@, idx@, right@[m] as int, axis) by {
                        if k == out.len() - 1 {
                            assert(centroid_key(pos@, idx@, right@[j as int] as int, axis)
                                <= centroid_key(pos@, idx@, right@[m] as int, axis));
                        } else {
                            assert(out@[k] == old_out[k]);
                        }
                    }
                }
            }
            j = j + 1;
        }
    }
    assert(left@.subrange(0, left.len() as int) =~= left@);
    assert(right@.subrange(0, right.len() as int) =~= right@);
    out
}

/// Copies `v[lo..hi]` into a vector of its own.
pub fn copy_range(v: &Vec<usize>, lo: usize, hi: usize) -> (out: Vec<usize>)
    requires
        lo <= hi <= v.len(),
    ensures
        out@ == v@.subrange(lo as int, hi as int),
{
    let mut out: Vec<usize> = Vec::new();
    let mut k = lo;
    while k < hi
        invariant
            lo <= k <= hi <= v.len(),
            out@ == v@.subrange(lo as int, k as int),
        decreases hi - k,
    {
        out.push(v[k]);
        assert(v@.subrange(lo as int, k + 1) =~= v@.subrange(lo as int, k as int).push(v@[k as int]));
        k = k + 1;
    }
    out
}

/// Orders `tris` by centroid along `axis` (a merge sort).
pub fn sort_by_centroid(pos: &[Vector3], idx: &[u32], tris: Vec<usize>, axis: u8) -> (out: Vec<
    usize,
>)
    requires
        all_readable(pos@, idx@, tris@),
    ensures
        out@.to_multiset() == tris@.to_multiset(),
        out.len() == tris.len(),
        sorted_on_axis(pos@, idx@, out@, axis),
        all_readable(pos@, idx@, out@),
    decreases tris.len(),
{
    if tris.len() <= 1 {
        return tris;
    }
    let mid = tris.len() / 2;
    let left = copy_range(&tris, 0, mid);
    let right = copy_range(&tris, mid, tris.len());
    proof {
        lemma_subrange_readable(pos@, idx@, tris@, 0, mid as int);
        lemma_subrange_readable(pos@, idx@, tris@, mid as int, tris.len() as int);
        assert(tris@ =~= left@ + right@);
        vstd::seq_lib::lemma_multiset_commutative(left@, right@);
    }
    let sl = sort_by_centroid(pos, idx, left, axis);
    let sr = sort_by_centroid(pos, idx, right, axis);
    let out = merge_runs(pos, idx, sl, sr, axis);
    proof {
        lemma_same_elements_readable(pos@, idx@, tris@, out@);
        assert(out@.len() == out@.to_multiset().len());
        assert(tris@.len() == tris@.to_multiset().len());
    }
    out
}

} // verus!
