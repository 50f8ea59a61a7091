//! Laws of the group boxes and of the culling bookkeeping.
use vstd::prelude::*;
use crate::culling::{
    count_false, group_box, group_box_holds, indexed_box, points_box,
};

verus! {

/// The box of a point list holds every point of the list.
pub proof fn lemma_points_box_holds(ps: Seq<[i32; 3]>, k: int, j: int)
    requires
        0 <= j < k <= ps.len(),
    ensures
        points_box(ps, k) is Some,
        group_box_holds(points_box(ps, k)->0, ps[j]),
    decreases k,
{
    if k > 1 {
        lemma_points_box_some(ps, k - 1);
        if j < k - 1 {
            lemma_points_box_holds(ps, k - 1, j);
        }
    }
}

proof fn lemma_points_box_some(ps: Seq<[i32; 3]>, k: int)
    requires
        1 <= k,
    ensures
        points_box(ps, k) is Some,
    decreases k,
{
    if k > 1 {
        lemma_points_box_some(ps, k - 1);
    }
}

proof fn lemma_indexed_box_holds(pos: Seq<[i32; 3]>, idx: Seq<u32>, start: int, i: int, j: int)
    requires
        start <= j < i,
        idx[j] < pos.len(),
    ensures
        indexed_box(pos, idx, start, i) is Some,
        group_box_holds(indexed_box(pos, idx, start, i)->0, pos[idx[j] as int]),
    decreases i - start,
{
    if j < i - 1 {
        lemma_indexed_box_holds(pos, idx, start, i - 1, j);
    }
}

/// The box of a draw group holds every vertex that one of the group's index
/// slots names.
pub proof fn lemma_group_box_holds_vertices(pos: Seq<[i32; 3]>, idx: Seq<u32>, g: (u32, u32), j: int)
    requires
        g.0 <= j < g.0 + g.1,
        j < idx.len(),
        idx[j] < pos.len(),
    ensures
        group_box_holds(group_box(pos, idx, g), pos[idx[j] as int]),
{
    let end = if g.0 + g.1 <= idx.len() {
        g.0 + g.1
    } else {
        idx.len() as int
    };
    lemma_indexed_box_holds(pos, idx, g.0 as int, end, j);
}

/// A culling pass never counts more visible groups than it looked at.
pub proof fn lemma_visible_count_bounded(flags: Seq<bool>, k: int)
    requires
        0 <= k,
    ensures
        0 <= count_false(flags, k) <= k,
    decreases k,
{
    if k > 0 {
        lemma_visible_count_bounded(flags, k - 1);
    }
}

} // verus!
