//! Laws of the bounding volume hierarchy: what a query reports.
use vstd::prelude::*;
use crate::bvh::{collect, node_ok, span_hi, span_lo, traversable, upto, Bvh, Node};
use crate::geometry::{box_within, boxes_overlap, tri_box, tri_readable, Vector3, AABB};
use crate::geometry_laws::{lemma_overlap_grows, lemma_within_transitive};

verus! {

broadcast use vstd::seq_lib::group_to_multiset_ensures;

/// Every node's box holds the boxes of the triangles in its subtree's slots.
proof fn lemma_subtree_boxes(bvh: &Bvh, pos: Seq<Vector3>, idx: Seq<u32>, i: int, j: int)
    requires
        bvh.wf(pos, idx),
        0 <= i < bvh.nodes@.len(),
        span_lo(bvh.nodes@, i) <= j < span_hi(bvh.nodes@, i),
    ensures
        0 <= j < bvh.tri_indices@.len(),
        tri_readable(pos, idx, bvh.tri_indices@[j] as int),
        box_within(tri_box(pos, idx, bvh.tri_indices@[j] as int), bvh.nodes@[i].aabb),
    decreases bvh.nodes@.len() - i,
{
    let nodes = bvh.nodes@;
    let tris = bvh.tri_indices@;
    assert(node_ok(nodes, tris, pos, idx, i));
    let n = nodes[i];
    if n.count > 0 {
        assert(tri_readable(pos, idx, tris[j] as int));
    } else {
        let l = n.left->0 as int;
        let r = n.right->0 as int;
        if j < span_hi(nodes, l) {
            lemma_subtree_boxes(bvh, pos, idx, l, j);
            lemma_within_transitive(tri_box(pos, idx, tris[j] as int), nodes[l].aabb, n.aabb);
        } else {
            lemma_subtree_boxes(bvh, pos, idx, r, j);
            lemma_within_transitive(tri_box(pos, idx, tris[j] as int), nodes[r].aabb, n.aabb);
        }
    }
}

proof fn lemma_subtree_reports(bvh: &Bvh, pos: Seq<Vector3>, idx: Seq<u32>, q: AABB, i: int, j: int)
    requires
        bvh.wf(pos, idx),
        0 <= i < bvh.nodes@.len(),
        span_lo(bvh.nodes@, i) <= j < span_hi(bvh.nodes@, i),
        boxes_overlap(tri_box(pos, idx, bvh.tri_indices@[j] as int), q),
    ensures
        collect(bvh.nodes@, bvh.tri_indices@, i, q).contains(bvh.tri_indices@[j]),
    decreases bvh.nodes@.len() - i,
{
    let nodes = bvh.nodes@;
    let tris = bvh.tri_indices@;
    assert(node_ok(nodes, tris, pos, idx, i));
    lemma_subtree_boxes(bvh, pos, idx, i, j);
    lemma_overlap_grows(tri_box(pos, idx, tris[j] as int), nodes[i].aabb, q);
    let n = nodes[i];
    if n.count > 0 {
        let s = tris.subrange(n.start as int, n.start + n.count);
        assert(s[j - n.start] == tris[j]);
    } else {
        let l = n.left->0 as int;
        let r = n.right->0 as int;
        let ls = collect(nodes, tris, l, q);
        let rs = collect(nodes, tris, r, q);
        assert(collect(nodes, tris, i, q) == ls + rs);
        if j < span_hi(nodes, l) {
            lemma_subtree_reports(bvh, pos, idx, q, l, j);
            let k = choose|k: int| 0 <= k < ls.len() && ls[k] == tris[j];
            assert((ls + rs)[k] == tris[j]);
        } else {
            lemma_subtree_reports(bvh, pos, idx, q, r, j);
            let k = choose|k: int| 0 <= k < rs.len() && rs[k] == tris[j];
            assert((ls + rs)[ls.len() + k] == tris[j]);
        }
    }
}

/// A query reports every stored triangle whose box overlaps the query box.
pub proof fn lemma_query_reports_overlapping(
    bvh: &Bvh,
    pos: Seq<Vector3>,
    idx: Seq<u32>,
    q: AABB,
    j: int,
)
    requires
        bvh.wf(pos, idx),
        0 <= j < bvh.tri_indices@.len(),
        boxes_overlap(tri_box(pos, idx, bvh.tri_indices@[j] as int), q),
    ensures
        bvh.query_result(q).contains(bvh.tri_indices@[j]),
{
    lemma_subtree_reports(bvh, pos, idx, q, 0, j);
}

/// For a tree built over the triangles `0 .. n` of a mesh (what `Bvh::new`
/// ensures), a query reports every triangle whose box overlaps the query box.
pub proof fn lemma_built_tree_reports_triangle(
    bvh: &Bvh,
    pos: Seq<Vector3>,
    idx: Seq<u32>,
    q: AABB,
    t: usize,
)
    requires
        bvh.wf(pos, idx),
        bvh.tri_indices@.to_multiset() == upto((idx.len() / 3) as int).to_multiset(),
        t < idx.len() / 3,
        boxes_overlap(tri_box(pos, idx, t as int), q),
    ensures
        bvh.query_result(q).contains(t),
{
    let all = upto((idx.len() / 3) as int);
    assert(all[t as int] == t);
    assert(all.contains(t));
    assert(all.to_multiset().count(t) > 0);
    assert(bvh.tri_indices@.contains(t));
    let j = choose|j: int| 0 <= j < bvh.tri_indices@.len() && bvh.tri_indices@[j] == t;
    lemma_query_reports_overlapping(bvh, pos, idx, q, j);
}

proof fn lemma_collect_from_slots(nodes: Seq<Node>, tris: Seq<usize>, i: int, q: AABB, x: usize)
    requires
        traversable(nodes, tris),
        collect(nodes, tris, i, q).contains(x),
    ensures
        tris.contains(x),
    decreases nodes.len() - i,
{
    let n = nodes[i];
    if n.count > 0 {
        let s = tris.subrange(n.start as int, n.start + n.count);
        let k = choose|k: int| 0 <= k < s.len() && s[k] == x;
        assert(tris[n.start + k] == x);
    } else {
        let ls = match n.left {
            Some(l) => if i < l < nodes.len() {
                collect(nodes, tris, l as int, q)
            } else {
                Seq::empty()
            },
            None => Seq::empty(),
        };
        let rs = match n.right {
            Some(r) => if i < r < nodes.len() {
                collect(nodes, tris, r as int, q)
            } else {
                Seq::empty()
            },
            None => Seq::empty(),
        };
        assert(collect(nodes, tris, i, q) == ls + rs);
        let k = choose|k: int| 0 <= k < (ls + rs).len() && (ls + rs)[k] == x;
        if k < ls.len() {
            assert(ls[k] == x);
            lemma_collect_from_slots(nodes, tris, n.left->0 as int, q, x);
        } else {
            assert(rs[k - ls.len()] == x);
            lemma_collect_from_slots(nodes, tris, n.right->0 as int, q, x);
        }
    }
}

/// A query reports only triangles stored in the tree; for a tree built over
/// the triangles `0 .. n` of a mesh, only triangle numbers below `n`.
pub proof fn lemma_query_reports_stored(bvh: &Bvh, pos: Seq<Vector3>, idx: Seq<u32>, q: AABB, x: usize)
    requires
        traversable(bvh.nodes@, bvh.tri_indices@),
        bvh.query_result(q).contains(x),
    ensures
        bvh.tri_indices@.contains(x),
        bvh.tri_indices@.to_multiset() == upto((idx.len() / 3) as int).to_multiset() ==> x < idx.len()
            / 3,
{
    lemma_collect_from_slots(bvh.nodes@, bvh.tri_indices@, 0, q, x);
    if bvh.tri_indices@.to_multiset() == upto((idx.len() / 3) as int).to_multiset() {
        let all = upto((idx.len() / 3) as int);
        assert(bvh.tri_indices@.to_multiset().count(x) > 0);
        assert(all.contains(x));
    }
}

/// Every subtree covers a non-empty run of slots inside the slot list.
proof fn lemma_span_bounds(bvh: &Bvh, pos: Seq<Vector3>, idx: Seq<u32>, i: int)
    requires
        bvh.wf(pos, idx),
        0 <= i < bvh.nodes@.len(),
    ensures
        0 <= span_lo(bvh.nodes@, i) < span_hi(bvh.nodes@, i) <= bvh.tri_indices@.len(),
    decreases bvh.nodes@.len() - i,
{
    let nodes = bvh.nodes@;
    assert(node_ok(nodes, bvh.tri_indices@, pos, idx, i));
    if nodes[i].count == 0 {
        lemma_span_bounds(bvh, pos, idx, nodes[i].left->0 as int);
        lemma_span_bounds(bvh, pos, idx, nodes[i].right->0 as int);
    }
}

/// `x` is held by one of the slots `lo .. hi`.
spec fn in_slots(tris: Seq<usize>, lo: int, hi: int, x: usize) -> bool {
    exists|j: int| lo <= j < hi && tris[j] == x
}

/// What the subtree at `i` reports comes from its own slots, and, when the
/// slots hold no triangle twice, holds none twice.
proof fn lemma_collect_distinct(bvh: &Bvh, pos: Seq<Vector3>, idx: Seq<u32>, q: AABB, i: int)
    requires
        bvh.wf(pos, idx),
        bvh.tri_indices@.no_duplicates(),
        0 <= i < bvh.nodes@.len(),
    ensures
        collect(bvh.nodes@, bvh.tri_indices@, i, q).no_duplicates(),
        forall|k: int|
            0 <= k < collect(bvh.nodes@, bvh.tri_indices@, i, q).len() ==> in_slots(
                bvh.tri_indices@,
                span_lo(bvh.nodes@, i),
                span_hi(bvh.nodes@, i),
                #[trigger] collect(bvh.nodes@, bvh.tri_indices@, i, q)[k],
            ),
    decreases bvh.nodes@.len() - i,
{
    let nodes = bvh.nodes@;
    let tris = bvh.tri_indices@;
    assert(node_ok(nodes, tris, pos, idx, i));
    lemma_span_bounds(bvh, pos, idx, i);
    let n = nodes[i];
    let c = collect(nodes, tris, i, q);
    if !boxes_overlap(n.aabb, q) {
        assert(c.len() == 0);
    } else if n.count > 0 {
        assert(span_lo(nodes, i) == n.start);
        assert(span_hi(nodes, i) == n.start + n.count);
        assert forall|k: int| 0 <= k < c.len() implies in_slots(
            tris,
            span_lo(nodes, i),
            span_hi(nodes, i),
            #[trigger] c[k],
        ) by {
            assert(tris[n.start + k] == c[k]);
        }
        assert forall|a: int, b: int| 0 <= a < c.len() && 0 <= b < c.len() && a != b implies c[a]
            != c[b] by {
            assert(c[a] == tris[n.start + a]);
            assert(c[b] == tris[n.start + b]);
        }
    } else {
        let l = n.left->0 as int;
        let r = n.right->0 as int;
        let ls = collect(nodes, tris, l, q);
        let rs = collect(nodes, tris, r, q);
        assert(c == ls + rs);
        assert(span_lo(nodes, i) == span_lo(nodes, l));
        assert(span_hi(nodes, i) == span_hi(nodes, r));
        lemma_collect_distinct(bvh, pos, idx, q, l);
        lemma_collect_distinct(bvh, pos, idx, q, r);
        lemma_span_bounds(bvh, pos, idx, l);
        lemma_span_bounds(bvh, pos, idx, r);
        assert forall|a: int, b: int| 0 <= a < ls.len() && 0 <= b < rs.len() implies ls[a] != rs[b] by {
            assert(in_slots(tris, span_lo(nodes, l), span_hi(nodes, l), ls[a]));
            assert(in_slots(tris, span_lo(nodes, r), span_hi(nodes, r), rs[b]));
            let ja = choose|j: int| span_lo(nodes, l) <= j < span_hi(nodes, l) && tris[j] == ls[a];
            let jb = choose|j: int| span_lo(nodes, r) <= j < span_hi(nodes, r) && tris[j] == rs[b];
            assert(ja < jb);
        }
        vstd::seq_lib::lemma_no_dup_in_concat(ls, rs);
        assert forall|k: int| 0 <= k < c.len() implies in_slots(
            tris,
            span_lo(nodes, i),
            span_hi(nodes, i),
            #[trigger] c[k],
        ) by {
            if k < ls.len() {
                assert(c[k] == ls[k]);
                assert(in_slots(tris, span_lo(nodes, l), span_hi(nodes, l), ls[k]));
                let j = choose|j: int| span_lo(nodes, l) <= j < span_hi(nodes, l) && tris[j] == ls[k];
                assert(span_lo(nodes, i) <= j < span_hi(nodes, i));
            } else {
                let k2 = k - ls.len();
                assert(c[k] == rs[k2]);
                assert(in_slots(tris, span_lo(nodes, r), span_hi(nodes, r), rs[k2]));
                let j = choose|j: int| span_lo(nodes, r) <= j < span_hi(nodes, r) && tris[j] == rs[k2];
                assert(span_lo(nodes, i) <= j < span_hi(nodes, i));
            }
        }
    }
}

/// A query reports no triangle twice, when no triangle is stored twice;
/// for a tree built over the triangles `0 .. n` of a mesh, always.
pub proof fn lemma_query_reports_once(bvh: &Bvh, pos: Seq<Vector3>, idx: Seq<u32>, q: AABB)
    requires
        bvh.wf(pos, idx),
        idx.len() <= usize::MAX,
        bvh.tri_indices@.no_duplicates() || bvh.tri_indices@.to_multiset() == upto(
            (idx.len() / 3) as int,
        ).to_multiset(),
    ensures
        bvh.query_result(q).no_duplicates(),
{
    if !bvh.tri_indices@.no_duplicates() {
        let all = upto((idx.len() / 3) as int);
        assert forall|a: int, b: int| 0 <= a < all.len() && 0 <= b < all.len() && a != b implies all[a]
            != all[b] by {
            assert(all[a] == a as usize);
            assert(all[b] == b as usize);
        }
        assert(all.no_duplicates());
        all.lemma_multiset_has_no_duplicates();
        bvh.tri_indices@.lemma_multiset_has_no_duplicates_conv();
    }
    if bvh.nodes@.len() > 0 {
        lemma_collect_distinct(bvh, pos, idx, q, 0);
    } else {
        assert(bvh.query_result(q).len() == 0);
    }
}

/// A box that holds a box with a point in it overlaps that box.
proof fn lemma_within_overlaps(inner: AABB, outer: AABB)
    requires
        box_within(inner, outer),
        inner.min.x <= inner.max.x && inner.min.y <= inner.max.y && inner.min.z <= inner.max.z,
    ensures
        boxes_overlap(inner, outer),
{
}

/// Every node's box is a real box (not inverted on any axis) and lies in
/// the box of every query box that holds the root's.
proof fn lemma_node_box_valid(bvh: &Bvh, pos: Seq<Vector3>, idx: Seq<u32>, i: int)
    requires
        bvh.wf(pos, idx),
        0 <= i < bvh.nodes@.len(),
    ensures
        bvh.nodes@[i].aabb.min.x <= bvh.nodes@[i].aabb.max.x,
        bvh.nodes@[i].aabb.min.y <= bvh.nodes@[i].aabb.max.y,
        bvh.nodes@[i].aabb.min.z <= bvh.nodes@[i].aabb.max.z,
    decreases bvh.nodes@.len() - i,
{
    let nodes = bvh.nodes@;
    let tris = bvh.tri_indices@;
    assert(node_ok(nodes, tris, pos, idx, i));
    let n = nodes[i];
    if n.count > 0 {
        let t = tris[n.start as int] as int;
        assert(tri_readable(pos, idx, t));
        lemma_tri_box_valid(pos, idx, t);
    } else {
        lemma_node_box_valid(bvh, pos, idx, n.left->0 as int);
    }
}

proof fn lemma_tri_box_valid(pos: Seq<Vector3>, idx: Seq<u32>, t: int)
    ensures
        tri_box(pos, idx, t).min.x <= tri_box(pos, idx, t).max.x,
        tri_box(pos, idx, t).min.y <= tri_box(pos, idx, t).max.y,
        tri_box(pos, idx, t).min.z <= tri_box(pos, idx, t).max.z,
{
}

/// Every node of the subtree at `i` has a box inside the box of node `i`.
proof fn lemma_descendant_within(bvh: &Bvh, pos: Seq<Vector3>, idx: Seq<u32>, i: int, q: AABB)
    requires
        bvh.wf(pos, idx),
        0 <= i < bvh.nodes@.len(),
        box_within(bvh.nodes@[i].aabb, q),
    ensures
        collect(bvh.nodes@, bvh.tri_indices@, i, q) == bvh.tri_indices@.subrange(
            span_lo(bvh.nodes@, i),
            span_hi(bvh.nodes@, i),
        ),
    decreases bvh.nodes@.len() - i,
{
    let nodes = bvh.nodes@;
    let tris = bvh.tri_indices@;
    assert(node_ok(nodes, tris, pos, idx, i));
    lemma_node_box_valid(bvh, pos, idx, i);
    lemma_within_overlaps(nodes[i].aabb, q);
    lemma_span_bounds(bvh, pos, idx, i);
    let n = nodes[i];
    if n.count == 0 {
        let l = n.left->0 as int;
        let r = n.right->0 as int;
        lemma_within_transitive(nodes[l].aabb, n.aabb, q);
        lemma_within_transitive(nodes[r].aabb, n.aabb, q);
        lemma_descendant_within(bvh, pos, idx, l, q);
        lemma_descendant_within(bvh, pos, idx, r, q);
        lemma_span_bounds(bvh, pos, idx, l);
        lemma_span_bounds(bvh, pos, idx, r);
        assert(tris.subrange(span_lo(nodes, i), span_hi(nodes, i)) =~= tris.subrange(
            span_lo(nodes, l),
            span_hi(nodes, l),
        ) + tris.subrange(span_lo(nodes, r), span_hi(nodes, r)));
    }
}

/// A query box that holds the root's box reports every stored triangle, in
/// storage order.
pub proof fn lemma_query_covering_root(bvh: &Bvh, pos: Seq<Vector3>, idx: Seq<u32>, q: AABB)
    requires
        bvh.wf(pos, idx),
        bvh.nodes@.len() > 0,
        box_within(bvh.nodes@[0].aabb, q),
    ensures
        bvh.query_result(q) == bvh.tri_indices@,
{
    lemma_descendant_within(bvh, pos, idx, 0, q);
    assert(bvh.tri_indices@.subrange(0, bvh.tri_indices@.len() as int) =~= bvh.tri_indices@);
}

} // verus!
