//! Bounding volume hierarchy over the triangles of an indexed mesh.
//!
//! The tree is built top-down: each node's box is the hull of its triangles'
//! boxes; a node with more than eight triangles sorts them by centroid along
//! the longest axis of its box and splits them at the median.
use vstd::prelude::*;
use crate::bvh_sort::{
    all_readable, centroid_key, lemma_subrange_readable, sort_by_centroid, sorted_on_axis,
    copy_range,
};
use crate::geometry::{
    box_within, boxes_overlap, merged, tri_box, tri_readable, Vector3, AABB,
};

verus! {

broadcast use vstd::seq_lib::group_to_multiset_ensures;

/// A node of the linearized tree.
#[derive(Clone, Copy, Debug)]
pub struct Node {
    pub aabb: AABB,
    /// First slot of the node's triangles in `Bvh::tri_indices` (leaves only).
    pub start: usize,
    /// Number of triangles of a leaf; 0 for an inner node.
    pub count: usize,
    pub left: Option<usize>,
    pub right: Option<usize>,
}

/// The tree: its nodes (root first) and the triangle numbers of all leaves,
/// each leaf owning a contiguous run of `tri_indices`.
#[derive(Clone)]
pub struct Bvh {
    pub nodes: Vec<Node>,
    pub tri_indices: Vec<usize>,
}

/// The hull of the boxes of the triangles in `tris` (merged left to right).
pub open spec fn hull(pos: Seq<Vector3>, idx: Seq<u32>, tris: Seq<usize>) -> AABB
    decreases tris.len(),
{
    if tris.len() <= 1 {
        tri_box(pos, idx, tris[0] as int)
    } else {
        merged(hull(pos, idx, tris.drop_last()), tri_box(pos, idx, tris.last() as int))
    }
}

/// The first triangle slot covered by the subtree at node `i`.
pub open spec fn span_lo(nodes: Seq<Node>, i: int) -> int
    decreases nodes.len() - i,
{
    if 0 <= i < nodes.len() {
        if nodes[i].count > 0 {
            nodes[i].start as int
        } else {
            match nodes[i].left {
                Some(l) => if i < l < nodes.len() {
                    span_lo(nodes, l as int)
                } else {
                    0
                },
                None => 0,
            }
        }
    } else {
        0
    }
}

/// One past the last triangle slot covered by the subtree at node `i`.
pub open spec fn span_hi(nodes: Seq<Node>, i: int) -> int
    decreases nodes.len() - i,
{
    if 0 <= i < nodes.len() {
        if nodes[i].count > 0 {
            nodes[i].start + nodes[i].count
        } else {
            match nodes[i].right {
                Some(r) => if i < r < nodes.len() {
                    span_hi(nodes, r as int)
                } else {
                    0
                },
                None => 0,
            }
        }
    } else {
        0
    }
}

/// Node `i` is a well-formed leaf or inner node: a leaf holds one to eight
/// readable triangles whose boxes its box holds; an inner node has two
/// children after it whose boxes its box holds, the left subtree's slots
/// followed directly by the right subtree's.
pub open spec fn node_ok(
    nodes: Seq<Node>,
    tris: Seq<usize>,
    pos: Seq<Vector3>,
    idx: Seq<u32>,
    i: int,
) -> bool {
    let n = nodes[i];
    if n.count > 0 {
        &&& n.count <= 8
        &&& n.start + n.count <= tris.len()
        &&& n.left is None
        &&& n.right is None
        &&& forall|j: int|
            n.start <= j < n.start + n.count ==> tri_readable(pos, idx, #[trigger] tris[j] as int)
                && box_within(tri_box(pos, idx, tris[j] as int), n.aabb)
    } else {
        &&& n.left is Some
        &&& n.right is Some
        &&& i < n.left->0 < nodes.len()
        &&& i < n.right->0 < nodes.len()
        &&& box_within(nodes[n.left->0 as int].aabb, n.aabb)
        &&& box_within(nodes[n.right->0 as int].aabb, n.aabb)
        &&& span_hi(nodes, n.left->0 as int) == span_lo(nodes, n.right->0 as int)
    }
}

/// Inner nodes in `[lo, hi)` have both children, after them and before `hi`.
pub open spec fn links_inside(nodes: Seq<Node>, lo: int, hi: int) -> bool {
    forall|i: int|
        lo <= i < hi && #[trigger] nodes[i].count == 0 ==> {
            &&& nodes[i].left is Some
            &&& nodes[i].right is Some
            &&& i < nodes[i].left->0 < hi
            &&& i < nodes[i].right->0 < hi
        }
}

/// Indices of nodes and triangle slots stay in range, and children come
/// after their parent: what a traversal needs.
pub open spec fn traversable(nodes: Seq<Node>, tris: Seq<usize>) -> bool {
    forall|i: int|
        0 <= i < nodes.len() ==> {
            &&& (#[trigger] nodes[i].count > 0 ==> nodes[i].start + nodes[i].count <= tris.len())
            &&& (nodes[i].left matches Some(l) ==> i < l < nodes.len())
            &&& (nodes[i].right matches Some(r) ==> i < r < nodes.len())
        }
}

/// The triangle numbers that a query with box `q` reports from the subtree
/// at node `i`, in visiting order: nothing when the node's box misses `q`,
/// a leaf's triangles, or the left subtree's report then the right one's.
pub open spec fn collect(nodes: Seq<Node>, tris: Seq<usize>, i: int, q: AABB) -> Seq<usize>
    decreases nodes.len() - i,
{
    if 0 <= i < nodes.len() {
        let n = nodes[i];
        if !boxes_overlap(n.aabb, q) {
            Seq::empty()
        } else if n.count > 0 {
            tris.subrange(n.start as int, n.start + n.count)
        } else {
            let ls = match n.left {
                Some(l) => if i < l < nodes.len() {
                    collect(nodes, tris, l as int, q)
                } else {
                    Seq::empty()
                },
                None => Seq::empty(),
            };
            let rs = match n.right {
                Some(r) => if i < r < nodes.len() {
                    collect(nodes, tris, r as int, q)
                } else {
                    Seq::empty()
                },
                None => Seq::empty(),
            };
            ls + rs
        }
    } else {
        Seq::empty()
    }
}

/// The numbers `0, 1, ..., n - 1`.
pub open spec fn upto(n: int) -> Seq<usize> {
    Seq::new(n as nat, |i: int| i as usize)
}

impl Bvh {
    /// The tree is well formed for the mesh (`pos`, `idx`): every node is,
    /// and the root's subtree covers exactly all triangle slots.
    pub open spec fn wf(&self, pos: Seq<Vector3>, idx: Seq<u32>) -> bool {
        &&& forall|i: int|
            0 <= i < self.nodes@.len() ==> #[trigger] node_ok(
                self.nodes@,
                self.tri_indices@,
                pos,
                idx,
                i,
            )
        &&& self.nodes@.len() == 0 ==> self.tri_indices@.len() == 0
        &&& self.nodes@.len() > 0 ==> span_lo(self.nodes@, 0) == 0 && span_hi(self.nodes@, 0)
            == self.tri_indices@.len()
    }

    /// What `query_aabb` appends for box `q`.
    pub open spec fn query_result(&self, q: AABB) -> Seq<usize> {
        collect(self.nodes@, self.tri_indices@, 0, q)
    }
}

// ----- hull -----

pub proof fn lemma_hull_holds(pos: Seq<Vector3>, idx: Seq<u32>, tris: Seq<usize>, j: int)
    requires
        0 <= j < tris.len(),
    ensures
        box_within(tri_box(pos, idx, tris[j] as int), hull(pos, idx, tris)),
    decreases tris.len(),
{
    if tris.len() > 1 {
        if j < tris.len() - 1 {
            lemma_hull_holds(pos, idx, tris.drop_last(), j);
        }
    }
}

pub proof fn lemma_hull_least(pos: Seq<Vector3>, idx: Seq<u32>, tris: Seq<usize>, c: AABB)
    requires
        tris.len() >= 1,
        forall|j: int|
            0 <= j < tris.len() ==> box_within(tri_box(pos, idx, #[trigger] tris[j] as int), c),
    ensures
        box_within(hull(pos, idx, tris), c),
    decreases tris.len(),
{
    if tris.len() > 1 {
        let d = tris.drop_last();
        assert forall|j: int| 0 <= j < d.len() implies box_within(
            tri_box(pos, idx, #[trigger] d[j] as int),
            c,
        ) by {
            assert(d[j] == tris[j]);
        }
        lemma_hull_least(pos, idx, d, c);
        assert(box_within(tri_box(pos, idx, tris[tris.len() - 1] as int), c));
    }
}

/// The hull of a run of triangles is held by the hull of any run that
/// holds each of its triangles.
proof fn lemma_hull_of_part(pos: Seq<Vector3>, idx: Seq<u32>, part: Seq<usize>, whole: Seq<usize>)
    requires
        part.len() >= 1,
        whole.len() >= 1,
        forall|j: int| 0 <= j < part.len() ==> whole.contains(#[trigger] part[j]),
    ensures
        box_within(hull(pos, idx, part), hull(pos, idx, whole)),
{
    assert forall|j: int| 0 <= j < part.len() implies box_within(
        tri_box(pos, idx, #[trigger] part[j] as int),
        hull(pos, idx, whole),
    ) by {
        assert(whole.contains(part[j]));
        let k = choose|k: int| 0 <= k < whole.len() && whole[k] == part[j];
        lemma_hull_holds(pos, idx, whole, k);
    }
    lemma_hull_least(pos, idx, part, hull(pos, idx, whole));
}

/// The hull of the triangles' boxes.
fn hull_of(pos: &[Vector3], idx: &[u32], tris: &Vec<usize>) -> (b: AABB)
    requires
        tris.len() >= 1,
        all_readable(pos@, idx@, tris@),
    ensures
        b == hull(pos@, idx@, tris@),
{
    assert(tri_readable(pos@, idx@, tris@[0] as int));
    let mut acc = AABB::compute_tri_aabb(pos, idx, tris[0]);
    let mut k: usize = 1;
    assert(tris@.subrange(0, 1).len() == 1);
    assert(tris@.subrange(0, 1)[0] == tris@[0]);
    while k < tris.len()
        invariant
            1 <= k <= tris.len(),
            all_readable(pos@, idx@, tris@),
            acc == hull(pos@, idx@, tris@.subrange(0, k as int)),
        decreases tris.len() - k,
    {
        assert(tri_readable(pos@, idx@, tris@[k as int] as int));
        let b = AABB::compute_tri_aabb(pos, idx, tris[k]);
        acc = AABB::merge_aabb(&acc, &b);
        proof {
            let s = tris@.subrange(0, k + 1);
            assert(s.drop_last() =~= tris@.subrange(0, k as int));
            assert(s.last() == tris@[k as int]);
        }
        k = k + 1;
    }
    assert(tris@.subrange(0, tris.len() as int) =~= tris@);
    acc
}

// ----- stability of the tree predicates under growth -----

/// The hull does not depend on the order of the triangles.
proof fn lemma_hull_perm(pos: Seq<Vector3>, idx: Seq<u32>, s: Seq<usize>, t: Seq<usize>)
    requires
        s.len() >= 1,
        s.to_multiset() == t.to_multiset(),
    ensures
        hull(pos, idx, s) == hull(pos, idx, t),
{
    assert(t.len() == t.to_multiset().len());
    assert(s.len() == s.to_multiset().len());
    assert forall|j: int| 0 <= j < s.len() implies t.contains(#[trigger] s[j]) by {
        assert(s.contains(s[j]));
        assert(s.to_multiset().count(s[j]) > 0);
    }
    assert forall|j: int| 0 <= j < t.len() implies s.contains(#[trigger] t[j]) by {
        assert(t.contains(t[j]));
        assert(t.to_multiset().count(t[j]) > 0);
    }
    lemma_hull_of_part(pos, idx, s, t);
    lemma_hull_of_part(pos, idx, t, s);
    let x = hull(pos, idx, s);
    let y = hull(pos, idx, t);
    assert(x.min == y.min);
    assert(x.max == y.max);
}

/// Every node in `[lo, hi)` has as its box exactly the hull of the
/// triangles in its subtree's slots.
pub open spec fn boxes_tight(
    nodes: Seq<Node>,
    tris: Seq<usize>,
    pos: Seq<Vector3>,
    idx: Seq<u32>,
    lo: int,
    hi: int,
) -> bool {
    forall|i: int|
        lo <= i < hi ==> #[trigger] nodes[i].aabb == hull(
            pos,
            idx,
            tris.subrange(span_lo(nodes, i), span_hi(nodes, i)),
        )
}

/// In a block of well-formed nodes closed under the child links, every
/// subtree covers a non-empty run of existing slots.
proof fn lemma_block_spans(
    nodes: Seq<Node>,
    tris: Seq<usize>,
    pos: Seq<Vector3>,
    idx: Seq<u32>,
    lo: int,
    hi: int,
    i: int,
)
    requires
        links_inside(nodes, lo, hi),
        0 <= lo,
        hi <= nodes.len(),
        forall|k: int| lo <= k < hi ==> #[trigger] node_ok(nodes, tris, pos, idx, k),
        lo <= i < hi,
    ensures
        0 <= span_lo(nodes, i) < span_hi(nodes, i) <= tris.len(),
    decreases hi - i,
{
    assert(node_ok(nodes, tris, pos, idx, i));
    if nodes[i].count == 0 {
        let l = nodes[i].left->0 as int;
        let r = nodes[i].right->0 as int;
        assert(i < l < hi && i < r < hi);
        assert(nodes[i].left == Some(l as usize));
        assert(nodes[i].right == Some(r as usize));
        assert(0 <= i < nodes.len());
        lemma_block_spans(nodes, tris, pos, idx, lo, hi, l);
        lemma_block_spans(nodes, tris, pos, idx, lo, hi, r);
        assert(span_lo(nodes, i) == span_lo(nodes, l));
        assert(span_hi(nodes, i) == span_hi(nodes, r));
    } else {
        assert(span_lo(nodes, i) == nodes[i].start);
        assert(span_hi(nodes, i) == nodes[i].start + nodes[i].count);
    }
}

/// Two node sequences that agree on a block closed under the child links
/// give the block the same spans.
proof fn lemma_span_stable(n1: Seq<Node>, n2: Seq<Node>, lo: int, hi: int, i: int)
    requires
        links_inside(n1, lo, hi),
        hi <= n1.len(),
        hi <= n2.len(),
        forall|k: int| lo <= k < hi ==> n1[k] == n2[k],
        lo <= i < hi,
    ensures
        span_lo(n1, i) == span_lo(n2, i),
        span_hi(n1, i) == span_hi(n2, i),
    decreases hi - i,
{
    assert(n1[i] == n2[i]);
    if n1[i].count == 0 {
        let l = n1[i].left->0 as int;
        let r = n1[i].right->0 as int;
        lemma_span_stable(n1, n2, lo, hi, l);
        lemma_span_stable(n1, n2, lo, hi, r);
    }
}

/// A well-formed node of a block closed under the child links stays well
/// formed when nodes outside the block change and triangle slots are added.
proof fn lemma_node_ok_stable(
    n1: Seq<Node>,
    t1: Seq<usize>,
    n2: Seq<Node>,
    t2: Seq<usize>,
    pos: Seq<Vector3>,
    idx: Seq<u32>,
    lo: int,
    hi: int,
    i: int,
)
    requires
        links_inside(n1, lo, hi),
        hi <= n1.len(),
        hi <= n2.len(),
        forall|k: int| lo <= k < hi ==> n1[k] == n2[k],
        t1.len() <= t2.len(),
        forall|k: int| 0 <= k < t1.len() ==> t1[k] == t2[k],
        lo <= i < hi,
        node_ok(n1, t1, pos, idx, i),
    ensures
        node_ok(n2, t2, pos, idx, i),
{
    assert(n1[i] == n2[i]);
    let n = n1[i];
    if n.count > 0 {
        assert forall|j: int| n.start <= j < n.start + n.count implies tri_readable(
            pos,
            idx,
            #[trigger] t2[j] as int,
        ) && box_within(tri_box(pos, idx, t2[j] as int), n.aabb) by {
            assert(t1[j] == t2[j]);
            assert(tri_readable(pos, idx, t1[j] as int));
        }
    } else {
        let l = n.left->0 as int;
        let r = n.right->0 as int;
        assert(n1[l] == n2[l]);
        assert(n1[r] == n2[r]);
        lemma_span_stable(n1, n2, lo, hi, l);
        lemma_span_stable(n1, n2, lo, hi, r);
    }
}

// ----- construction -----

/// Every triangle of `s` before slot `m` has a centroid no further along
/// `axis` than every triangle from slot `m` on.
pub open spec fn split_ordered(pos: Seq<Vector3>, idx: Seq<u32>, s: Seq<usize>, m: int, axis: u8) -> bool {
    forall|i: int, j: int|
        0 <= i < m <= j < s.len() ==> #[trigger] centroid_key(pos, idx, s[i] as int, axis)
            <= #[trigger] centroid_key(pos, idx, s[j] as int, axis)
}

/// One past the last node of the subtree at node `m`, whose nodes are
/// laid out in pre-order: the node, its left subtree, its right subtree.
pub open spec fn subtree_end(nodes: Seq<Node>, m: int) -> int
    decreases nodes.len() - m,
{
    if 0 <= m < nodes.len() && nodes[m].count == 0 {
        match nodes[m].right {
            Some(r) => if m < r < nodes.len() {
                subtree_end(nodes, r as int)
            } else {
                m + 1
            },
            None => m + 1,
        }
    } else {
        m + 1
    }
}

/// Node `m` is split as the build splits: a subtree of at most eight
/// triangles is one leaf holding them; a larger one is an inner node whose
/// left child follows it and holds half (rounded down) of its triangles,
/// those whose centroids lie lowest along the longest axis of its box, and
/// whose right child follows the left subtree.
pub open spec fn node_shaped(nodes: Seq<Node>, tris: Seq<usize>, pos: Seq<Vector3>, idx: Seq<u32>, m: int) -> bool {
    let lo = span_lo(nodes, m);
    let hi = span_hi(nodes, m);
    let n = hi - lo;
    if n <= 8 {
        &&& nodes[m].count == n
        &&& nodes[m].left is None
        &&& nodes[m].right is None
    } else {
        &&& nodes[m].count == 0
        &&& nodes[m].left == Some((m + 1) as usize)
        &&& nodes[m].right == Some(subtree_end(nodes, m + 1) as usize)
        &&& span_hi(nodes, m + 1) - span_lo(nodes, m + 1) == n / 2
        &&& split_ordered(pos, idx, tris.subrange(lo, hi), n / 2, longest_axis(nodes[m].aabb))
    }
}

/// The nodes `r .. e` are one tree rooted at `r`, laid out in pre-order,
/// every node of it split as the build splits.
pub open spec fn tree_shaped(
    nodes: Seq<Node>,
    tris: Seq<usize>,
    pos: Seq<Vector3>,
    idx: Seq<u32>,
    r: int,
    e: int,
) -> bool {
    &&& subtree_end(nodes, r) == e
    &&& forall|m: int| r <= m < e ==> #[trigger] node_shaped(nodes, tris, pos, idx, m)
}

/// Two node sequences that agree on a block closed under the child links
/// give its subtrees the same ends.
proof fn lemma_end_stable(n1: Seq<Node>, n2: Seq<Node>, lo: int, hi: int, i: int)
    requires
        links_inside(n1, lo, hi),
        hi <= n1.len(),
        hi <= n2.len(),
        forall|k: int| lo <= k < hi ==> n1[k] == n2[k],
        0 <= lo <= i < hi,
    ensures
        subtree_end(n1, i) == subtree_end(n2, i),
    decreases hi - i,
{
    assert(n1[i] == n2[i]);
    if n1[i].count == 0 {
        lemma_end_stable(n1, n2, lo, hi, n1[i].right->0 as int);
    }
}

/// A well-shaped node of a block closed under the child links stays well
/// shaped when nodes outside the block change and slots are added.
proof fn lemma_shaped_stable(
    n1: Seq<Node>,
    t1: Seq<usize>,
    n2: Seq<Node>,
    t2: Seq<usize>,
    pos: Seq<Vector3>,
    idx: Seq<u32>,
    lo: int,
    hi: int,
    m: int,
)
    requires
        links_inside(n1, lo, hi),
        0 <= lo,
        hi <= n1.len(),
        hi <= n2.len(),
        forall|k: int| lo <= k < hi ==> n1[k] == n2[k],
        t1.len() <= t2.len(),
        forall|k: int| 0 <= k < t1.len() ==> t1[k] == t2[k],
        forall|k: int| lo <= k < hi ==> #[trigger] node_ok(n1, t1, pos, idx, k),
        lo <= m < hi,
        node_shaped(n1, t1, pos, idx, m),
    ensures
        node_shaped(n2, t2, pos, idx, m),
{
    assert(n1[m] == n2[m]);
    lemma_span_stable(n1, n2, lo, hi, m);
    lemma_block_spans(n1, t1, pos, idx, lo, hi, m);
    let a = span_lo(n1, m);
    let b = span_hi(n1, m);
    assert(t1.subrange(a, b) =~= t2.subrange(a, b));
    assert(node_ok(n1, t1, pos, idx, m));
    if n1[m].count == 0 {
        let l = n1[m].left->0 as int;
        assert(lo <= l < hi);
        lemma_span_stable(n1, n2, lo, hi, l);
        lemma_end_stable(n1, n2, lo, hi, l);
    }
}

/// An element of a sequence occurs in any sequence with the same multiset.
proof fn lemma_in_same_multiset(a: Seq<usize>, b: Seq<usize>, i: int) -> (k: int)
    requires
        a.to_multiset() == b.to_multiset(),
        0 <= i < a.len(),
    ensures
        0 <= k < b.len(),
        b[k] == a[i],
{
    assert(a.contains(a[i]));
    assert(a.to_multiset().count(a[i]) > 0);
    assert(b.to_multiset().count(a[i]) > 0);
    assert(b.contains(a[i]));
    choose|k: int| 0 <= k < b.len() && b[k] == a[i]
}

/// Index of the longest axis of the box's extent (x first on ties, then y).
pub open spec fn longest_axis(b: AABB) -> u8 {
    let ex = b.max.x - b.min.x;
    let ey = b.max.y - b.min.y;
    let ez = b.max.z - b.min.z;
    if ex >= ey && ex >= ez {
        0
    } else if ey >= ex && ey >= ez {
        1
    } else {
        2
    }
}

fn split_axis(b: &AABB) -> (axis: u8)
    ensures
        axis == longest_axis(*b),
{
    let ex = b.max.x as i64 - b.min.x as i64;
    let ey = b.max.y as i64 - b.min.y as i64;
    let ez = b.max.z as i64 - b.min.z as i64;
    if ex >= ey && ex >= ez {
        0
    } else if ey >= ex && ey >= ez {
        1
    } else {
        2
    }
}

impl Bvh {
    /// Builds the tree over the triangles `0 .. indices.len() / 3` of the
    /// mesh (`positions`, `indices`).
    pub fn new(positions: &[Vector3], indices: &[u32]) -> (bvh: Self)
        requires
            forall|k: int|
                0 <= k < 3 * (indices@.len() / 3) ==> #[trigger] indices@[k] < positions@.len(),
        ensures
            bvh.wf(positions@, indices@),
            bvh.tri_indices@.to_multiset() == upto((indices@.len() / 3) as int).to_multiset(),
            indices@.len() / 3 == 0 ==> bvh.nodes@.len() == 0,
            // The nodes form one tree in pre-order, each split as above.
            indices@.len() / 3 > 0 ==> tree_shaped(
                bvh.nodes@,
                bvh.tri_indices@,
                positions@,
                indices@,
                0,
                bvh.nodes@.len() as int,
            ),
            // Every node's box is the tight box of the triangles below it.
            boxes_tight(bvh.nodes@, bvh.tri_indices@, positions@, indices@, 0, bvh.nodes@.len() as int),
            indices@.len() / 3 > 0 ==> {
                let n = (indices@.len() / 3) as int;
                let root = bvh.nodes@[0];
                &&& 1 <= bvh.nodes@.len() <= 2 * n - 1
                // The root box is the tight box of all triangles.
                &&& root.aabb == hull(positions@, indices@, upto(n))
                &&& n <= 8 ==> bvh.nodes@.len() == 1 && bvh.tri_indices@ == upto(n) && root
                    == (Node { aabb: root.aabb, start: 0, count: n as usize, left: None, right: None })
                &&& n > 8 ==> root.count == 0 && root.left == Some(1usize) && span_hi(bvh.nodes@, 1)
                    == n / 2 && split_ordered(
                    positions@,
                    indices@,
                    bvh.tri_indices@,
                    n / 2,
                    longest_axis(root.aabb),
                )
            },
    {
        let tri_count = indices.len() / 3;
        let mut tri_indices: Vec<usize> = Vec::new();
        let mut t: usize = 0;
        while t < tri_count
            invariant
                t <= tri_count,
                tri_count == indices@.len() / 3,
                tri_indices@ == upto(t as int),
            decreases tri_count - t,
        {
            tri_indices.push(t);
            assert(tri_indices@ =~= upto(t + 1));
            t = t + 1;
        }
        let mut nodes: Vec<Node> = Vec::new();
        let mut tri_storage: Vec<usize> = Vec::new();

        if tri_count == 0 {
            return Bvh { nodes, tri_indices: tri_storage };
        }
        proof {
            assert forall|j: int| 0 <= j < tri_indices@.len() implies #[trigger] tri_readable(
                positions@,
                indices@,
                tri_indices@[j] as int,
            ) by {
                assert(tri_indices@[j] == j);
                assert(3 * j + 2 < 3 * (indices@.len() / 3));
                assert(indices@[3 * j] < positions@.len());
                assert(indices@[3 * j + 1] < positions@.len());
                assert(indices@[3 * j + 2] < positions@.len());
            }
        }
        let ghost all = tri_indices@;
        Self::build_recursive(positions, indices, tri_indices, &mut nodes, &mut tri_storage);
        proof {
            assert(tri_storage@.subrange(0, tri_storage@.len() as int) =~= tri_storage@);
            assert(all == upto(tri_count as int));
            assert(Seq::<usize>::empty() + all =~= all);
        }
        let bvh = Bvh { nodes, tri_indices: tri_storage };
        proof {
            assert forall|i: int| 0 <= i < bvh.nodes@.len() implies #[trigger] node_ok(
                bvh.nodes@,
                bvh.tri_indices@,
                positions@,
                indices@,
                i,
            ) by {}
        }
        bvh
    }

    /// Builds the subtree for `tri_indices` at the end of `nodes`, appending
    /// its leaves' triangles to `tri_storage`; returns the subtree's root.
    #[verifier::spinoff_prover]
    #[verifier::rlimit(60)]
    fn build_recursive(
        positions: &[Vector3],
        indices: &[u32],
        tri_indices: Vec<usize>,
        nodes: &mut Vec<Node>,
        tri_storage: &mut Vec<usize>,
    ) -> (r: usize)
        requires
            tri_indices.len() >= 1,
            all_readable(positions@, indices@, tri_indices@),
        ensures
            r == old(nodes)@.len(),
            final(nodes)@.len() > r,
            forall|k: int| 0 <= k < old(nodes)@.len() ==> final(nodes)@[k] == old(nodes)@[k],
            final(tri_storage)@.len() == old(tri_storage)@.len() + tri_indices@.len(),
            forall|k: int|
                0 <= k < old(tri_storage)@.len() ==> final(tri_storage)@[k] == old(
                    tri_storage,
                )@[k],
            final(tri_storage)@.subrange(
                old(tri_storage)@.len() as int,
                final(tri_storage)@.len() as int,
            ).to_multiset() == tri_indices@.to_multiset(),
            links_inside(final(nodes)@, r as int, final(nodes)@.len() as int),
            forall|i: int|
                r <= i < final(nodes)@.len() ==> #[trigger] node_ok(
                    final(nodes)@,
                    final(tri_storage)@,
                    positions@,
                    indices@,
                    i,
                ),
            span_lo(final(nodes)@, r as int) == old(tri_storage)@.len(),
            span_hi(final(nodes)@, r as int) == final(tri_storage)@.len(),
            final(nodes)@[r as int].aabb == hull(positions@, indices@, tri_indices@),
            boxes_tight(
                final(nodes)@,
                final(tri_storage)@,
                positions@,
                indices@,
                r as int,
                final(nodes)@.len() as int,
            ),
            tree_shaped(
                final(nodes)@,
                final(tri_storage)@,
                positions@,
                indices@,
                r as int,
                final(nodes)@.len() as int,
            ),
            final(nodes)@.len() - old(nodes)@.len() <= 2 * tri_indices@.len() - 1,
            // Up to eight triangles make one leaf that keeps them in order.
            tri_indices@.len() <= 8 ==> {
                &&& final(nodes)@.len() == r + 1
                &&& final(nodes)@[r as int] == (Node {
                    aabb: hull(positions@, indices@, tri_indices@),
                    start: old(tri_storage)@.len() as usize,
                    count: tri_indices@.len() as usize,
                    left: None,
                    right: None,
                })
                &&& final(tri_storage)@ == old(tri_storage)@ + tri_indices@
            },
            // More make an inner node whose left child follows it and holds
            // the half (rounded down) of the triangles with the lower
            // centroids along the longest axis of the node's box.
            tri_indices@.len() > 8 ==> {
                let s = final(tri_storage)@.subrange(
                    old(tri_storage)@.len() as int,
                    final(tri_storage)@.len() as int,
                );
                &&& final(nodes)@[r as int].count == 0
                &&& final(nodes)@[r as int].left == Some((r + 1) as usize)
                &&& span_hi(final(nodes)@, r + 1) == old(tri_storage)@.len() + tri_indices@.len() / 2
                &&& split_ordered(
                    positions@,
                    indices@,
                    s,
                    (tri_indices@.len() / 2) as int,
                    longest_axis(hull(positions@, indices@, tri_indices@)),
                )
            },
        decreases tri_indices.len(),
    {
        let ghost pos = positions@;
        let ghost idx = indices@;
        let ghost tris = tri_indices@;

        // 1. The node's box.
        let node_aabb = hull_of(positions, indices, &tri_indices);

        let node_index = nodes.len();
        nodes.push(Node { aabb: node_aabb, start: 0, count: 0, left: None, right: None });

        // 2. Leaf threshold.
        if tri_indices.len() <= 8 {
            let start = tri_storage.len();
            let mut k: usize = 0;
            while k < tri_indices.len()
                invariant
                    k <= tri_indices.len(),
                    start == old(tri_storage)@.len(),
                    tri_storage@.len() == start + k,
                    forall|m: int| 0 <= m < start ==> tri_storage@[m] == old(tri_storage)@[m],
                    forall|m: int| 0 <= m < k ==> tri_storage@[start + m] == tri_indices@[m],
                decreases tri_indices.len() - k,
            {
                tri_storage.push(tri_indices[k]);
                k = k + 1;
            }
            let count = tri_indices.len();
            nodes.set(
                node_index,
                Node { aabb: node_aabb, start, count, left: None, right: None },
            );
            proof {
                let ts = tri_storage@;
                assert(ts.subrange(start as int, ts.len() as int) =~= tris);
                assert forall|j: int| start <= j < start + count implies tri_readable(
                    pos,
                    idx,
                    #[trigger] ts[j] as int,
                ) && box_within(tri_box(pos, idx, ts[j] as int), node_aabb) by {
                    assert(ts[j] == tris[j - start]);
                    assert(tri_readable(pos, idx, tris[j - start] as int));
                    lemma_hull_holds(pos, idx, tris, j - start);
                }
                assert(node_ok(nodes@, ts, pos, idx, node_index as int));
                assert(span_lo(nodes@, node_index as int) == start);
                assert(span_hi(nodes@, node_index as int) == ts.len());
                assert(boxes_tight(nodes@, ts, pos, idx, node_index as int, nodes@.len() as int));
                assert(node_shaped(nodes@, ts, pos, idx, node_index as int));
                assert(subtree_end(nodes@, node_index as int) == nodes@.len());
            }
            return node_index;
        }

        // 3. Split on the longest axis at the centroid median.
        let axis = split_axis(&node_aabb);
        let sorted = sort_by_centroid(positions, indices, tri_indices, axis);
        let mid = sorted.len() / 2;
        let left_half = copy_range(&sorted, 0, mid);
        let right_half = copy_range(&sorted, mid, sorted.len());
        proof {
            lemma_subrange_readable(pos, idx, sorted@, 0, mid as int);
            lemma_subrange_readable(pos, idx, sorted@, mid as int, sorted@.len() as int);
        }
        let ghost lh = left_half@;
        let ghost rh = right_half@;
        let ghost n1 = nodes@;
        let ghost s1 = tri_storage@;

        // 4. Recurse.
        let left = Self::build_recursive(positions, indices, left_half, nodes, tri_storage);
        let ghost n2 = nodes@;
        let ghost s2 = tri_storage@;
        let right = Self::build_recursive(positions, indices, right_half, nodes, tri_storage);
        let ghost n3 = nodes@;
        let ghost s3 = tri_storage@;

        nodes.set(
            node_index,
            Node { aabb: node_aabb, start: 0, count: 0, left: Some(left), right: Some(right) },
        );

        proof {
            let n4 = nodes@;
            let o = node_index as int;
            let e1 = n2.len() as int;
            let e2 = n3.len() as int;
            assert(left == o + 1);
            assert(right == e1);
            // Prefixes are kept.
            assert forall|k: int| o + 1 <= k < e1 implies n2[k] == n4[k] by {
                assert(n3[k] == n2[k]);
            }
            assert forall|k: int| e1 <= k < e2 implies n3[k] == n4[k] by {}
            assert forall|k: int| 0 <= k < s2.len() implies s2[k] == s3[k] by {}
            // The block is closed under the links.
            assert forall|i: int|
                o <= i < e2 && #[trigger] n4[i].count == 0 implies {
                &&& n4[i].left is Some
                &&& n4[i].right is Some
                &&& i < n4[i].left->0 < e2
                &&& i < n4[i].right->0 < e2
            } by {
                if o + 1 <= i < e1 {
                    assert(n2[i] == n4[i]);
                    assert(n2[i].count == 0);
                } else if e1 <= i < e2 {
                    assert(n3[i] == n4[i]);
                    assert(n3[i].count == 0);
                }
            }
            assert(links_inside(n4, o, e2));
            // Spans of the children.
            lemma_span_stable(n2, n4, o + 1, e1, o + 1);
            lemma_span_stable(n3, n4, e1, e2, e1);
            assert(span_lo(n4, o) == span_lo(n4, o + 1));
            assert(span_hi(n4, o) == span_hi(n4, e1));
            // Nodes of both subtrees stay well formed.
            assert forall|i: int| o <= i < e2 implies #[trigger] node_ok(n4, s3, pos, idx, i) by {
                if o + 1 <= i < e1 {
                    assert(node_ok(n2, s2, pos, idx, i));
                    lemma_node_ok_stable(n2, s2, n4, s3, pos, idx, o + 1, e1, i);
                } else if e1 <= i < e2 {
                    assert(node_ok(n3, s3, pos, idx, i));
                    lemma_node_ok_stable(n3, s3, n4, s3, pos, idx, e1, e2, i);
                } else {
                    // The new inner node: its box holds the children's boxes.
                    assert(sorted@ =~= lh + rh);
                    vstd::seq_lib::lemma_multiset_commutative(lh, rh);
                    assert forall|j: int| 0 <= j < lh.len() implies tris.contains(
                        #[trigger] lh[j],
                    ) by {
                        assert(sorted@.contains(lh[j]));
                        assert(sorted@.to_multiset().count(lh[j]) > 0);
                    }
                    assert forall|j: int| 0 <= j < rh.len() implies tris.contains(
                        #[trigger] rh[j],
                    ) by {
                        assert(sorted@[mid + j] == rh[j]);
                        assert(sorted@.contains(rh[j]));
                        assert(sorted@.to_multiset().count(rh[j]) > 0);
                    }
                    lemma_hull_of_part(pos, idx, lh, tris);
                    lemma_hull_of_part(pos, idx, rh, tris);
                    assert(n4[o + 1] == n2[o + 1]);
                    assert(n4[e1] == n3[e1]);
                    assert(node_ok(n4, s3, pos, idx, i));
                }
            }
            // The new slots hold the same triangles.
            let base = s1.len() as int;
            let sl = s3.subrange(base, base + lh.len());
            let sr = s3.subrange(base + lh.len(), s3.len() as int);
            assert(sl =~= s2.subrange(base, s2.len() as int));
            assert(s3.subrange(base, s3.len() as int) =~= sl + sr);
            vstd::seq_lib::lemma_multiset_commutative(sl, sr);
            vstd::seq_lib::lemma_multiset_commutative(lh, rh);
            assert(sorted@ =~= lh + rh);
            // The node count.
            assert(lh.len() + rh.len() == tris.len());
            // Every box is the hull of its subtree's slots.
            assert forall|i: int| o <= i < e2 implies #[trigger] n4[i].aabb == hull(
                pos,
                idx,
                s3.subrange(span_lo(n4, i), span_hi(n4, i)),
            ) by {
                if o + 1 <= i < e1 {
                    assert(n4[i] == n2[i]);
                    lemma_span_stable(n2, n4, o + 1, e1, i);
                    lemma_block_spans(n2, s2, pos, idx, o + 1, e1, i);
                    assert(s3.subrange(span_lo(n4, i), span_hi(n4, i)) =~= s2.subrange(
                        span_lo(n2, i),
                        span_hi(n2, i),
                    ));
                } else if e1 <= i < e2 {
                    assert(n4[i] == n3[i]);
                    lemma_span_stable(n3, n4, e1, e2, i);
                } else {
                    assert(s3.subrange(span_lo(n4, o), span_hi(n4, o)) == s3.subrange(
                        base,
                        s3.len() as int,
                    ));
                    lemma_hull_perm(pos, idx, tris, s3.subrange(base, s3.len() as int));
                }
            }
            // The split.
            let s = s3.subrange(base, s3.len() as int);
            assert(span_hi(n4, o + 1) == span_hi(n2, o + 1));
            assert forall|i: int, j: int|
                0 <= i < mid as int <= j < s.len() implies #[trigger] centroid_key(
                pos,
                idx,
                s[i] as int,
                axis,
            ) <= #[trigger] centroid_key(pos, idx, s[j] as int, axis) by {
                assert(s[i] == sl[i]);
                assert(s[j] == sr[j - mid]);
                let ka = lemma_in_same_multiset(sl, lh, i);
                let kb = lemma_in_same_multiset(sr, rh, j - mid);
                assert(lh[ka] == sorted@[ka]);
                assert(rh[kb] == sorted@[mid + kb]);
                assert(sorted_on_axis(pos, idx, sorted@, axis));
                assert(centroid_key(pos, idx, sorted@[ka] as int, axis) <= centroid_key(
                    pos,
                    idx,
                    sorted@[mid + kb] as int,
                    axis,
                ));
            }
            // Every node is split as the build splits.
            assert forall|m: int| o <= m < e2 implies #[trigger] node_shaped(n4, s3, pos, idx, m) by {
                if o + 1 <= m < e1 {
                    assert(node_shaped(n2, s2, pos, idx, m));
                    lemma_shaped_stable(n2, s2, n4, s3, pos, idx, o + 1, e1, m);
                } else if e1 <= m < e2 {
                    assert(node_shaped(n3, s3, pos, idx, m));
                    lemma_shaped_stable(n3, s3, n4, s3, pos, idx, e1, e2, m);
                } else {
                    lemma_end_stable(n2, n4, o + 1, e1, o + 1);
                    assert(subtree_end(n4, o + 1) == e1);
                    assert(span_lo(n4, o) == base);
                    assert(span_hi(n4, o) == s3.len());
                    assert(span_lo(n4, o + 1) == base);
                    assert(span_hi(n4, o + 1) == s2.len());
                    assert(s == s3.subrange(span_lo(n4, o), span_hi(n4, o)));
                    assert(n4[o].aabb == node_aabb);
                    assert(mid == tris.len() / 2);
                }
            }
            lemma_end_stable(n3, n4, e1, e2, e1);
            assert(subtree_end(n4, o) == e2);
        }
        node_index
    }
}

// ----- traversal -----

/// A well-formed tree can be traversed.
pub proof fn lemma_wf_traversable(bvh: &Bvh, pos: Seq<Vector3>, idx: Seq<u32>)
    requires
        bvh.wf(pos, idx),
    ensures
        traversable(bvh.nodes@, bvh.tri_indices@),
{
    assert forall|i: int| 0 <= i < bvh.nodes@.len() implies {
        &&& (#[trigger] bvh.nodes@[i].count > 0 ==> bvh.nodes@[i].start + bvh.nodes@[i].count
            <= bvh.tri_indices@.len())
        &&& (bvh.nodes@[i].left matches Some(l) ==> i < l < bvh.nodes@.len())
        &&& (bvh.nodes@[i].right matches Some(r) ==> i < r < bvh.nodes@.len())
    } by {
        assert(node_ok(bvh.nodes@, bvh.tri_indices@, pos, idx, i));
    }
}

impl Bvh {
    /// Appends to `out` the triangles of every leaf whose box, and whose
    /// ancestors' boxes, overlap `aabb` (left subtrees before right ones).
    pub fn query_aabb(&self, aabb: &AABB, out: &mut Vec<usize>)
        requires
            traversable(self.nodes@, self.tri_indices@),
        ensures
            final(out)@ == old(out)@ + self.query_result(*aabb),
    {
        if self.nodes.len() == 0 {
            assert(old(out)@ + self.query_result(*aabb) =~= old(out)@);
            return;
        }
        self.query_node(0, aabb, out);
    }

    fn query_node(&self, i: usize, q: &AABB, out: &mut Vec<usize>)
        requires
            traversable(self.nodes@, self.tri_indices@),
            i < self.nodes@.len(),
        ensures
            final(out)@ == old(out)@ + collect(self.nodes@, self.tri_indices@, i as int, *q),
        decreases self.nodes@.len() - i,
    {
        let node = self.nodes[i];
        assert(self.nodes@[i as int].count > 0 ==> self.nodes@[i as int].start
            + self.nodes@[i as int].count <= self.tri_indices@.len());
        if !node.aabb.intersects(q) {
            assert(old(out)@ + collect(self.nodes@, self.tri_indices@, i as int, *q) =~= old(
                out,
            )@);
            return;
        }
        if node.count > 0 {
            let total = self.tri_indices.len();
            let mut k: usize = 0;
            while k < node.count
                invariant
                    k <= node.count,
                    total == self.tri_indices@.len(),
                    node.start + node.count <= self.tri_indices@.len(),
                    out@ == old(out)@ + self.tri_indices@.subrange(
                        node.start as int,
                        node.start + k,
                    ),
                decreases node.count - k,
            {
                out.push(self.tri_indices[node.start + k]);
                assert(self.tri_indices@.subrange(node.start as int, node.start + k + 1)
                    =~= self.tri_indices@.subrange(node.start as int, node.start + k).push(
                    self.tri_indices@[node.start + k],
                ));
                k = k + 1;
            }
        } else {
            let ghost before = out@;
            if let Some(l) = node.left {
                self.query_node(l, q, out);
            }
            let ghost mid = out@;
            if let Some(r) = node.right {
                self.query_node(r, q, out);
            }
            assert(out@ =~= old(out)@ + collect(self.nodes@, self.tri_indices@, i as int, *q));
        }
    }
}

} // verus!
