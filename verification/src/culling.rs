//! Per-draw-group boxes and the visibility bookkeeping of frustum culling.
//!
//! The frustum test itself is evaluated by the renderer; this module keeps
//! each group's box, records which groups the test let through, and answers
//! visibility queries.
use vstd::prelude::*;
use crate::geometry::Vector3;

verus! {

/// Axis-aligned box of a draw group.
#[derive(Clone, Copy, Debug, PartialEq, Eq)]
pub struct GroupAabb {
    pub min: [i32; 3],
    pub max: [i32; 3],
}

impl Default for GroupAabb {
    fn default() -> (b: Self)
        ensures
            b.min@ == seq![0i32, 0i32, 0i32],
            b.max@ == seq![0i32, 0i32, 0i32],
    {
        GroupAabb { min: [0, 0, 0], max: [0, 0, 0] }
    }
}

/// The box that holds exactly point `p`.
pub open spec fn point_box(p: [i32; 3]) -> GroupAabb {
    GroupAabb { min: p, max: p }
}

pub open spec fn min_i(a: i32, b: i32) -> i32 {
    if a <= b { a } else { b }
}

pub open spec fn max_i(a: i32, b: i32) -> i32 {
    if a >= b { a } else { b }
}

/// Box `b` grown to hold point `p`.
pub open spec fn grown(b: GroupAabb, p: [i32; 3]) -> GroupAabb {
    GroupAabb {
        min: [min_i(b.min[0], p[0]), min_i(b.min[1], p[1]), min_i(b.min[2], p[2])],
        max: [max_i(b.max[0], p[0]), max_i(b.max[1], p[1]), max_i(b.max[2], p[2])],
    }
}

/// The box of the first `k` points of `ps` (`None` when `k` is 0).
pub open spec fn points_box(ps: Seq<[i32; 3]>, k: int) -> Option<GroupAabb>
    decreases k,
{
    if k <= 0 {
        None
    } else {
        match points_box(ps, k - 1) {
            None => Some(point_box(ps[k - 1])),
            Some(b) => Some(grown(b, ps[k - 1])),
        }
    }
}

/// The box of the vertices that index slots `start .. i` name, skipping
/// indices past the end of the vertex list (`None` when there are none).
pub open spec fn indexed_box(pos: Seq<[i32; 3]>, idx: Seq<u32>, start: int, i: int) -> Option<
    GroupAabb,
>
    decreases i - start,
{
    if i <= start {
        None
    } else {
        let prev = indexed_box(pos, idx, start, i - 1);
        let vi = idx[i - 1] as int;
        if vi < pos.len() {
            match prev {
                None => Some(point_box(pos[vi])),
                Some(b) => Some(grown(b, pos[vi])),
            }
        } else {
            prev
        }
    }
}

/// The box recorded for a group with no readable vertex: its minimum corner
/// is the largest coordinate and its maximum corner the smallest.
pub open spec fn empty_group_box() -> GroupAabb {
    GroupAabb { min: [i32::MAX, i32::MAX, i32::MAX], max: [i32::MIN, i32::MIN, i32::MIN] }
}

/// The box of a group given as `(first_index, index_count)`.
pub open spec fn group_box(pos: Seq<[i32; 3]>, idx: Seq<u32>, g: (u32, u32)) -> GroupAabb {
    let start = g.0 as int;
    let end = if g.0 + g.1 <= idx.len() {
        g.0 + g.1
    } else {
        idx.len() as int
    };
    match indexed_box(pos, idx, start, end) {
        Some(b) => b,
        None => empty_group_box(),
    }
}

/// Point `p` lies in box `b`.
pub open spec fn group_box_holds(b: GroupAabb, p: [i32; 3]) -> bool {
    &&& b.min[0] <= p[0] <= b.max[0]
    &&& b.min[1] <= p[1] <= b.max[1]
    &&& b.min[2] <= p[2] <= b.max[2]
}

fn grow(b: GroupAabb, p: [i32; 3]) -> (r: GroupAabb)
    ensures
        r == grown(b, p),
{
    GroupAabb {
        min: [
            if b.min[0] <= p[0] { b.min[0] } else { p[0] },
            if b.min[1] <= p[1] { b.min[1] } else { p[1] },
            if b.min[2] <= p[2] { b.min[2] } else { p[2] },
        ],
        max: [
            if b.max[0] >= p[0] { b.max[0] } else { p[0] },
            if b.max[1] >= p[1] { b.max[1] } else { p[1] },
            if b.max[2] >= p[2] { b.max[2] } else { p[2] },
        ],
    }
}

impl GroupAabb {
    /// The box of a list of vertex positions; the zero box when it is empty.
    pub fn from_positions(positions: &[[i32; 3]]) -> (b: Self)
        ensures
            positions@.len() == 0 ==> b == (GroupAabb { min: [0, 0, 0], max: [0, 0, 0] }),
            positions@.len() > 0 ==> Some(b) == points_box(positions@, positions@.len() as int),
    {
        if positions.len() == 0 {
            return GroupAabb { min: [0, 0, 0], max: [0, 0, 0] };
        }
        let mut b = GroupAabb { min: positions[0], max: positions[0] };
        assert(points_box(positions@, 0) is None);
        let mut k: usize = 1;
        while k < positions.len()
            invariant
                1 <= k <= positions@.len(),
                Some(b) == points_box(positions@, k as int),
            decreases positions.len() - k,
        {
            b = grow(b, positions[k]);
            k = k + 1;
        }
        b
    }

    /// The eight corners of the box.
    pub fn corners(&self) -> (c: [Vector3; 8])
        ensures
            c@ == seq![
                Vector3 { x: self.min[0], y: self.min[1], z: self.min[2] },
                Vector3 { x: self.max[0], y: self.min[1], z: self.min[2] },
                Vector3 { x: self.min[0], y: self.max[1], z: self.min[2] },
                Vector3 { x: self.max[0], y: self.max[1], z: self.min[2] },
                Vector3 { x: self.min[0], y: self.min[1], z: self.max[2] },
                Vector3 { x: self.max[0], y: self.min[1], z: self.max[2] },
                Vector3 { x: self.min[0], y: self.max[1], z: self.max[2] },
                Vector3 { x: self.max[0], y: self.max[1], z: self.max[2] },
            ],
    {
        let x0 = self.min[0];
        let y0 = self.min[1];
        let z0 = self.min[2];
        let x1 = self.max[0];
        let y1 = self.max[1];
        let z1 = self.max[2];
        let c = [
            Vector3::new(x0, y0, z0),
            Vector3::new(x1, y0, z0),
            Vector3::new(x0, y1, z0),
            Vector3::new(x1, y1, z0),
            Vector3::new(x0, y0, z1),
            Vector3::new(x1, y0, z1),
            Vector3::new(x0, y1, z1),
            Vector3::new(x1, y1, z1),
        ];
        assert(c@ =~= seq![
            Vector3 { x: x0, y: y0, z: z0 },
            Vector3 { x: x1, y: y0, z: z0 },
            Vector3 { x: x0, y: y1, z: z0 },
            Vector3 { x: x1, y: y1, z: z0 },
            Vector3 { x: x0, y: y0, z: z1 },
            Vector3 { x: x1, y: y0, z: z1 },
            Vector3 { x: x0, y: y1, z: z1 },
            Vector3 { x: x1, y: y1, z: z1 },
        ]);
        c
    }
}

/// Per-group boxes and the result of the last culling pass.
#[derive(Clone, Debug)]
pub struct OcclusionCuller {
    /// One box per draw group (indexed like the draw groups).
    pub group_aabbs: Vec<GroupAabb>,
    /// `true` = visible, `false` = culled.
    pub visibility: Vec<bool>,
    /// Number of groups in the last pass.
    pub last_total: usize,
    /// Number of visible groups in the last pass.
    pub last_visible: usize,
}

/// Number of `false` entries among the first `k` of `flags`.
pub open spec fn count_false(flags: Seq<bool>, k: int) -> int
    decreases k,
{
    if k <= 0 {
        0
    } else {
        count_false(flags, k - 1) + if flags[k - 1] {
            0int
        } else {
            1int
        }
    }
}

impl OcclusionCuller {
    /// A culler with no groups.
    pub fn new() -> (c: Self)
        ensures
            c.group_aabbs@.len() == 0,
            c.visibility@.len() == 0,
            c.last_total == 0,
            c.last_visible == 0,
    {
        OcclusionCuller {
            group_aabbs: Vec::new(),
            visibility: Vec::new(),
            last_total: 0,
            last_visible: 0,
        }
    }

    /// Recomputes the box of every group `(first_index, index_count)` from
    /// the vertices its indices name, and sizes the visibility list to the
    /// number of groups (new entries visible).
    pub fn build_from_groups(
        &mut self,
        vertex_positions: &[[i32; 3]],
        indices: &[u32],
        groups: &[(u32, u32)],
    )
        requires
            forall|i: int| 0 <= i < groups@.len() ==> #[trigger] groups@[i].0 + groups@[i].1 <= u32::MAX,
        ensures
            final(self).group_aabbs@.len() == groups@.len(),
            forall|i: int|
                0 <= i < groups@.len() ==> #[trigger] final(self).group_aabbs@[i] == group_box(
                    vertex_positions@,
                    indices@,
                    groups@[i],
                ),
            final(self).visibility@.len() == groups@.len(),
            forall|i: int|
                0 <= i < groups@.len() ==> #[trigger] final(self).visibility@[i] == if i < old(
                    self,
                ).visibility@.len() {
                    old(self).visibility@[i]
                } else {
                    true
                },
            final(self).last_total == old(self).last_total,
            final(self).last_visible == old(self).last_visible,
    {
        let mut boxes: Vec<GroupAabb> = Vec::new();
        let mut gi: usize = 0;
        while gi < groups.len()
            invariant
                gi <= groups@.len(),
                forall|i: int| 0 <= i < groups@.len() ==> #[trigger] groups@[i].0 + groups@[i].1 <= u32::MAX,
                boxes@.len() == gi,
                forall|i: int|
                    0 <= i < gi ==> #[trigger] boxes@[i] == group_box(
                        vertex_positions@,
                        indices@,
                        groups@[i],
                    ),
            decreases groups.len() - gi,
        {
            let (first_index, index_count) = groups[gi];
            assert(groups@[gi as int].0 + groups@[gi as int].1 <= u32::MAX);
            let b = group_box_of(vertex_positions, indices, first_index, index_count);
            boxes.push(b);
            gi = gi + 1;
        }
        self.group_aabbs = boxes;
        let n = self.group_aabbs.len();
        let ghost old_vis = self.visibility@;
        self.visibility.resize(n, true);
        proof {
            assert forall|i: int| 0 <= i < groups@.len() implies #[trigger] self.visibility@[i] == if i
                < old_vis.len() {
                old_vis[i]
            } else {
                true
            } by {
                if i < old_vis.len() {
                    if n <= old_vis.len() {
                        assert(self.visibility@ == old_vis.subrange(0, n as int));
                    } else {
                        assert(self.visibility@.subrange(0, old_vis.len() as int) == old_vis);
                        assert(self.visibility@.subrange(0, old_vis.len() as int)[i] == self.visibility@[i]);
                    }
                }
            }
        }
    }

    /// Records the outcome of a culling pass: `outside[i]` tells whether
    /// group `i`'s box lies entirely outside the view frustum.
    pub fn cull(&mut self, outside: &[bool])
        requires
            outside@.len() == old(self).group_aabbs@.len(),
        ensures
            final(self).group_aabbs@ == old(self).group_aabbs@,
            final(self).last_total == old(self).group_aabbs@.len(),
            final(self).visibility@.len() == outside@.len(),
            forall|i: int|
                0 <= i < outside@.len() ==> #[trigger] final(self).visibility@[i] == !outside@[i],
            final(self).last_visible == count_false(outside@, outside@.len() as int),
    {
        self.last_total = self.group_aabbs.len();
        let mut vis: Vec<bool> = Vec::new();
        let mut visible: usize = 0;
        let mut k: usize = 0;
        while k < outside.len()
            invariant
                k <= outside@.len(),
                vis@.len() == k,
                forall|i: int| 0 <= i < k ==> #[trigger] vis@[i] == !outside@[i],
                visible == count_false(outside@, k as int),
                visible <= k,
            decreases outside.len() - k,
        {
            vis.push(!outside[k]);
            if !outside[k] {
                visible = visible + 1;
            }
            k = k + 1;
        }
        self.visibility = vis;
        self.last_visible = visible;
    }

    /// Whether group `group_index` should be drawn; groups the last pass
    /// did not cover count as visible.
    pub fn is_visible(&self, group_index: usize) -> (r: bool)
        ensures
            r == if group_index < self.visibility@.len() {
                self.visibility@[group_index as int]
            } else {
                true
            },
    {
        if group_index < self.visibility.len() {
            self.visibility[group_index]
        } else {
            true
        }
    }
}

/// The box of the vertices named by index slots `first_index ..
/// first_index + index_count` (cut at the end of the index buffer).
fn group_box_of(pos: &[[i32; 3]], indices: &[u32], first_index: u32, index_count: u32) -> (b: GroupAabb)
    requires
        first_index + index_count <= u32::MAX,
    ensures
        b == group_box(pos@, indices@, (first_index, index_count)),
{
    let start = first_index as usize;
    let end0 = (first_index + index_count) as usize;
    let end = if end0 <= indices.len() {
        end0
    } else {
        indices.len()
    };
    let mut any = false;
    let mut b = GroupAabb { min: [i32::MAX, i32::MAX, i32::MAX], max: [i32::MIN, i32::MIN, i32::MIN] };
    if start < end {
        let mut i = start;
        while i < end
            invariant
                start <= i <= end <= indices@.len(),
                any ==> Some(b) == indexed_box(pos@, indices@, start as int, i as int),
                !any ==> indexed_box(pos@, indices@, start as int, i as int) is None,
                !any ==> b == empty_group_box(),
            decreases end - i,
        {
            let vi = indices[i] as usize;
            if vi < pos.len() {
                let p = pos[vi];
                if !any {
                    b = GroupAabb { min: p, max: p };
                    any = true;
                } else {
                    b = grow(b, p);
                }
            }
            i = i + 1;
        }
    }
    b
}

} // verus!
