//! Draw groups (runs of the index buffer drawn with one texture) and their
//! spatial subdivision into grid cells for tighter frustum culling.
use vstd::prelude::*;
use crate::geometry::Vector3;

verus! {

/// A run of the index buffer drawn with one texture.
#[derive(Clone, Copy, Debug, PartialEq, Eq, Structural)]
pub struct DrawGroup {
    pub texture_index: usize,
    pub first_index: u32,
    pub index_count: u32,
    pub vertex_offset: i32,
}

impl Default for DrawGroup {
    fn default() -> (g: Self)
        ensures
            g.texture_index == 0,
            g.first_index == 0,
            g.index_count == 0,
            g.vertex_offset == 0,
    {
        DrawGroup { texture_index: 0, first_index: 0, index_count: 0, vertex_offset: 0 }
    }
}

/// A cell of the subdivision grid.
#[derive(Clone, Copy, Debug, PartialEq, Eq, Structural)]
pub struct GridCell {
    pub x: i32,
    pub y: i32,
    pub z: i32,
}

/// Groups of at most this many indices are kept whole.
pub open spec fn small_group_limit() -> int {
    36
}

/// The indices of group `g`: from its first index, `index_count` of them,
/// cut at the end of the buffer.
pub open spec fn group_slice(idx: Seq<u32>, g: DrawGroup) -> Seq<u32> {
    let start = g.first_index as int;
    let end = if start + g.index_count <= idx.len() {
        start + g.index_count
    } else {
        idx.len() as int
    };
    idx.subrange(start, end)
}

/// Triangle `k` (three consecutive indices) of an index list.
pub open spec fn tri_at(s: Seq<u32>, k: int) -> Seq<u32> {
    s.subrange(3 * k, 3 * k + 3)
}

/// Number of whole triangles of an index list.
pub open spec fn whole_tris(s: Seq<u32>) -> int {
    (s.len() / 3) as int
}

/// `q` held to the range of `i32`.
pub open spec fn saturate_i32(q: int) -> i32 {
    if q > i32::MAX {
        i32::MAX
    } else if q < i32::MIN {
        i32::MIN
    } else {
        q as i32
    }
}

/// The cell, on one axis, of a centroid whose coordinate is `sum / 3`, for
/// cells of edge `cs`: `floor((sum / 3) / cs)` held to the range of `i32`.
/// A zero edge sends positive coordinates to the last cell, negative ones
/// to the first and zero to cell 0, as the limit of the division does.
pub open spec fn axis_cell(sum: int, cs: int) -> i32 {
    if cs == 0 {
        if sum > 0 {
            i32::MAX
        } else if sum < 0 {
            i32::MIN
        } else {
            0
        }
    } else if cs > 0 {
        saturate_i32(sum / (3 * cs))
    } else {
        // floor(sum / d) for a negative d is floor(-sum / -d).
        saturate_i32((-sum) / (-3 * cs))
    }
}

/// The grid cell of the centroid of the triangle with vertex indices
/// `t[0], t[1], t[2]`, for cells of edge `cs`: on every axis the cell of
/// `(p0 + p1 + p2) / 3`.
pub open spec fn tri_cell(pos: Seq<Vector3>, t: Seq<u32>, cs: int) -> GridCell {
    let a = pos[t[0] as int];
    let b = pos[t[1] as int];
    let c = pos[t[2] as int];
    GridCell {
        x: axis_cell(a.x + b.x + c.x, cs),
        y: axis_cell(a.y + b.y + c.y, cs),
        z: axis_cell(a.z + b.z + c.z, cs),
    }
}

/// The cells of the first `k` whole triangles of `s`.
pub open spec fn cells_upto(pos: Seq<Vector3>, s: Seq<u32>, cs: int, k: int) -> Seq<GridCell> {
    Seq::new(k as nat, |i: int| tri_cell(pos, tri_at(s, i), cs))
}

/// The distinct cells of `cells`, in order of first appearance.
pub open spec fn first_seen(cells: Seq<GridCell>) -> Seq<GridCell>
    decreases cells.len(),
{
    if cells.len() == 0 {
        Seq::empty()
    } else {
        let d = first_seen(cells.drop_last());
        if d.contains(cells.last()) {
            d
        } else {
            d.push(cells.last())
        }
    }
}

/// The indices of those of the first `k` whole triangles of `s` that lie in
/// cell `c`, in their order in `s`.
pub open spec fn tris_in_cell(pos: Seq<Vector3>, s: Seq<u32>, cs: int, c: GridCell, k: int) -> Seq<
    u32,
>
    decreases k,
{
    if k <= 0 {
        Seq::empty()
    } else {
        let prev = tris_in_cell(pos, s, cs, c, k - 1);
        if tri_cell(pos, tri_at(s, k - 1), cs) == c {
            prev + tri_at(s, k - 1)
        } else {
            prev
        }
    }
}

/// The index lists that group `g` is split into: the group's indices as
/// they are when it is small, otherwise one list per occupied cell (cells in
/// order of first appearance), each holding the cell's whole triangles.
pub open spec fn split_lists(pos: Seq<Vector3>, idx: Seq<u32>, g: DrawGroup, cs: int) -> Seq<
    Seq<u32>,
> {
    let s = group_slice(idx, g);
    if g.index_count <= small_group_limit() {
        seq![s]
    } else {
        let n = whole_tris(s);
        first_seen(cells_upto(pos, s, cs, n)).map_values(
            |c: GridCell| tris_in_cell(pos, s, cs, c, n),
        )
    }
}

/// Appends the lists `lists` of texture `tex` to the index buffer and group
/// list `acc`, one new group per list.
pub open spec fn emit(acc: (Seq<u32>, Seq<DrawGroup>), tex: usize, lists: Seq<Seq<u32>>) -> (
    Seq<u32>,
    Seq<DrawGroup>,
)
    decreases lists.len(),
{
    if lists.len() == 0 {
        acc
    } else {
        let prev = emit(acc, tex, lists.drop_last());
        let l = lists.last();
        (
            prev.0 + l,
            prev.1.push(
                DrawGroup {
                    texture_index: tex,
                    first_index: prev.0.len() as u32,
                    index_count: l.len() as u32,
                    vertex_offset: 0,
                },
            ),
        )
    }
}

/// The index buffer and groups after subdividing `groups`.
pub open spec fn subdivided(pos: Seq<Vector3>, idx: Seq<u32>, groups: Seq<DrawGroup>, cs: int) -> (
    Seq<u32>,
    Seq<DrawGroup>,
)
    decreases groups.len(),
{
    if groups.len() == 0 {
        (Seq::empty(), Seq::empty())
    } else {
        let g = groups.last();
        emit(
            subdivided(pos, idx, groups.drop_last(), cs),
            g.texture_index,
            split_lists(pos, idx, g, cs),
        )
    }
}

/// Every group starts inside the index buffer, and every whole triangle of
/// a group that will be split names an existing vertex.
pub open spec fn groups_readable(pos: Seq<Vector3>, idx: Seq<u32>, groups: Seq<DrawGroup>) -> bool {
    forall|i: int|
        0 <= i < groups.len() ==> {
            &&& #[trigger] groups[i].first_index <= idx.len()
            &&& groups[i].index_count > small_group_limit() ==> forall|k: int|
                0 <= k < 3 * whole_tris(group_slice(idx, groups[i])) ==> #[trigger] group_slice(
                    idx,
                    groups[i],
                )[k] < pos.len()
        }
}

proof fn lemma_div_bounded(n: int, d: int)
    requires
        d >= 3,
        -0x2_0000_0000 <= n <= 0x2_0000_0000,
    ensures
        -0x2_0000_0000 <= n / d <= 0x2_0000_0000,
{
    assert(-0x2_0000_0000 <= n / d <= 0x2_0000_0000) by (nonlinear_arith)
        requires
            d >= 3,
            -0x2_0000_0000 <= n <= 0x2_0000_0000,
    ;
}

/// The cell on one axis of a centroid `s / 3`, for cells of edge `cs`.
fn axis_cell_of(s: i64, cs: i32) -> (r: i32)
    requires
        -0x1_8000_0000 <= s <= 0x1_7fff_fffd,
    ensures
        r == axis_cell(s as int, cs as int),
{
    if cs == 0 {
        if s > 0 {
            i32::MAX
        } else if s < 0 {
            i32::MIN
        } else {
            0
        }
    } else {
        let c: i64 = cs as i64;
        let n: i64 = if c > 0 {
            s
        } else {
            -s
        };
        let d: i64 = if c > 0 {
            3 * c
        } else {
            3 * (-c)
        };
        proof {
            lemma_div_bounded(n as int, d as int);
        }
        let q: i64 = match n.checked_div_euclid(d) {
            Some(q) => q,
            None => 0,
        };
        if q > i32::MAX as i64 {
            i32::MAX
        } else if q < i32::MIN as i64 {
            i32::MIN
        } else {
            q as i32
        }
    }
}

/// The cell of the triangle with vertex indices `a, b, c`.
fn cell_of(pos: &[Vector3], a: u32, b: u32, c: u32, cell_size: i32) -> (g: GridCell)
    requires
        a < pos@.len(),
        b < pos@.len(),
        c < pos@.len(),
    ensures
        g == tri_cell(pos@, seq![a, b, c], cell_size as int),
{
    let p = pos[a as usize];
    let q = pos[b as usize];
    let r = pos[c as usize];
    let sx = p.x as i64 + q.x as i64 + r.x as i64;
    let sy = p.y as i64 + q.y as i64 + r.y as i64;
    let sz = p.z as i64 + q.z as i64 + r.z as i64;
    GridCell { x: axis_cell_of(sx, cell_size), y: axis_cell_of(sy, cell_size), z: axis_cell_of(sz, cell_size) }
}


/// Whether `c` occurs in `cells`.
fn has_cell(cells: &Vec<GridCell>, c: GridCell) -> (r: bool)
    ensures
        r == cells@.contains(c),
{
    let mut k: usize = 0;
    while k < cells.len()
        invariant
            k <= cells.len(),
            forall|m: int| 0 <= m < k ==> cells@[m] != c,
        decreases cells.len() - k,
    {
        if cells[k] == c {
            return true;
        }
        k = k + 1;
    }
    false
}

/// The indices of group `g`.
fn group_indices(indices: &Vec<u32>, g: DrawGroup) -> (s: Vec<u32>)
    requires
        g.first_index <= indices@.len(),
    ensures
        s@ == group_slice(indices@, g),
{
    let start = g.first_index as usize;
    let len = indices.len();
    let end = if g.index_count as usize <= len - start {
        start + g.index_count as usize
    } else {
        len
    };
    let mut s: Vec<u32> = Vec::new();
    let mut k = start;
    while k < end
        invariant
            start <= k <= end <= len,
            len == indices@.len(),
            s@ == indices@.subrange(start as int, k as int),
        decreases end - k,
    {
        s.push(indices[k]);
        assert(indices@.subrange(start as int, k + 1) =~= indices@.subrange(start as int, k as int).push(
            indices@[k as int],
        ));
        k = k + 1;
    }
    s
}

/// The cells of the first `n` whole triangles of `s`.
fn triangle_cells(pos: &[Vector3], s: &Vec<u32>, n: usize, cell_size: i32) -> (cells: Vec<GridCell>)
    requires
        3 * n <= s@.len(),
        forall|k: int| 0 <= k < 3 * n ==> #[trigger] s@[k] < pos@.len(),
    ensures
        cells@ == cells_upto(pos@, s@, cell_size as int, n as int),
{
    let mut cells: Vec<GridCell> = Vec::new();
    let slen = s.len();
    let mut k: usize = 0;
    while k < n
        invariant
            k <= n,
            slen == s@.len(),
                3 * n <= s@.len(),
            forall|m: int| 0 <= m < 3 * n ==> #[trigger] s@[m] < pos@.len(),
            cells@ == cells_upto(pos@, s@, cell_size as int, k as int),
        decreases n - k,
    {
        assert(s@[3 * k as int] < pos@.len());
        assert(s@[3 * k + 1] < pos@.len());
        assert(s@[3 * k + 2] < pos@.len());
        let c = cell_of(pos, s[3 * k], s[3 * k + 1], s[3 * k + 2], cell_size);
        assert(tri_at(s@, k as int) =~= seq![s@[3 * k as int], s@[3 * k + 1], s@[3 * k + 2]]);
        cells.push(c);
        assert(cells@ =~= cells_upto(pos@, s@, cell_size as int, k + 1));
        k = k + 1;
    }
    cells
}

/// The distinct cells of `cells`, in order of first appearance.
fn distinct_cells(cells: &Vec<GridCell>) -> (d: Vec<GridCell>)
    ensures
        d@ == first_seen(cells@),
{
    let mut d: Vec<GridCell> = Vec::new();
    let mut k: usize = 0;
    assert(cells@.subrange(0, 0) =~= Seq::<GridCell>::empty());
    while k < cells.len()
        invariant
            k <= cells.len(),
            d@ == first_seen(cells@.subrange(0, k as int)),
        decreases cells.len() - k,
    {
        let c = cells[k];
        let ghost pre = cells@.subrange(0, k + 1);
        assert(pre.drop_last() =~= cells@.subrange(0, k as int));
        if !has_cell(&d, c) {
            d.push(c);
        }
        k = k + 1;
    }
    assert(cells@.subrange(0, cells.len() as int) =~= cells@);
    d
}

/// The indices of those of the first `n` whole triangles of `s` that lie in
/// cell `c`.
fn triangles_in(s: &Vec<u32>, cells: &Vec<GridCell>, c: GridCell, n: usize, pos: Ghost<Seq<Vector3>>, cs: Ghost<int>) -> (l: Vec<u32>)
    requires
        3 * n <= s@.len(),
        cells@ == cells_upto(pos@, s@, cs@, n as int),
    ensures
        l@ == tris_in_cell(pos@, s@, cs@, c, n as int),
{
    let mut l: Vec<u32> = Vec::new();
    let slen = s.len();
    let mut k: usize = 0;
    while k < n
        invariant
            k <= n,
            slen == s@.len(),
            3 * n <= s@.len(),
            cells@ == cells_upto(pos@, s@, cs@, n as int),
            l@ == tris_in_cell(pos@, s@, cs@, c, k as int),
        decreases n - k,
    {
        assert(cells@[k as int] == tri_cell(pos@, tri_at(s@, k as int), cs@));
        if cells[k] == c {
            l.push(s[3 * k]);
            l.push(s[3 * k + 1]);
            l.push(s[3 * k + 2]);
            assert(tri_at(s@, k as int) =~= seq![s@[3 * k as int], s@[3 * k + 1], s@[3 * k + 2]]);
        }
        k = k + 1;
    }
    l
}

/// Appends list `l` to the index buffer as one new group of texture `tex`.
fn emit_list(out_indices: &mut Vec<u32>, out_groups: &mut Vec<DrawGroup>, tex: usize, l: &Vec<u32>)
    ensures
        final(out_indices)@ == old(out_indices)@ + l@,
        final(out_groups)@ == old(out_groups)@.push(
            DrawGroup {
                texture_index: tex,
                first_index: old(out_indices)@.len() as u32,
                index_count: l@.len() as u32,
                vertex_offset: 0,
            },
        ),
{
    let first_index = out_indices.len() as u32;
    let index_count = l.len() as u32;
    let mut k: usize = 0;
    while k < l.len()
        invariant
            k <= l.len(),
            out_indices@ == old(out_indices)@ + l@.subrange(0, k as int),
        decreases l.len() - k,
    {
        out_indices.push(l[k]);
        assert(l@.subrange(0, k + 1) =~= l@.subrange(0, k as int).push(l@[k as int]));
        k = k + 1;
    }
    assert(l@.subrange(0, l.len() as int) =~= l@);
    out_groups.push(
        DrawGroup { texture_index: tex, first_index, index_count, vertex_offset: 0 },
    );
}

/// Splits every group of more than 36 indices into one group per grid cell
/// of edge `cell_size` (by triangle centroid), keeping smaller groups whole,
/// and rebuilds the index buffer so that each new group is a contiguous run.
pub fn subdivide_draw_groups(
    vertices: &[Vector3],
    indices: &mut Vec<u32>,
    draw_groups: &mut Vec<DrawGroup>,
    cell_size: i32,
)
    requires
        groups_readable(vertices@, old(indices)@, old(draw_groups)@),
    ensures
        (final(indices)@, final(draw_groups)@) == subdivided(
            vertices@,
            old(indices)@,
            old(draw_groups)@,
            cell_size as int,
        ),
{
    let ghost pos = vertices@;
    let ghost idx = indices@;
    let ghost groups = draw_groups@;
    let ghost cs = cell_size as int;
    let mut new_indices: Vec<u32> = Vec::new();
    let mut new_groups: Vec<DrawGroup> = Vec::new();
    let mut gi: usize = 0;
    assert(groups.subrange(0, 0) =~= Seq::<DrawGroup>::empty());
    while gi < draw_groups.len()
        invariant
            gi <= draw_groups.len(),
            indices@ == idx,
            draw_groups@ == groups,
                cs == cell_size as int,
            pos == vertices@,
            groups_readable(pos, idx, groups),
            (new_indices@, new_groups@) == subdivided(pos, idx, groups.subrange(0, gi as int), cs),
        decreases draw_groups.len() - gi,
    {
        let g = draw_groups[gi];
        assert(groups[gi as int] == g);
        assert(g.first_index <= idx.len());
        let ghost acc = (new_indices@, new_groups@);
        let ghost lists = split_lists(pos, idx, g, cs);
        proof {
            let pre = groups.subrange(0, gi + 1);
            assert(pre.drop_last() =~= groups.subrange(0, gi as int));
            assert(pre.last() == g);
        }
        let s = group_indices(indices, g);
        if g.index_count <= 36 {
            emit_list(&mut new_indices, &mut new_groups, g.texture_index, &s);
            proof {
                assert(lists =~= seq![s@]);
                assert(lists.drop_last() =~= Seq::<Seq<u32>>::empty());
                assert(emit(acc, g.texture_index, lists.drop_last()) == acc);
                assert(lists.last() == s@);
            }
        } else {
            let n = s.len() / 3;
            proof {
                assert forall|k: int| 0 <= k < 3 * n implies #[trigger] s@[k] < pos.len() by {
                    assert(s@ == group_slice(idx, groups[gi as int]));
                }
            }
            let cells = triangle_cells(vertices, &s, n, cell_size);
            let order = distinct_cells(&cells);
            assert(lists =~= order@.map_values(
                |c: GridCell| tris_in_cell(pos, s@, cs, c, n as int),
            ));
            let mut k: usize = 0;
            assert(lists.subrange(0, 0) =~= Seq::<Seq<u32>>::empty());
            while k < order.len()
                invariant
                    k <= order.len(),
                    3 * n <= s@.len(),
                    cells@ == cells_upto(pos, s@, cs, n as int),
                    lists.len() == order@.len(),
                    forall|m: int| 0 <= m < order@.len() ==> #[trigger] lists[m] == tris_in_cell(pos, s@, cs, order@[m], n as int),
                    (new_indices@, new_groups@) == emit(acc, g.texture_index, lists.subrange(0, k as int)),
                decreases order.len() - k,
            {
                let l = triangles_in(&s, &cells, order[k], n, Ghost(pos), Ghost(cs));
                assert(lists[k as int] == l@);
                proof {
                    let pre = lists.subrange(0, k + 1);
                    assert(pre.drop_last() =~= lists.subrange(0, k as int));
                    assert(pre.last() == l@);
                }
                emit_list(&mut new_indices, &mut new_groups, g.texture_index, &l);
                k = k + 1;
            }
            assert(lists.subrange(0, order.len() as int) =~= lists);
        }
        proof {
            assert((new_indices@, new_groups@) == emit(acc, g.texture_index, lists));
            let pre = groups.subrange(0, gi + 1);
            assert(subdivided(pos, idx, pre, cs) == emit(
                subdivided(pos, idx, pre.drop_last(), cs),
                pre.last().texture_index,
                split_lists(pos, idx, pre.last(), cs),
            ));
        }
        gi = gi + 1;
    }
    assert(groups.subrange(0, groups.len() as int) =~= groups);
    *indices = new_indices;
    *draw_groups = new_groups;
}

} // verus!
