//! Laws of the draw-group subdivision.
use vstd::prelude::*;
use crate::draw_groups::{
    emit, first_seen, group_slice, subdivided, tri_at, tri_cell, tris_in_cell, split_lists,
    cells_upto, whole_tris, DrawGroup, GridCell,
};
use crate::geometry::Vector3;

verus! {

/// The distinct cells of a split are distinct and are exactly the cells
/// that occur.
pub proof fn lemma_first_seen_distinct(cells: Seq<GridCell>)
    ensures
        first_seen(cells).no_duplicates(),
        forall|c: GridCell| first_seen(cells).contains(c) <==> cells.contains(c),
    decreases cells.len(),
{
    broadcast use vstd::seq_lib::group_seq_properties;

    if cells.len() > 0 {
        let rest = cells.drop_last();
        let x = cells.last();
        let d = first_seen(rest);
        lemma_first_seen_distinct(rest);
        assert(cells =~= rest.push(x));
        assert forall|c: GridCell| first_seen(cells).contains(c) <==> cells.contains(c) by {
            assert(cells.contains(c) <==> (rest.contains(c) || c == x));
            if !d.contains(x) {
                assert(d.push(x).contains(c) <==> (d.contains(c) || c == x));
            }
        }
        if !d.contains(x) {
            assert forall|i: int, j: int|
                0 <= i < j < d.push(x).len() implies d.push(x)[i] != d.push(x)[j] by {
                if j == d.len() {
                    assert(d.push(x)[i] == d[i]);
                    assert(d.contains(d[i]));
                } else {
                    assert(d.push(x)[i] == d[i]);
                    assert(d.push(x)[j] == d[j]);
                }
            }
        }
    }
}

/// Every triangle of a cell's list is one of the first `k` whole triangles
/// of the group and lies in that cell; the list is made of whole triangles.
pub proof fn lemma_cell_list_is_of_cell(
    pos: Seq<Vector3>,
    s: Seq<u32>,
    cs: int,
    c: GridCell,
    k: int,
    m: int,
)
    requires
        0 <= k,
        3 * k <= s.len(),
        0 <= m < tris_in_cell(pos, s, cs, c, k).len() / 3,
    ensures
        tris_in_cell(pos, s, cs, c, k).len() % 3 == 0,
        exists|i: int|
            0 <= i < k && tri_at(tris_in_cell(pos, s, cs, c, k), m) == tri_at(s, i) && tri_cell(
                pos,
                tri_at(s, i),
                cs,
            ) == c,
    decreases k,
{
    lemma_cell_list_whole(pos, s, cs, c, k);
    if k > 0 {
        let prev = tris_in_cell(pos, s, cs, c, k - 1);
        lemma_cell_list_whole(pos, s, cs, c, k - 1);
        if tri_cell(pos, tri_at(s, k - 1), cs) == c {
            let l = prev + tri_at(s, k - 1);
            if m < prev.len() / 3 {
                lemma_cell_list_is_of_cell(pos, s, cs, c, k - 1, m);
                let i = choose|i: int|
                    0 <= i < k - 1 && tri_at(prev, m) == tri_at(s, i) && tri_cell(
                        pos,
                        tri_at(s, i),
                        cs,
                    ) == c;
                assert(tri_at(l, m) =~= tri_at(prev, m));
            } else {
                assert(m == prev.len() / 3);
                assert(tri_at(l, m) =~= tri_at(s, k - 1));
            }
        } else {
            lemma_cell_list_is_of_cell(pos, s, cs, c, k - 1, m);
        }
    }
}

proof fn lemma_cell_list_whole(pos: Seq<Vector3>, s: Seq<u32>, cs: int, c: GridCell, k: int)
    requires
        0 <= k,
        3 * k <= s.len(),
    ensures
        tris_in_cell(pos, s, cs, c, k).len() % 3 == 0,
        tris_in_cell(pos, s, cs, c, k).len() <= 3 * k,
    decreases k,
{
    if k > 0 {
        lemma_cell_list_whole(pos, s, cs, c, k - 1);
    }
}

/// Every one of the first `k` whole triangles of a group is in the list of
/// its own cell.
pub proof fn lemma_triangle_in_own_cell(pos: Seq<Vector3>, s: Seq<u32>, cs: int, k: int, i: int)
    requires
        0 <= i < k,
        3 * k <= s.len(),
    ensures
        exists|m: int|
            0 <= m < tris_in_cell(pos, s, cs, tri_cell(pos, tri_at(s, i), cs), k).len() / 3
                && tri_at(tris_in_cell(pos, s, cs, tri_cell(pos, tri_at(s, i), cs), k), m)
                == tri_at(s, i),
    decreases k,
{
    let c = tri_cell(pos, tri_at(s, i), cs);
    let prev = tris_in_cell(pos, s, cs, c, k - 1);
    lemma_cell_list_whole(pos, s, cs, c, k - 1);
    if i == k - 1 {
        let l = prev + tri_at(s, k - 1);
        assert(tris_in_cell(pos, s, cs, c, k) == l);
        let m: int = (prev.len() / 3) as int;
        assert(tri_at(l, m) =~= tri_at(s, i));
        assert(l.len() == prev.len() + 3);
    } else {
        lemma_triangle_in_own_cell(pos, s, cs, k - 1, i);
        let m = choose|m: int|
            0 <= m < prev.len() / 3 && tri_at(prev, m) == tri_at(s, i);
        if tri_cell(pos, tri_at(s, k - 1), cs) == c {
            let l = prev + tri_at(s, k - 1);
            assert(tris_in_cell(pos, s, cs, c, k) == l);
            assert(tri_at(l, m) =~= tri_at(prev, m));
            assert(l.len() == prev.len() + 3);
        } else {
            assert(tris_in_cell(pos, s, cs, c, k) == prev);
        }
    }
}

/// The groups `grs` are consecutive runs that together cover an index
/// buffer of `n` entries, starting at its first entry.
pub open spec fn tiles(n: int, grs: Seq<DrawGroup>) -> bool {
    &&& grs.len() == 0 ==> n == 0
    &&& grs.len() > 0 ==> grs[0].first_index == 0 && grs.last().first_index
        + grs.last().index_count == n
    &&& forall|k: int|
        0 <= k < grs.len() - 1 ==> #[trigger] grs[k + 1].first_index == grs[k].first_index
            + grs[k].index_count
}

proof fn lemma_emit_grows(acc: (Seq<u32>, Seq<DrawGroup>), tex: usize, lists: Seq<Seq<u32>>)
    ensures
        emit(acc, tex, lists).0.len() >= acc.0.len(),
        emit(acc, tex, lists).1.len() == acc.1.len() + lists.len(),
    decreases lists.len(),
{
    if lists.len() > 0 {
        lemma_emit_grows(acc, tex, lists.drop_last());
    }
}

proof fn lemma_emit_tiles(acc: (Seq<u32>, Seq<DrawGroup>), tex: usize, lists: Seq<Seq<u32>>)
    requires
        tiles(acc.0.len() as int, acc.1),
        emit(acc, tex, lists).0.len() <= u32::MAX,
    ensures
        tiles(emit(acc, tex, lists).0.len() as int, emit(acc, tex, lists).1),
    decreases lists.len(),
{
    if lists.len() > 0 {
        let prev = emit(acc, tex, lists.drop_last());
        lemma_emit_grows(acc, tex, lists.drop_last());
        lemma_emit_tiles(acc, tex, lists.drop_last());
        let cur = emit(acc, tex, lists);
        let l = lists.last();
        assert(cur.0 == prev.0 + l);
        assert(cur.1[cur.1.len() - 1].first_index == prev.0.len());
        assert(cur.1[cur.1.len() - 1].index_count == l.len());
        assert forall|k: int| 0 <= k < cur.1.len() - 1 implies #[trigger] cur.1[k
            + 1].first_index == cur.1[k].first_index + cur.1[k].index_count by {
            if k < cur.1.len() - 2 {
                assert(cur.1[k + 1] == prev.1[k + 1]);
                assert(cur.1[k] == prev.1[k]);
            } else {
                assert(cur.1[k] == prev.1.last());
            }
        }
    }
}

/// When the rebuilt index buffer has at most `u32::MAX` entries, the new
/// groups are consecutive runs that exactly cover it.
pub proof fn lemma_subdivided_tiles(
    pos: Seq<Vector3>,
    idx: Seq<u32>,
    groups: Seq<DrawGroup>,
    cs: int,
)
    requires
        subdivided(pos, idx, groups, cs).0.len() <= u32::MAX,
    ensures
        tiles(subdivided(pos, idx, groups, cs).0.len() as int, subdivided(pos, idx, groups, cs).1),
    decreases groups.len(),
{
    if groups.len() > 0 {
        let g = groups.last();
        let prev = subdivided(pos, idx, groups.drop_last(), cs);
        lemma_emit_grows(prev, g.texture_index, split_lists(pos, idx, g, cs));
        lemma_subdivided_tiles(pos, idx, groups.drop_last(), cs);
        lemma_emit_tiles(prev, g.texture_index, split_lists(pos, idx, g, cs));
    }
}

/// Every new group carries the texture of a group it was split from.
pub proof fn lemma_subdivided_textures(
    pos: Seq<Vector3>,
    idx: Seq<u32>,
    groups: Seq<DrawGroup>,
    cs: int,
    k: int,
)
    requires
        0 <= k < subdivided(pos, idx, groups, cs).1.len(),
    ensures
        exists|i: int|
            0 <= i < groups.len() && subdivided(pos, idx, groups, cs).1[k].texture_index
                == groups[i].texture_index,
    decreases groups.len(),
{
    if groups.len() > 0 {
        let g = groups.last();
        let prev = subdivided(pos, idx, groups.drop_last(), cs);
        lemma_emit_grows(prev, g.texture_index, split_lists(pos, idx, g, cs));
        if k < prev.1.len() {
            lemma_emit_keeps_prefix(prev, g.texture_index, split_lists(pos, idx, g, cs), k);
            lemma_subdivided_textures(pos, idx, groups.drop_last(), cs, k);
            let i = choose|i: int|
                0 <= i < groups.drop_last().len() && prev.1[k].texture_index
                    == groups.drop_last()[i].texture_index;
            assert(groups[i] == groups.drop_last()[i]);
        } else {
            lemma_emit_texture(prev, g.texture_index, split_lists(pos, idx, g, cs), k);
            assert(groups[groups.len() - 1] == g);
        }
    }
}

proof fn lemma_emit_keeps_prefix(
    acc: (Seq<u32>, Seq<DrawGroup>),
    tex: usize,
    lists: Seq<Seq<u32>>,
    k: int,
)
    requires
        0 <= k < acc.1.len(),
    ensures
        emit(acc, tex, lists).1[k] == acc.1[k],
    decreases lists.len(),
{
    if lists.len() > 0 {
        lemma_emit_grows(acc, tex, lists.drop_last());
        lemma_emit_keeps_prefix(acc, tex, lists.drop_last(), k);
    }
}

proof fn lemma_emit_texture(acc: (Seq<u32>, Seq<DrawGroup>), tex: usize, lists: Seq<Seq<u32>>, k: int)
    requires
        acc.1.len() <= k < emit(acc, tex, lists).1.len(),
    ensures
        emit(acc, tex, lists).1[k].texture_index == tex,
    decreases lists.len(),
{
    if lists.len() > 0 {
        lemma_emit_grows(acc, tex, lists.drop_last());
        if k < emit(acc, tex, lists.drop_last()).1.len() {
            lemma_emit_texture(acc, tex, lists.drop_last(), k);
        }
    }
}

/// The three vertices of a triangle of index list `l` sum, on each axis,
/// to what the corner positions give.
pub open spec fn corner_sum_x(pos: Seq<Vector3>, t: Seq<u32>) -> int {
    pos[t[0] as int].x + pos[t[1] as int].x + pos[t[2] as int].x
}

pub open spec fn corner_sum_y(pos: Seq<Vector3>, t: Seq<u32>) -> int {
    pos[t[0] as int].y + pos[t[1] as int].y + pos[t[2] as int].y
}

pub open spec fn corner_sum_z(pos: Seq<Vector3>, t: Seq<u32>) -> int {
    pos[t[0] as int].z + pos[t[1] as int].z + pos[t[2] as int].z
}

/// For a positive cell size, the cell a triangle is put in is, on every
/// axis, `floor(centroid / cell_size)` with the centroid the mean of its
/// three corners.
proof fn lemma_tri_cell_is_floor(pos: Seq<Vector3>, t: Seq<u32>, cs: int)
    requires
        cs > 0,
    ensures
        tri_cell(pos, t, cs).x == corner_sum_x(pos, t) / (3 * cs),
        tri_cell(pos, t, cs).y == corner_sum_y(pos, t) / (3 * cs),
        tri_cell(pos, t, cs).z == corner_sum_z(pos, t) / (3 * cs),
{
    let sx = corner_sum_x(pos, t);
    let sy = corner_sum_y(pos, t);
    let sz = corner_sum_z(pos, t);
    lemma_third_in_range(sx, cs);
    lemma_third_in_range(sy, cs);
    lemma_third_in_range(sz, cs);
}

proof fn lemma_third_in_range(s: int, cs: int)
    requires
        cs > 0,
        -0x1_8000_0000 <= s <= 0x1_7fff_fffd,
    ensures
        i32::MIN <= s / (3 * cs) <= i32::MAX,
{
    assert(i32::MIN <= s / (3 * cs) <= i32::MAX) by (nonlinear_arith)
        requires
            cs > 0,
            -0x1_8000_0000 <= s <= 0x1_7fff_fffd,
    ;
}

/// A split group is split by the cells of its triangles' centroids: for a
/// positive cell size, any two triangles that one new group holds have
/// centroids in the same grid cell on all three axes, the cell on an axis
/// being `floor(((p0 + p1 + p2) / 3) / cell_size)`.  So two triangles whose
/// centroid cells differ on any axis never share a new group.
pub proof fn lemma_split_groups_share_cell(
    pos: Seq<Vector3>,
    idx: Seq<u32>,
    g: DrawGroup,
    cs: int,
    k: int,
    m1: int,
    m2: int,
)
    requires
        cs > 0,
        g.index_count > 36,
        0 <= k < split_lists(pos, idx, g, cs).len(),
        0 <= m1 < split_lists(pos, idx, g, cs)[k].len() / 3,
        0 <= m2 < split_lists(pos, idx, g, cs)[k].len() / 3,
    ensures
        ({
            let l = split_lists(pos, idx, g, cs)[k];
            let t1 = tri_at(l, m1);
            let t2 = tri_at(l, m2);
            &&& corner_sum_x(pos, t1) / (3 * cs) == corner_sum_x(pos, t2) / (3 * cs)
            &&& corner_sum_y(pos, t1) / (3 * cs) == corner_sum_y(pos, t2) / (3 * cs)
            &&& corner_sum_z(pos, t1) / (3 * cs) == corner_sum_z(pos, t2) / (3 * cs)
        }),
{
    let s = group_slice(idx, g);
    let n = whole_tris(s);
    let cells = first_seen(cells_upto(pos, s, cs, n));
    let c = cells[k];
    let l = split_lists(pos, idx, g, cs)[k];
    assert(l == tris_in_cell(pos, s, cs, c, n));
    lemma_cell_list_is_of_cell(pos, s, cs, c, n, m1);
    lemma_cell_list_is_of_cell(pos, s, cs, c, n, m2);
    let i1 = choose|i: int|
        0 <= i < n && tri_at(l, m1) == tri_at(s, i) && tri_cell(pos, tri_at(s, i), cs) == c;
    let i2 = choose|i: int|
        0 <= i < n && tri_at(l, m2) == tri_at(s, i) && tri_cell(pos, tri_at(s, i), cs) == c;
    lemma_tri_cell_is_floor(pos, tri_at(l, m1), cs);
    lemma_tri_cell_is_floor(pos, tri_at(l, m2), cs);
}

} // verus!
