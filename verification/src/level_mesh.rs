//! Assembling a level's index buffer: the texture list shared by all draw
//! groups, appending a textured mesh as a new draw group, laying out the
//! parts of a model in order, and splitting convex polygons into triangle
//! fans.
use vstd::prelude::*;
use crate::draw_groups::DrawGroup;

verus! {

/// The textures of a level, each name listed once; a texture's number is
/// its position in the list.
pub struct TextureRegistry {
    pub names: Vec<String>,
}

/// No name occurs twice.
pub open spec fn distinct_names(names: Seq<String>) -> bool {
    forall|i: int, j: int| 0 <= i < j < names.len() ==> #[trigger] names[i]@ != #[trigger] names[j]@
}

/// The position of the first entry with text `t` (the length when none).
pub open spec fn position_of(names: Seq<String>, t: Seq<char>) -> int
    decreases names.len(),
{
    if names.len() == 0 {
        0
    } else if names[0]@ == t {
        0
    } else {
        1 + position_of(names.drop_first(), t)
    }
}

proof fn lemma_position_of(names: Seq<String>, t: Seq<char>)
    ensures
        0 <= position_of(names, t) <= names.len(),
        position_of(names, t) < names.len() ==> names[position_of(names, t)]@ == t,
        forall|k: int| 0 <= k < position_of(names, t) ==> #[trigger] names[k]@ != t,
    decreases names.len(),
{
    if names.len() > 0 && names[0]@ != t {
        lemma_position_of(names.drop_first(), t);
        assert forall|k: int| 0 <= k < position_of(names, t) implies #[trigger] names[k]@ != t by {
            if k > 0 {
                assert(names[k] == names.drop_first()[k - 1]);
            }
        }
    }
}

impl TextureRegistry {
    /// An empty registry.
    pub fn new() -> (r: Self)
        ensures
            r.names@.len() == 0,
    {
        TextureRegistry { names: Vec::new() }
    }

    /// The number of texture `name`, adding it at the end when it is new.
    pub fn index_of_or_insert(&mut self, name: &String) -> (idx: usize)
        ensures
            idx == position_of(old(self).names@, name@),
            position_of(old(self).names@, name@) < old(self).names@.len() ==> final(self).names@
                == old(self).names@,
            position_of(old(self).names@, name@) == old(self).names@.len() ==> final(self).names@
                == old(self).names@.push(*name),
            final(self).names@[idx as int]@ == name@,
            distinct_names(old(self).names@) ==> distinct_names(final(self).names@),
    {
        proof {
            lemma_position_of(self.names@, name@);
        }
        let mut k: usize = 0;
        while k < self.names.len()
            invariant
                k <= self.names@.len(),
                self.names@ == old(self).names@,
                forall|m: int| 0 <= m < k ==> #[trigger] self.names@[m]@ != name@,
                0 <= position_of(old(self).names@, name@) <= old(self).names@.len(),
                position_of(old(self).names@, name@) < old(self).names@.len() ==> old(
                    self,
                ).names@[position_of(old(self).names@, name@)]@ == name@,
                forall|m: int|
                    0 <= m < position_of(old(self).names@, name@) ==> #[trigger] old(
                        self,
                    ).names@[m]@ != name@,
            decreases self.names@.len() - k,
        {
            if self.names[k] == *name {
                return k;
            }
            k = k + 1;
        }
        let idx = self.names.len();
        let copy = name.clone();
        self.names.push(copy);
        proof {
            let old_names = old(self).names@;
            assert forall|i: int, j: int|
                distinct_names(old_names) && 0 <= i < j < self.names@.len() implies #[trigger] self.names@[i]@
                != #[trigger] self.names@[j]@ by {
                if j == old_names.len() {
                    assert(self.names@[i] == old_names[i]);
                } else {
                    assert(self.names@[i] == old_names[i]);
                    assert(self.names@[j] == old_names[j]);
                }
            }
        }
        idx
    }
}

/// Appends a textured mesh's indices, shifted by `vertex_base`, to the index
/// buffer, and a draw group of texture `texture_index` for them starting at
/// `first_index`.
pub fn append_mesh_group(
    indices: &mut Vec<u32>,
    draw_groups: &mut Vec<DrawGroup>,
    texture_index: usize,
    mesh_indices: &[u32],
    vertex_base: u32,
    first_index: u32,
)
    requires
        forall|k: int| 0 <= k < mesh_indices@.len() ==> vertex_base + #[trigger] mesh_indices@[k] <= u32::MAX,
    ensures
        final(indices)@ == old(indices)@ + mesh_indices@.map_values(|i: u32| (vertex_base + i) as u32),
        final(draw_groups)@ == old(draw_groups)@.push(
            DrawGroup {
                texture_index,
                first_index,
                index_count: mesh_indices@.len() as u32,
                vertex_offset: 0,
            },
        ),
{
    let mut k: usize = 0;
    while k < mesh_indices.len()
        invariant
            k <= mesh_indices@.len(),
            forall|m: int| 0 <= m < mesh_indices@.len() ==> vertex_base + #[trigger] mesh_indices@[m] <= u32::MAX,
            indices@ == old(indices)@ + mesh_indices@.map_values(|i: u32| (vertex_base + i) as u32).take(
                k as int,
            ),
        decreases mesh_indices.len() - k,
    {
        assert(vertex_base + mesh_indices@[k as int] <= u32::MAX);
        indices.push(vertex_base + mesh_indices[k]);
        assert(indices@ =~= old(indices)@ + mesh_indices@.map_values(|i: u32| (vertex_base + i) as u32).take(
            k + 1,
        ));
        k = k + 1;
    }
    assert(mesh_indices@.map_values(|i: u32| (vertex_base + i) as u32).take(mesh_indices@.len() as int)
        =~= mesh_indices@.map_values(|i: u32| (vertex_base + i) as u32));
    draw_groups.push(
        DrawGroup {
            texture_index,
            first_index,
            index_count: mesh_indices.len() as u32,
            vertex_offset: 0,
        },
    );
}

/// The triangles `(0, i, i + 1)` for `i` in `1 .. n - 1`: a fan over a
/// convex polygon of `n` corners (none when `n < 3`).
pub open spec fn fan(n: int) -> Seq<(usize, usize, usize)> {
    Seq::new(
        if n >= 3 {
            (n - 2) as nat
        } else {
            0nat
        },
        |k: int| (0usize, (k + 1) as usize, (k + 2) as usize),
    )
}

/// Splits a convex polygon of `n` corners into a triangle fan around its
/// first corner.
pub fn fan_triangles(n: usize) -> (tris: Vec<(usize, usize, usize)>)
    ensures
        tris@ == fan(n as int),
{
    let mut tris: Vec<(usize, usize, usize)> = Vec::new();
    let end = if n >= 1 {
        n - 1
    } else {
        0
    };
    let mut i: usize = 1;
    while i < end
        invariant
            1 <= i,
            end == if n >= 1 {
                n - 1
            } else {
                0
            },
            i <= end || i == 1,
            tris@ == fan(n as int).take(i - 1),
        decreases end - i,
    {
        tris.push((0, i, i + 1));
        assert(tris@ =~= fan(n as int).take(i as int));
        i = i + 1;
    }
    assert(fan(n as int).take(fan(n as int).len() as int) =~= fan(n as int));
    tris
}

/// One textured piece of a model: its texture, how many vertices it adds to
/// the vertex buffer, and its indices (relative to its own vertices).
#[derive(Clone, Debug)]
pub struct MeshPart {
    pub texture_name: String,
    pub vertex_count: usize,
    pub indices: Vec<u32>,
}

/// A part is laid out unless empty parts are skipped and it has no indices.
pub open spec fn part_kept(p: MeshPart, skip_empty: bool) -> bool {
    !(skip_empty && p.indices@.len() == 0)
}

/// The level buffers: texture names, vertex count, index buffer, draw
/// groups, and the numbers of the draw groups added so far.
pub type LayoutState = (Seq<String>, int, Seq<u32>, Seq<DrawGroup>, Seq<usize>);

/// The buffers after the first `k` of `parts` are laid out from `s0`: each
/// kept part gets its texture's number (registering a new name at the end),
/// its indices shifted by the vertex count so far and appended, and one
/// draw group over them, numbered after the groups before it.
pub open spec fn laid_out(s0: LayoutState, parts: Seq<MeshPart>, skip_empty: bool, k: int) -> LayoutState
    decreases k,
{
    if k <= 0 {
        s0
    } else {
        let s = laid_out(s0, parts, skip_empty, k - 1);
        let p = parts[k - 1];
        if !part_kept(p, skip_empty) {
            s
        } else {
            let pos = position_of(s.0, p.texture_name@);
            let names = if pos < s.0.len() {
                s.0
            } else {
                s.0.push(p.texture_name)
            };
            let base = (s.1 as u32) as int;
            (
                names,
                s.1 + p.vertex_count,
                s.2 + p.indices@.map_values(|i: u32| (base + i) as u32),
                s.3.push(
                    DrawGroup {
                        texture_index: pos as usize,
                        first_index: s.2.len() as u32,
                        index_count: p.indices@.len() as u32,
                        vertex_offset: 0,
                    },
                ),
                s.4.push(s.3.len() as usize),
            )
        }
    }
}

/// Lays out the textured parts of a model (the level's world, a placed
/// model, a sub-model or a sky model) after what the buffers already hold,
/// in order, and returns the numbers of the draw groups it added.  The
/// vertex count is kept in `vertex_total`; shifted indices are 32-bit, with
/// the vertex count taken to 32 bits as the index base.
pub fn lay_out_parts(
    registry: &mut TextureRegistry,
    vertex_total: &mut usize,
    indices: &mut Vec<u32>,
    draw_groups: &mut Vec<DrawGroup>,
    parts: &[MeshPart],
    skip_empty: bool,
) -> (added: Vec<usize>)
    requires
        laid_out(
            (old(registry).names@, *old(vertex_total) as int, old(indices)@, old(draw_groups)@, Seq::empty()),
            parts@,
            skip_empty,
            parts@.len() as int,
        ).1 <= usize::MAX,
        forall|k: int, j: int|
            0 <= k < parts@.len() && part_kept(parts@[k], skip_empty) && 0 <= j < parts@[k].indices@.len()
                ==> ((laid_out(
                (old(registry).names@, *old(vertex_total) as int, old(indices)@, old(draw_groups)@, Seq::empty()),
                parts@,
                skip_empty,
                k,
            ).1 as u32) as int) + #[trigger] parts@[k].indices@[j] <= u32::MAX,
    ensures
        ({
            let s = laid_out(
                (old(registry).names@, *old(vertex_total) as int, old(indices)@, old(draw_groups)@, Seq::empty()),
                parts@,
                skip_empty,
                parts@.len() as int,
            );
            &&& final(registry).names@ == s.0
            &&& *final(vertex_total) == s.1
            &&& final(indices)@ == s.2
            &&& final(draw_groups)@ == s.3
            &&& added@ == s.4
        }),
        distinct_names(old(registry).names@) ==> distinct_names(final(registry).names@),
        // The new groups are numbered on from the old ones: the first of
        // them (where, say, the sky models begin) is the old group count.
        added@.len() == final(draw_groups)@.len() - old(draw_groups)@.len(),
        forall|i: int| 0 <= i < added@.len() ==> #[trigger] added@[i] == old(draw_groups)@.len() + i,
        // One group per part laid out, in order, naming that part's texture.
        added@.len() == kept_names(parts@, skip_empty, parts@.len() as int).len(),
        forall|j: int|
            0 <= j < added@.len() ==> {
                let t = (#[trigger] final(draw_groups)@[added@[j] as int]).texture_index as int;
                &&& 0 <= t < final(registry).names@.len()
                &&& final(registry).names@[t]@ == kept_names(parts@, skip_empty, parts@.len() as int)[j]
            },
{
    let ghost s0: LayoutState = (registry.names@, *vertex_total as int, indices@, draw_groups@, Seq::empty());
    let ghost distinct0 = distinct_names(registry.names@);
    let mut added: Vec<usize> = Vec::new();
    let mut k: usize = 0;
    proof {
        lemma_laid_out_vertices_grow(s0, parts@, skip_empty, parts@.len() as int);
    }
    while k < parts.len()
        invariant
            k <= parts@.len(),
            s0.1 >= 0,
            laid_out(s0, parts@, skip_empty, parts@.len() as int).1 <= usize::MAX,
            forall|m: int| 0 <= m <= parts@.len() ==> #[trigger] laid_out(s0, parts@, skip_empty, m).1
                <= laid_out(s0, parts@, skip_empty, parts@.len() as int).1,
            forall|m: int, j: int|
                0 <= m < parts@.len() && part_kept(parts@[m], skip_empty) && 0 <= j < parts@[m].indices@.len()
                    ==> ((laid_out(s0, parts@, skip_empty, m).1 as u32) as int) + #[trigger] parts@[m].indices@[j]
                    <= u32::MAX,
            ({
                let s = laid_out(s0, parts@, skip_empty, k as int);
                &&& registry.names@ == s.0
                &&& *vertex_total == s.1
                &&& indices@ == s.2
                &&& draw_groups@ == s.3
                &&& added@ == s.4
            }),
            distinct0 ==> distinct_names(registry.names@),
        decreases parts.len() - k,
    {
        let part = &parts[k];
        if skip_empty && part.indices.len() == 0 {
            proof {
                assert(!part_kept(parts@[k as int], skip_empty));
                assert(laid_out(s0, parts@, skip_empty, k + 1) == laid_out(s0, parts@, skip_empty, k as int));
            }
            k = k + 1;
            continue;
        }
        let ghost names_before = registry.names@;
        proof {
            lemma_position_of(names_before, part.texture_name@);
        }
        let tex = registry.index_of_or_insert(&part.texture_name);
        let base: u32 = #[verifier::truncate] (*vertex_total as u32);
        let first: u32 = #[verifier::truncate] (indices.len() as u32);
        let group_number = draw_groups.len();
        proof {
            assert forall|j: int| 0 <= j < part.indices@.len() implies base + #[trigger] part.indices@[j]
                <= u32::MAX by {
                assert(parts@[k as int].indices@[j] == part.indices@[j]);
            }
        }
        append_mesh_group(indices, draw_groups, tex, part.indices.as_slice(), base, first);
        added.push(group_number);
        proof {
            assert(laid_out(s0, parts@, skip_empty, k + 1).1 <= laid_out(s0, parts@, skip_empty, parts@.len() as int).1);
        }
        *vertex_total = *vertex_total + part.vertex_count;
        proof {
            let s = laid_out(s0, parts@, skip_empty, k as int);
            let t = laid_out(s0, parts@, skip_empty, k + 1);
            assert(part.indices@.len() as u32 == part.indices.len() as u32);
            assert(draw_groups@ =~= t.3);
            assert(indices@ =~= t.2);
            assert(added@ =~= t.4);
            assert(registry.names@ == t.0);
            assert(*vertex_total == t.1);
        }
        k = k + 1;
    }
    let group_count = draw_groups.len();
    assert(group_count == draw_groups@.len());
    let name_count = registry.names.len();
    proof {
        lemma_laid_out_numbers(s0, parts@, skip_empty, parts@.len() as int);
        assert(name_count == registry.names@.len());
        lemma_laid_out_textures(s0, parts@, skip_empty, parts@.len() as int);
        let s = laid_out(s0, parts@, skip_empty, parts@.len() as int);
        assert forall|j: int| 0 <= j < added@.len() implies added@[j] as int == s0.3.len() + j by {}
    }
    added
}

/// The added group numbers run on from the groups there were.
proof fn lemma_laid_out_numbers(s0: LayoutState, parts: Seq<MeshPart>, skip_empty: bool, n: int)
    requires
        s0.4.len() == 0,
        laid_out(s0, parts, skip_empty, n).3.len() <= usize::MAX,
        0 <= n <= parts.len(),
    ensures
        laid_out(s0, parts, skip_empty, n).4.len() == laid_out(s0, parts, skip_empty, n).3.len()
            - s0.3.len(),
        forall|i: int|
            0 <= i < laid_out(s0, parts, skip_empty, n).4.len() ==> #[trigger] laid_out(
                s0,
                parts,
                skip_empty,
                n,
            ).4[i] == s0.3.len() + i,
    decreases n,
{
    if n > 0 {
        let s = laid_out(s0, parts, skip_empty, n - 1);
        assert(s.3.len() <= laid_out(s0, parts, skip_empty, n).3.len());
        lemma_laid_out_numbers(s0, parts, skip_empty, n - 1);
        if part_kept(parts[n - 1], skip_empty) {
            let t = laid_out(s0, parts, skip_empty, n);
            assert forall|i: int| 0 <= i < t.4.len() implies #[trigger] t.4[i] == s0.3.len() + i by {
                if i < s.4.len() {
                    assert(t.4[i] == s.4[i]);
                }
            }
        }
    }
}

/// The vertex count never shrinks while parts are laid out.
proof fn lemma_laid_out_vertices_grow(s0: LayoutState, parts: Seq<MeshPart>, skip_empty: bool, n: int)
    requires
        s0.1 >= 0,
    ensures
        forall|m: int| 0 <= m <= n ==> #[trigger] laid_out(s0, parts, skip_empty, m).1 <= laid_out(
            s0,
            parts,
            skip_empty,
            n,
        ).1,
    decreases n,
{
    if n > 0 {
        lemma_laid_out_vertices_grow(s0, parts, skip_empty, n - 1);
    }
}

/// The texture names of the parts among the first `k` that are laid out,
/// in order.
pub open spec fn kept_names(parts: Seq<MeshPart>, skip_empty: bool, k: int) -> Seq<Seq<char>>
    decreases k,
{
    if k <= 0 {
        Seq::empty()
    } else if !(skip_empty && parts[k - 1].indices@.len() == 0) {
        kept_names(parts, skip_empty, k - 1).push(parts[k - 1].texture_name@)
    } else {
        kept_names(parts, skip_empty, k - 1)
    }
}

/// Laying out parts adds one draw group per part laid out, in order, and
/// each new group's texture number names, in the texture list, the texture
/// of the part it was made from; the texture list only grows at its end.
pub proof fn lemma_laid_out_textures(s0: LayoutState, parts: Seq<MeshPart>, skip_empty: bool, n: int)
    requires
        0 <= n <= parts.len(),
        laid_out(s0, parts, skip_empty, n).0.len() <= usize::MAX,
    ensures
        ({
            let s = laid_out(s0, parts, skip_empty, n);
            let kept = kept_names(parts, skip_empty, n);
            &&& s.3.len() == s0.3.len() + kept.len()
            &&& s0.0.len() <= s.0.len()
            &&& forall|i: int| 0 <= i < s0.0.len() ==> #[trigger] s.0[i] == s0.0[i]
            &&& forall|j: int|
                0 <= j < kept.len() ==> {
                    let t = (#[trigger] s.3[s0.3.len() + j]).texture_index as int;
                    &&& 0 <= t < s.0.len()
                    &&& s.0[t]@ == kept[j]
                }
        }),
    decreases n,
{
    if n > 0 {
        let sp = laid_out(s0, parts, skip_empty, n - 1);
        let s = laid_out(s0, parts, skip_empty, n);
        assert(sp.0.len() <= s.0.len());
        lemma_laid_out_textures(s0, parts, skip_empty, n - 1);
        let p = parts[n - 1];
        if part_kept(p, skip_empty) {
            lemma_position_of(sp.0, p.texture_name@);
            let kept = kept_names(parts, skip_empty, n);
            let kp = kept_names(parts, skip_empty, n - 1);
            assert forall|j: int| 0 <= j < kept.len() implies {
                let t = (#[trigger] s.3[s0.3.len() + j]).texture_index as int;
                &&& 0 <= t < s.0.len()
                &&& s.0[t]@ == kept[j]
            } by {
                if j < kp.len() {
                    assert(s.3[s0.3.len() + j] == sp.3[s0.3.len() + j]);
                    let t = sp.3[s0.3.len() + j].texture_index as int;
                    assert(s.0[t] == sp.0[t]);
                } else {
                    assert(s.3[s0.3.len() + j] == s.3[sp.3.len() as int]);
                }
            }
        }
    }
}

/// The vertices that the parts among the first `k` laid out bring.
pub open spec fn kept_vertices(parts: Seq<MeshPart>, skip_empty: bool, k: int) -> int
    decreases k,
{
    if k <= 0 {
        0
    } else if !(skip_empty && parts[k - 1].indices@.len() == 0) {
        kept_vertices(parts, skip_empty, k - 1) + parts[k - 1].vertex_count
    } else {
        kept_vertices(parts, skip_empty, k - 1)
    }
}

/// Laying out parts adds exactly the vertices of the parts laid out, and
/// the indices of all of them, to the buffers; what the buffers held
/// before stays in front.
pub proof fn lemma_laid_out_totals(s0: LayoutState, parts: Seq<MeshPart>, skip_empty: bool, n: int)
    requires
        0 <= n <= parts.len(),
    ensures
        laid_out(s0, parts, skip_empty, n).1 == s0.1 + kept_vertices(parts, skip_empty, n),
        laid_out(s0, parts, skip_empty, n).2.len() >= s0.2.len(),
        laid_out(s0, parts, skip_empty, n).2.subrange(0, s0.2.len() as int) == s0.2,
        laid_out(s0, parts, skip_empty, n).3.len() >= s0.3.len(),
        laid_out(s0, parts, skip_empty, n).3.subrange(0, s0.3.len() as int) == s0.3,
    decreases n,
{
    if n > 0 {
        lemma_laid_out_totals(s0, parts, skip_empty, n - 1);
        let sp = laid_out(s0, parts, skip_empty, n - 1);
        let s = laid_out(s0, parts, skip_empty, n);
        if part_kept(parts[n - 1], skip_empty) {
            assert(s.2.subrange(0, s0.2.len() as int) =~= sp.2.subrange(0, s0.2.len() as int));
            assert(s.3.subrange(0, s0.3.len() as int) =~= sp.3.subrange(0, s0.3.len() as int));
        }
    }
}

} // verus!
