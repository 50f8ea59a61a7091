//! Placed creatures and their idle animation: uniformly spaced keyframe
//! meshes, one of which a draw group shows at a time.
//!
//! Animation time is kept in whole milliseconds.
use vstd::prelude::*;
use crate::draw_groups::DrawGroup;
use crate::geometry::Vector3;

verus! {

broadcast use vstd::string::to_string_from_display_ensures_for_str;

/// A creature model placed in the world.
#[derive(Clone, Debug)]
pub struct CreatureObject {
    pub position: Vector3,
    pub draw_group: usize,
    pub class_name: String,
    /// First index, in the global index buffer, of each animation frame.
    pub frame_first_indices: Vec<u32>,
    /// Index count (the same for all frames).
    pub index_count: u32,
    /// Number of uniformly spaced frames.
    pub num_frames: usize,
    /// Animation length in milliseconds.
    pub anim_duration_ms: u32,
    /// Current animation time in milliseconds (loops).
    pub anim_time_ms: u32,
    /// Frame currently shown.
    pub current_frame: usize,
}

/// A creature at `pos` drawn by draw group `dg`, with no animation yet.
pub fn parse(pos: Vector3, dg: usize, class_name: &str) -> (c: CreatureObject)
    ensures
        c.position == pos,
        c.draw_group == dg,
        c.class_name@ == class_name@,
        c.frame_first_indices@.len() == 0,
        c.index_count == 0,
        c.num_frames == 0,
        c.anim_duration_ms == 0,
        c.anim_time_ms == 0,
        c.current_frame == 0,
{
    CreatureObject {
        position: pos,
        draw_group: dg,
        class_name: class_name.to_string(),
        frame_first_indices: Vec::new(),
        index_count: 0,
        num_frames: 0,
        anim_duration_ms: 0,
        anim_time_ms: 0,
        current_frame: 0,
    }
}

/// Installs pre-computed animation frames: one first index per frame, the
/// common index count, and the animation length.
pub fn set_animation(
    creature: &mut CreatureObject,
    frame_first_indices: Vec<u32>,
    index_count: u32,
    _keyframe_times_ms: &[u32],
    duration_ms: u32,
)
    ensures
        final(creature).num_frames == frame_first_indices@.len(),
        final(creature).frame_first_indices@ == frame_first_indices@,
        final(creature).index_count == index_count,
        final(creature).anim_duration_ms == duration_ms,
        final(creature).anim_time_ms == old(creature).anim_time_ms,
        final(creature).current_frame == old(creature).current_frame,
        final(creature).position == old(creature).position,
        final(creature).draw_group == old(creature).draw_group,
        final(creature).class_name == old(creature).class_name,
{
    creature.num_frames = frame_first_indices.len();
    creature.frame_first_indices = frame_first_indices;
    creature.index_count = index_count;
    creature.anim_duration_ms = duration_ms;
}

/// Whether a creature's animation runs at all.
pub open spec fn animates(c: CreatureObject) -> bool {
    c.num_frames > 1 && c.anim_duration_ms > 0
}

/// Animation time after advancing by `dt_ms`, wrapped into the loop.
pub open spec fn advanced_time(c: CreatureObject, dt_ms: u32) -> int {
    (c.anim_time_ms + dt_ms) % (c.anim_duration_ms as int)
}

/// The frame shown at time `t`: `floor(t / duration * frames)`, wrapped.
pub open spec fn frame_at(c: CreatureObject, t: int) -> int {
    ((t * c.num_frames) / (c.anim_duration_ms as int)) % (c.num_frames as int)
}

/// Advances the idle animation by `dt_ms` milliseconds; when the frame
/// changes, points the creature's draw group (if it exists) at the new
/// frame's indices (if that frame has any).
pub fn update(creature: &mut CreatureObject, dt_ms: u32, draw_groups: &mut Vec<DrawGroup>)
    ensures
        !animates(*old(creature)) ==> *final(creature) == *old(creature) && final(draw_groups)@
            == old(draw_groups)@,
        animates(*old(creature)) ==> {
            let t = advanced_time(*old(creature), dt_ms);
            let f = frame_at(*old(creature), t);
            &&& final(creature).anim_time_ms == t
            &&& final(creature).current_frame == f
            &&& final(creature).frame_first_indices == old(creature).frame_first_indices
            &&& final(creature).num_frames == old(creature).num_frames
            &&& final(creature).anim_duration_ms == old(creature).anim_duration_ms
            &&& final(creature).index_count == old(creature).index_count
            &&& final(creature).draw_group == old(creature).draw_group
            &&& final(creature).position == old(creature).position
            &&& final(creature).class_name == old(creature).class_name
            &&& final(draw_groups)@ == if f != old(creature).current_frame && old(
                creature,
            ).draw_group < old(draw_groups)@.len() && f < old(
                creature,
            ).frame_first_indices@.len() {
                old(draw_groups)@.update(
                    old(creature).draw_group as int,
                    DrawGroup {
                        first_index: old(creature).frame_first_indices@[f],
                        index_count: old(creature).index_count,
                        ..old(draw_groups)@[old(creature).draw_group as int]
                    },
                )
            } else {
                old(draw_groups)@
            }
        },
{
    if creature.num_frames <= 1 || creature.anim_duration_ms == 0 {
        return;
    }
    let d = creature.anim_duration_ms as u64;
    let t = ((creature.anim_time_ms as u64 + dt_ms as u64) % d) as u32;
    creature.anim_time_ms = t;
    let n = creature.num_frames as u128;
    assert((t as int) * (n as int) <= 0xffff_ffff * 0xffff_ffff_ffff_ffff) by (nonlinear_arith)
        requires
            t <= 0xffff_ffff,
            n <= 0xffff_ffff_ffff_ffff,
    ;
    let frame_idx = (((t as u128 * n) / (d as u128)) % n) as usize;
    if frame_idx != creature.current_frame {
        creature.current_frame = frame_idx;
        if creature.draw_group < draw_groups.len() {
            if frame_idx < creature.frame_first_indices.len() {
                let old_group = draw_groups[creature.draw_group];
                let g = DrawGroup {
                    first_index: creature.frame_first_indices[frame_idx],
                    index_count: creature.index_count,
                    ..old_group
                };
                draw_groups.set(creature.draw_group, g);
            }
        }
    }
}

/// In a running animation the time stays inside the loop, and the frame is
/// `floor(t * frames / duration)`, always a valid frame: the wrap never
/// changes it.
pub proof fn lemma_frame_in_range(c: CreatureObject, dt_ms: u32)
    requires
        animates(c),
    ensures
        0 <= advanced_time(c, dt_ms) < c.anim_duration_ms,
        frame_at(c, advanced_time(c, dt_ms)) == (advanced_time(c, dt_ms) * c.num_frames) / (
        c.anim_duration_ms as int),
        0 <= frame_at(c, advanced_time(c, dt_ms)) < c.num_frames,
{
    let t = advanced_time(c, dt_ms);
    let n = c.num_frames as int;
    let d = c.anim_duration_ms as int;
    assert(0 <= t < d);
    assert(0 <= (t * n) / d < n) by (nonlinear_arith)
        requires
            0 <= t < d,
            n > 1,
            d > 0,
    {
        assert(t * n < d * n) by (nonlinear_arith)
            requires
                0 <= t < d,
                n > 1,
        ;
        assert(t * n >= 0) by (nonlinear_arith)
            requires
                0 <= t,
                n > 1,
        ;
    }
    vstd::arithmetic::div_mod::lemma_small_mod(((t * n) / d) as nat, n as nat);
}

/// A box-shaped region of the level counted as outdoors.
#[derive(Clone, Copy, Debug)]
pub struct OutsideDefObject {
    pub min: [i32; 3],
    pub max: [i32; 3],
}

impl OutsideDefObject {
    /// Whether point `p` lies in the region (boundary included).
    pub fn contains(&self, p: [i32; 3]) -> (r: bool)
        ensures
            r == (self.min[0] <= p[0] <= self.max[0] && self.min[1] <= p[1] <= self.max[1]
                && self.min[2] <= p[2] <= self.max[2]),
    {
        p[0] >= self.min[0] && p[0] <= self.max[0] && p[1] >= self.min[1] && p[1] <= self.max[1]
            && p[2] >= self.min[2] && p[2] <= self.max[2]
    }
}

} // verus!
