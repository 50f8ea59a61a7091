//! The mip chain of a texture: which level is scaled into which, and at
//! what sizes.  The blits themselves are recorded on the GPU elsewhere.
use vstd::prelude::*;

verus! {

/// One step of the chain: level `src_level`, of `src_width` by
/// `src_height`, is scaled into level `src_level + 1` of `dst_width` by
/// `dst_height`.
#[derive(Clone, Copy, Debug, PartialEq, Eq)]
pub struct MipBlit {
    pub src_level: u32,
    pub src_width: u32,
    pub src_height: u32,
    pub dst_width: u32,
    pub dst_height: u32,
}

/// The size of a level below one of size `x`: half, rounded down, and at
/// least one.
pub open spec fn next_level_size(x: u32) -> u32 {
    if x > 1 {
        (x / 2) as u32
    } else {
        1
    }
}

/// The size of level `k` of a chain whose level 0 has size `x`: halved
/// while it is above one.
pub open spec fn level_size(x: u32, k: nat) -> u32
    decreases k,
{
    if k == 0 {
        x
    } else {
        let p = level_size(x, (k - 1) as nat);
        if p > 1 {
            (p / 2) as u32
        } else {
            p
        }
    }
}

/// The blit of level `i` into level `i + 1`.
pub open spec fn blit_at(width: u32, height: u32, i: nat) -> MipBlit {
    MipBlit {
        src_level: i as u32,
        src_width: level_size(width, i),
        src_height: level_size(height, i),
        dst_width: next_level_size(level_size(width, i)),
        dst_height: next_level_size(level_size(height, i)),
    }
}

/// The blits that fill levels `1 .. mip_levels` of a `width` by `height`
/// texture, each from the level above it.  Whenever the texture is at
/// least one texel wide and high, each blit reads the extent that the one
/// before it wrote.
pub fn mip_blits(width: u32, height: u32, mip_levels: u32) -> (v: Vec<MipBlit>)
    requires
        mip_levels >= 1,
    ensures
        v@.len() == mip_levels - 1,
        forall|i: int| 0 <= i < v@.len() ==> #[trigger] v@[i] == blit_at(width, height, i as nat),
        width >= 1 && height >= 1 ==> forall|i: int|
            0 <= i < v@.len() - 1 ==> (#[trigger] v@[i]).dst_width == v@[i + 1].src_width
                && v@[i].dst_height == v@[i + 1].src_height,
{
    let mut v: Vec<MipBlit> = Vec::new();
    let mut w = width;
    let mut h = height;
    let mut i: u32 = 1;
    while i < mip_levels
        invariant
            1 <= i <= mip_levels,
            v@.len() == i - 1,
            w == level_size(width, (i - 1) as nat),
            h == level_size(height, (i - 1) as nat),
            forall|k: int| 0 <= k < v@.len() ==> #[trigger] v@[k] == blit_at(width, height, k as nat),
        decreases mip_levels - i,
    {
        let dst_w = if w > 1 {
            w / 2
        } else {
            1
        };
        let dst_h = if h > 1 {
            h / 2
        } else {
            1
        };
        v.push(MipBlit { src_level: i - 1, src_width: w, src_height: h, dst_width: dst_w, dst_height: dst_h });
        if w > 1 {
            w = w / 2;
        }
        if h > 1 {
            h = h / 2;
        }
        i = i + 1;
    }
    proof {
        if width >= 1 && height >= 1 {
            assert forall|k: int| 0 <= k < v@.len() - 1 implies (#[trigger] v@[k]).dst_width
                == v@[k + 1].src_width && v@[k].dst_height == v@[k + 1].src_height by {
                lemma_level_size_positive(width, k as nat);
                lemma_level_size_positive(height, k as nat);
                assert(v@[k + 1] == blit_at(width, height, (k + 1) as nat));
            }
        }
    }
    v
}

/// Every level of a chain that starts at one texel or more has at least
/// one texel.
pub proof fn lemma_level_size_positive(x: u32, k: nat)
    requires
        x >= 1,
    ensures
        level_size(x, k) >= 1,
    decreases k,
{
    if k > 0 {
        lemma_level_size_positive(x, (k - 1) as nat);
    }
}

} // verus!
