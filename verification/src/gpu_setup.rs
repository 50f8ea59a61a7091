//! Choices made while setting up the GPU: which queue families draw and
//! present, which memory type backs an allocation, how large the
//! descriptor pool must be, and the format, size and sharing of the
//! swapchain.  The device is queried elsewhere; these functions decide on
//! what the queries returned.
use vstd::prelude::*;

verus! {

/// Queue families chosen for drawing and for presenting.
#[derive(Clone, Copy, Debug, PartialEq, Eq)]
pub struct QueueFamilyIndices {
    pub graphics: u32,
    pub present: u32,
}

/// Why a physical device cannot be used.
#[derive(Clone, Copy, Debug, PartialEq, Eq)]
pub enum SuitabilityError {
    /// No family draws, or none presents to the surface.
    MissingQueueFamilies,
}

/// `i` is the first position of `s` that holds `true`.
pub open spec fn first_true(s: Seq<bool>, i: int) -> bool {
    &&& 0 <= i < s.len()
    &&& s[i]
    &&& forall|j: int| 0 <= j < i ==> !s[j]
}

/// Some position of `s` holds `true`.
pub open spec fn any_true(s: Seq<bool>) -> bool {
    exists|i: int| 0 <= i < s.len() && s[i]
}

/// The first position of `s` that holds `true`.
fn first_true_index(s: &[bool]) -> (r: Option<u32>)
    requires
        s@.len() <= u32::MAX,
    ensures
        match r {
            Some(i) => first_true(s@, i as int),
            None => !any_true(s@),
        },
{
    let mut i: usize = 0;
    while i < s.len()
        invariant
            i <= s@.len() <= u32::MAX,
            forall|j: int| 0 <= j < i ==> !s@[j],
        decreases s.len() - i,
    {
        if s[i] {
            return Some(i as u32);
        }
        i = i + 1;
    }
    None
}

impl QueueFamilyIndices {
    /// Picks the first queue family that supports graphics and the first
    /// that can present to the surface.  `graphics[i]` says whether family
    /// `i` has the graphics flag; `present[i]` whether it presents.
    pub fn get(graphics: &[bool], present: &[bool]) -> (r: Result<Self, SuitabilityError>)
        requires
            graphics@.len() <= u32::MAX,
            present@.len() <= u32::MAX,
        ensures
            r is Ok <==> any_true(graphics@) && any_true(present@),
            r matches Ok(q) ==> first_true(graphics@, q.graphics as int) && first_true(
                present@,
                q.present as int,
            ),
            r matches Err(e) ==> e == SuitabilityError::MissingQueueFamilies,
    {
        let g = first_true_index(graphics);
        let p = first_true_index(present);
        match (g, p) {
            (Some(graphics), Some(present)) => Ok(QueueFamilyIndices { graphics, present }),
            _ => Err(SuitabilityError::MissingQueueFamilies),
        }
    }
}

/// Memory type `i` may back a resource whose allowed types are the bits of
/// `type_bits`, and its property flags include all of `wanted`.
pub open spec fn memory_type_fits(type_bits: u32, flags: u32, wanted: u32, i: int) -> bool {
    &&& type_bits & (1u32 << (i as u32)) != 0
    &&& flags & wanted == wanted
}

/// The first memory type that the resource allows and that has every
/// property in `wanted`; `memory_type_flags[i]` are the property flags of
/// type `i`.
pub fn find_memory_type(type_bits: u32, memory_type_flags: &[u32], wanted: u32) -> (r: Option<u32>)
    requires
        memory_type_flags@.len() <= 32,
    ensures
        match r {
            Some(i) => {
                &&& i < memory_type_flags@.len()
                &&& memory_type_fits(type_bits, memory_type_flags@[i as int], wanted, i as int)
                &&& forall|j: int|
                    0 <= j < i ==> !memory_type_fits(type_bits, memory_type_flags@[j], wanted, j)
            },
            None => forall|j: int|
                0 <= j < memory_type_flags@.len() ==> !memory_type_fits(
                    type_bits,
                    memory_type_flags@[j],
                    wanted,
                    j,
                ),
        },
{
    let mut i: u32 = 0;
    while (i as usize) < memory_type_flags.len()
        invariant
            i <= memory_type_flags@.len() <= 32,
            forall|j: int|
                0 <= j < i ==> !memory_type_fits(type_bits, memory_type_flags@[j], wanted, j),
        decreases memory_type_flags@.len() - i,
    {
        let flags = memory_type_flags[i as usize];
        if type_bits & (1u32 << i) != 0 && flags & wanted == wanted {
            return Some(i);
        }
        i = i + 1;
    }
    None
}

/// Sizes of the descriptor pool: two uniform buffers and one sampled image
/// per set.
#[derive(Clone, Copy, Debug, PartialEq, Eq)]
pub struct DescriptorPoolSizes {
    pub uniform_buffers: u32,
    pub image_samplers: u32,
    pub max_sets: u32,
}

/// Number of descriptor sets: one for the fallback texture and one per
/// level texture (at least one), for every swapchain image.
pub open spec fn total_sets(texture_count: int, swapchain_image_count: int) -> int {
    swapchain_image_count * (1 + if texture_count > 1 { texture_count } else { 1 })
}

/// The pool that the descriptor sets of every swapchain image are drawn
/// from.  Set counts are handed to the driver as `u32`, keeping the low
/// 32 bits.
pub fn descriptor_pool_sizes(texture_count: usize, swapchain_image_count: usize) -> (p: DescriptorPoolSizes)
    requires
        texture_count < usize::MAX,
        total_sets(texture_count as int, swapchain_image_count as int) <= usize::MAX,
        total_sets(texture_count as int, swapchain_image_count as int) % 0x1_0000_0000 * 2 <= u32::MAX,
    ensures
        p.max_sets == total_sets(texture_count as int, swapchain_image_count as int) % 0x1_0000_0000,
        p.image_samplers == p.max_sets,
        p.uniform_buffers == 2 * p.max_sets,
        total_sets(texture_count as int, swapchain_image_count as int) <= u32::MAX ==> p.max_sets
            >= swapchain_image_count * (1 + texture_count),
{
    let num_textures = if texture_count > 1 {
        texture_count
    } else {
        1
    };
    assert(swapchain_image_count * (1 + num_textures) >= 0) by (nonlinear_arith)
        requires
            num_textures >= 1,
    ;
    assert(swapchain_image_count * (1 + num_textures) >= swapchain_image_count * (1 + texture_count))
        by (nonlinear_arith)
        requires
            num_textures >= texture_count,
    ;
    let total = swapchain_image_count * (1 + num_textures);
    let total64: u64 = total as u64;
    let sets: u32 = #[verifier::truncate] (total64 as u32);
    assert(sets == total64 % 0x1_0000_0000) by (bit_vector)
        requires
            sets == total64 as u32,
    ;
    DescriptorPoolSizes { uniform_buffers: sets * 2, image_samplers: sets, max_sets: sets }
}

/// A format and colour space that the surface offers.
#[derive(Clone, Copy, Debug, PartialEq, Eq)]
pub struct SurfaceFormat {
    pub format: u32,
    pub color_space: u32,
}

/// The sRGB non-linear colour space.
pub const SRGB_NONLINEAR: u32 = 0;

/// Image count and extent bounds that the surface reports.
#[derive(Clone, Copy, Debug, PartialEq, Eq)]
pub struct SurfaceLimits {
    pub min_image_count: u32,
    pub min_width: u32,
    pub max_width: u32,
    pub min_height: u32,
    pub max_height: u32,
}

/// How the swapchain is to be made.
#[derive(Clone, Debug)]
pub struct SwapchainPlan {
    pub format: SurfaceFormat,
    pub image_count: u32,
    pub width: u32,
    pub height: u32,
    /// The queue families that share the images; empty when one family
    /// both draws and presents and the images are held exclusively.
    pub sharing_families: Vec<u32>,
}

/// Surface format `f`, whose optimal tiling allows storage images when
/// `storage_ok`, is the wanted format in the sRGB non-linear space.
pub open spec fn format_usable(f: SurfaceFormat, storage_ok: bool, wanted: u32) -> bool {
    storage_ok && f.format == wanted && f.color_space == SRGB_NONLINEAR
}

/// `v` held between `lo` and `hi`, where `lo` wins when the bounds cross.
pub open spec fn clamp_extent(v: u32, lo: u32, hi: u32) -> u32 {
    let capped = if hi < v {
        hi
    } else {
        v
    };
    if lo > capped {
        lo
    } else {
        capped
    }
}

/// The swapchain for a window of `width` by `height`: the wanted format in
/// the sRGB non-linear space (it must be offered with storage-image
/// support, else there is none), the surface's minimum image count, the
/// window size held to the surface's bounds, and the two queue families
/// sharing the images when they differ.
pub fn plan_swapchain(
    formats: &[SurfaceFormat],
    storage_ok: &[bool],
    wanted_format: u32,
    limits: SurfaceLimits,
    width: u32,
    height: u32,
    graphics_family: u32,
    present_family: u32,
) -> (p: Option<SwapchainPlan>)
    requires
        storage_ok@.len() == formats@.len(),
    ensures
        p is Some <==> exists|i: int|
            0 <= i < formats@.len() && format_usable(formats@[i], storage_ok@[i], wanted_format),
        p matches Some(plan) ==> {
            &&& plan.format == (SurfaceFormat { format: wanted_format, color_space: SRGB_NONLINEAR })
            &&& plan.image_count == limits.min_image_count
            &&& plan.width == clamp_extent(width, limits.min_width, limits.max_width)
            &&& plan.height == clamp_extent(height, limits.min_height, limits.max_height)
            &&& plan.sharing_families@ == if graphics_family == present_family {
                Seq::<u32>::empty()
            } else {
                seq![graphics_family, present_family]
            }
        },
{
    let mut chosen: Option<SurfaceFormat> = None;
    let mut i: usize = 0;
    while i < formats.len()
        invariant
            i <= formats@.len() == storage_ok@.len(),
            match chosen {
                Some(f) => f == (SurfaceFormat { format: wanted_format, color_space: SRGB_NONLINEAR })
                    && exists|j: int| 0 <= j < i && format_usable(formats@[j], storage_ok@[j], wanted_format),
                None => forall|j: int| 0 <= j < i ==> !format_usable(formats@[j], storage_ok@[j], wanted_format),
            },
        decreases formats.len() - i,
    {
        let f = formats[i];
        if storage_ok[i] && f.format == wanted_format && f.color_space == SRGB_NONLINEAR {
            chosen = Some(f);
        }
        i = i + 1;
    }
    match chosen {
        None => None,
        Some(format) => {
            let capped_w = if limits.max_width < width {
                limits.max_width
            } else {
                width
            };
            let capped_h = if limits.max_height < height {
                limits.max_height
            } else {
                height
            };
            let w = if limits.min_width > capped_w {
                limits.min_width
            } else {
                capped_w
            };
            let h = if limits.min_height > capped_h {
                limits.min_height
            } else {
                capped_h
            };
            let sharing_families = if graphics_family == present_family {
                Vec::new()
            } else {
                vec![graphics_family, present_family]
            };
            Some(
                SwapchainPlan {
                    format,
                    image_count: limits.min_image_count,
                    width: w,
                    height: h,
                    sharing_families,
                },
            )
        },
    }
}

} // verus!
