//! Packed Vulkan version numbers.
use vstd::prelude::*;

verus! {

/// The packed version word: variant in bits 29..32, major in bits 22..29,
/// minor in bits 12..22, patch in bits 0..12 (fields overlapping when out
/// of range, as the shifts and `|` make them).
pub open spec fn packed_version(variant: u32, major: u32, minor: u32, patch: u32) -> u32 {
    (variant << 29u32) | (major << 22u32) | (minor << 12u32) | patch
}

/// Packs a version number from its four fields.
pub fn make_version(variant: u32, major: u32, minor: u32, patch: u32) -> (v: u32)
    ensures
        v == packed_version(variant, major, minor, patch),
{
    (variant << 29u32) | (major << 22u32) | (minor << 12u32) | patch
}

/// Fields within their widths come back out of the packed word unchanged.
pub proof fn lemma_version_fields_recoverable(variant: u32, major: u32, minor: u32, patch: u32)
    requires
        variant < 8,
        major < 128,
        minor < 1024,
        patch < 4096,
    ensures
        packed_version(variant, major, minor, patch) >> 29u32 == variant,
        (packed_version(variant, major, minor, patch) >> 22u32) & 0x7fu32 == major,
        (packed_version(variant, major, minor, patch) >> 12u32) & 0x3ffu32 == minor,
        packed_version(variant, major, minor, patch) & 0xfffu32 == patch,
{
    assert(((variant << 29u32) | (major << 22u32) | (minor << 12u32) | patch) >> 29u32 == variant)
        by (bit_vector)
        requires
            variant < 8,
            major < 128,
            minor < 1024,
            patch < 4096,
    ;
    assert((((variant << 29u32) | (major << 22u32) | (minor << 12u32) | patch) >> 22u32) & 0x7fu32
        == major) by (bit_vector)
        requires
            variant < 8,
            major < 128,
            minor < 1024,
            patch < 4096,
    ;
    assert((((variant << 29u32) | (major << 22u32) | (minor << 12u32) | patch) >> 12u32)
        & 0x3ffu32 == minor) by (bit_vector)
        requires
            variant < 8,
            major < 128,
            minor < 1024,
            patch < 4096,
    ;
    assert(((variant << 29u32) | (major << 22u32) | (minor << 12u32) | patch) & 0xfffu32 == patch)
        by (bit_vector)
        requires
            variant < 8,
            major < 128,
            minor < 1024,
            patch < 4096,
    ;
}

} // verus!
