use rust_kpc::gpu_setup::{
    descriptor_pool_sizes, find_memory_type, plan_swapchain, QueueFamilyIndices, SuitabilityError,
    SurfaceFormat, SurfaceLimits, SRGB_NONLINEAR,
};
use rust_kpc::mipmaps::{mip_blits, MipBlit};

#[test]
fn queue_families_pick_first_capable() {
    let q = QueueFamilyIndices::get(&[false, true, true], &[false, false, true, true]).unwrap();
    assert_eq!(q, QueueFamilyIndices { graphics: 1, present: 2 });
    let same = QueueFamilyIndices::get(&[true], &[true]).unwrap();
    assert_eq!(same, QueueFamilyIndices { graphics: 0, present: 0 });
}

#[test]
fn queue_families_missing_is_an_error() {
    assert_eq!(QueueFamilyIndices::get(&[false, false], &[true]), Err(SuitabilityError::MissingQueueFamilies));
    assert_eq!(QueueFamilyIndices::get(&[true], &[]), Err(SuitabilityError::MissingQueueFamilies));
}

#[test]
fn memory_type_is_first_allowed_with_properties() {
    // Types 0 and 2 are device local (bit 0); the resource allows types 1 and 2.
    let flags = [0b1, 0b110, 0b111];
    assert_eq!(find_memory_type(0b110, &flags, 0b1), Some(2));
    assert_eq!(find_memory_type(0b111, &flags, 0b1), Some(0));
    assert_eq!(find_memory_type(0b111, &flags, 0b110), Some(1));
    assert_eq!(find_memory_type(0b010, &flags, 0b1), None);
    assert_eq!(find_memory_type(0b1000, &flags, 0), None);
}

#[test]
fn descriptor_pool_covers_every_set() {
    let p = descriptor_pool_sizes(5, 3);
    assert_eq!(p.max_sets, 18);
    assert_eq!(p.image_samplers, 18);
    assert_eq!(p.uniform_buffers, 36);
    // With no level textures the pool still counts one.
    let q = descriptor_pool_sizes(0, 2);
    assert_eq!(q.max_sets, 4);
    assert_eq!(q.uniform_buffers, 8);
}

fn limits() -> SurfaceLimits {
    SurfaceLimits { min_image_count: 2, min_width: 16, max_width: 1920, min_height: 16, max_height: 1080 }
}

#[test]
fn swapchain_plan_uses_wanted_format_and_clamps() {
    let formats = [
        SurfaceFormat { format: 44, color_space: SRGB_NONLINEAR },
        SurfaceFormat { format: 37, color_space: SRGB_NONLINEAR },
        SurfaceFormat { format: 37, color_space: 1000104001 },
    ];
    let plan = plan_swapchain(&formats, &[true, true, true], 37, limits(), 4000, 8, 0, 0).unwrap();
    assert_eq!(plan.format, SurfaceFormat { format: 37, color_space: SRGB_NONLINEAR });
    assert_eq!(plan.image_count, 2);
    assert_eq!((plan.width, plan.height), (1920, 16));
    assert!(plan.sharing_families.is_empty());
    let shared = plan_swapchain(&formats, &[true, true, true], 37, limits(), 800, 600, 0, 1).unwrap();
    assert_eq!((shared.width, shared.height), (800, 600));
    assert_eq!(shared.sharing_families, vec![0, 1]);
}

#[test]
fn swapchain_plan_needs_storage_support() {
    let formats = [SurfaceFormat { format: 37, color_space: SRGB_NONLINEAR }];
    assert!(plan_swapchain(&formats, &[false], 37, limits(), 800, 600, 0, 0).is_none());
    assert!(plan_swapchain(&formats, &[true], 44, limits(), 800, 600, 0, 0).is_none());
    assert!(plan_swapchain(&[], &[], 37, limits(), 800, 600, 0, 0).is_none());
}

#[test]
fn swapchain_extent_minimum_wins_when_bounds_cross() {
    let crossed = SurfaceLimits { min_image_count: 3, min_width: 100, max_width: 50, min_height: 10, max_height: 20 };
    let formats = [SurfaceFormat { format: 37, color_space: SRGB_NONLINEAR }];
    let plan = plan_swapchain(&formats, &[true], 37, crossed, 70, 15, 1, 1).unwrap();
    assert_eq!((plan.width, plan.height), (100, 15));
}

#[test]
fn mip_chain_halves_to_one() {
    let v = mip_blits(8, 2, 4);
    assert_eq!(
        v,
        vec![
            MipBlit { src_level: 0, src_width: 8, src_height: 2, dst_width: 4, dst_height: 1 },
            MipBlit { src_level: 1, src_width: 4, src_height: 1, dst_width: 2, dst_height: 1 },
            MipBlit { src_level: 2, src_width: 2, src_height: 1, dst_width: 1, dst_height: 1 },
        ]
    );
    for w in v.windows(2) {
        assert_eq!((w[0].dst_width, w[0].dst_height), (w[1].src_width, w[1].src_height));
    }
    assert!(mip_blits(256, 256, 1).is_empty());
    let odd = mip_blits(5, 3, 3);
    assert_eq!((odd[0].dst_width, odd[0].dst_height), (2, 1));
    assert_eq!((odd[1].src_width, odd[1].dst_width), (2, 1));
}
