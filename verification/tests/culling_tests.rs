use rust_kpc::culling::{GroupAabb, OcclusionCuller};
use rust_kpc::geometry::Vector3;

#[test]
fn group_box_from_positions() {
    assert_eq!(GroupAabb::from_positions(&[]), GroupAabb { min: [0, 0, 0], max: [0, 0, 0] });
    let b = GroupAabb::from_positions(&[[1, 5, -2], [-3, 7, 0], [2, 6, 4]]);
    assert_eq!(b, GroupAabb { min: [-3, 5, -2], max: [2, 7, 4] });
}

#[test]
fn group_box_corners() {
    let b = GroupAabb { min: [0, 1, 2], max: [3, 4, 5] };
    let c = b.corners();
    assert_eq!(c[0], Vector3::new(0, 1, 2));
    assert_eq!(c[1], Vector3::new(3, 1, 2));
    assert_eq!(c[2], Vector3::new(0, 4, 2));
    assert_eq!(c[3], Vector3::new(3, 4, 2));
    assert_eq!(c[4], Vector3::new(0, 1, 5));
    assert_eq!(c[7], Vector3::new(3, 4, 5));
}

#[test]
fn build_from_groups_skips_missing_vertices() {
    let verts = [[0, 0, 0], [10, -5, 3], [4, 4, 4]];
    let indices = [0u32, 1, 9, 2, 2];
    let mut c = OcclusionCuller::new();
    c.build_from_groups(&verts, &indices, &[(0, 3), (2, 1), (3, 10)]);
    assert_eq!(c.group_aabbs.len(), 3);
    assert_eq!(c.group_aabbs[0], GroupAabb { min: [0, -5, 0], max: [10, 0, 3] });
    // Only a missing vertex: the empty-box marker.
    assert_eq!(
        c.group_aabbs[1],
        GroupAabb { min: [i32::MAX, i32::MAX, i32::MAX], max: [i32::MIN, i32::MIN, i32::MIN] }
    );
    // Cut at the end of the index buffer.
    assert_eq!(c.group_aabbs[2], GroupAabb { min: [4, 4, 4], max: [4, 4, 4] });
    assert_eq!(c.visibility, vec![true, true, true]);
}

#[test]
fn cull_records_visibility_and_counts() {
    let mut c = OcclusionCuller::new();
    c.build_from_groups(&[[0, 0, 0]], &[0u32], &[(0, 1), (0, 1), (0, 1)]);
    c.cull(&[false, true, false]);
    assert_eq!(c.visibility, vec![true, false, true]);
    assert_eq!(c.last_total, 3);
    assert_eq!(c.last_visible, 2);
    assert!(c.is_visible(0));
    assert!(!c.is_visible(1));
    // Groups the pass did not cover count as visible.
    assert!(c.is_visible(17));
}

#[test]
fn rebuild_keeps_old_visibility_and_adds_visible() {
    let mut c = OcclusionCuller::new();
    c.build_from_groups(&[[0, 0, 0]], &[0u32], &[(0, 1), (0, 1)]);
    c.cull(&[true, true]);
    c.build_from_groups(&[[0, 0, 0]], &[0u32], &[(0, 1), (0, 1), (0, 1)]);
    assert_eq!(c.visibility, vec![false, false, true]);
}
