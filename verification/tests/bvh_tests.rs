use rust_kpc::bvh::Bvh;
use rust_kpc::bvh_sort::sort_by_centroid;
use rust_kpc::geometry::{Vector3, AABB};

fn v(x: i32, y: i32, z: i32) -> Vector3 {
    Vector3::new(x, y, z)
}

/// `n` small triangles in a row along x, triangle `t` spanning x in [10t, 10t + 5].
fn row_mesh(n: u32) -> (Vec<Vector3>, Vec<u32>) {
    let mut pos = Vec::new();
    let mut idx = Vec::new();
    for t in 0..n {
        let x = 10 * t as i32;
        pos.push(v(x, 0, 0));
        pos.push(v(x + 5, 0, 0));
        pos.push(v(x, 5, 0));
        idx.extend_from_slice(&[3 * t, 3 * t + 1, 3 * t + 2]);
    }
    (pos, idx)
}

fn sorted(mut v: Vec<usize>) -> Vec<usize> {
    v.sort();
    v
}

#[test]
fn empty_mesh_gives_empty_tree_and_no_hits() {
    let bvh = Bvh::new(&[], &[]);
    assert!(bvh.nodes.is_empty());
    assert!(bvh.tri_indices.is_empty());
    let mut out = vec![7];
    bvh.query_aabb(&AABB { min: v(-100, -100, -100), max: v(100, 100, 100) }, &mut out);
    assert_eq!(out, vec![7]);
}

#[test]
fn small_mesh_is_a_single_leaf() {
    let (pos, idx) = row_mesh(8);
    let bvh = Bvh::new(&pos, &idx);
    assert_eq!(bvh.nodes.len(), 1);
    assert_eq!(bvh.nodes[0].count, 8);
    assert_eq!(bvh.nodes[0].aabb, AABB { min: v(0, 0, 0), max: v(75, 5, 0) });
    assert_eq!(bvh.tri_indices, (0..8).collect::<Vec<usize>>());
}

#[test]
fn tree_stores_every_triangle_once() {
    let (pos, idx) = row_mesh(40);
    let bvh = Bvh::new(&pos, &idx);
    assert_eq!(sorted(bvh.tri_indices.clone()), (0..40).collect::<Vec<usize>>());
    for n in &bvh.nodes {
        if n.count > 0 {
            assert!(n.count <= 8);
            assert!(n.left.is_none() && n.right.is_none());
        } else {
            assert!(n.left.is_some() && n.right.is_some());
        }
    }
}

#[test]
fn query_reports_overlapping_triangle() {
    let (pos, idx) = row_mesh(40);
    let bvh = Bvh::new(&pos, &idx);
    let mut out = Vec::new();
    bvh.query_aabb(&AABB { min: v(42, 1, -1), max: v(48, 2, 1) }, &mut out);
    assert!(out.contains(&4));
    assert!(!out.contains(&30));
    for t in &out {
        assert!(*t < 40);
    }
}

#[test]
fn query_far_away_reports_nothing() {
    let (pos, idx) = row_mesh(40);
    let bvh = Bvh::new(&pos, &idx);
    let mut out = Vec::new();
    bvh.query_aabb(&AABB { min: v(0, 100, 0), max: v(500, 200, 0) }, &mut out);
    assert!(out.is_empty());
}

#[test]
fn query_everything_reports_all_triangles() {
    let (pos, idx) = row_mesh(40);
    let bvh = Bvh::new(&pos, &idx);
    let mut out = vec![99];
    bvh.query_aabb(&AABB { min: v(-1000, -1000, -1000), max: v(1000, 1000, 1000) }, &mut out);
    assert_eq!(out[0], 99);
    assert_eq!(sorted(out[1..].to_vec()), (0..40).collect::<Vec<usize>>());
}

#[test]
fn split_sorts_by_centroid_along_axis() {
    // Three triangles given out of x order.
    let pos = vec![
        v(30, 0, 0), v(31, 0, 0), v(30, 1, 0),
        v(0, 0, 0), v(1, 0, 0), v(0, 1, 0),
        v(10, 0, 0), v(11, 0, 0), v(10, 1, 0),
    ];
    let idx: Vec<u32> = (0..9).collect();
    assert_eq!(sort_by_centroid(&pos, &idx, vec![0, 1, 2], 0), vec![1, 2, 0]);
}

#[test]
fn nine_triangles_split_at_median_of_longest_axis() {
    let mut pos = Vec::new();
    for k in 0..9 {
        pos.push(v(k, 0, 0));
        pos.push(v(k, 1, 0));
        pos.push(v(k, 0, 1));
    }
    let idx: Vec<u32> = (0u32..27).collect();
    let bvh = Bvh::new(&pos, &idx);
    assert_eq!(bvh.tri_indices, vec![0, 1, 2, 3, 4, 5, 6, 7, 8]);
    assert_eq!(bvh.nodes.len(), 3);
    let root = bvh.nodes[0];
    assert_eq!((root.count, root.left, root.right), (0, Some(1), Some(2)));
    assert_eq!((root.aabb.min, root.aabb.max), (v(0, 0, 0), v(8, 1, 1)));
    assert_eq!((bvh.nodes[1].start, bvh.nodes[1].count), (0, 4));
    assert_eq!((bvh.nodes[2].start, bvh.nodes[2].count), (4, 5));
    assert_eq!(bvh.nodes[2].aabb.min, v(4, 0, 0));
    // A box holding the root box reports every triangle once, in storage order.
    let mut out = vec![99];
    bvh.query_aabb(&AABB { min: v(-1, -1, -1), max: v(9, 2, 2) }, &mut out);
    assert_eq!(out, vec![99, 0, 1, 2, 3, 4, 5, 6, 7, 8]);
}
