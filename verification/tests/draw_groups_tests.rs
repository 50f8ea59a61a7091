use rust_kpc::draw_groups::{subdivide_draw_groups, DrawGroup};
use rust_kpc::geometry::Vector3;

fn v(x: i32, y: i32, z: i32) -> Vector3 {
    Vector3::new(x, y, z)
}

fn group(tex: usize, first: u32, count: u32) -> DrawGroup {
    DrawGroup { texture_index: tex, first_index: first, index_count: count, vertex_offset: 0 }
}

#[test]
fn small_groups_are_kept_whole() {
    let verts = vec![v(0, 0, 0), v(1, 0, 0), v(0, 1, 0)];
    let mut indices: Vec<u32> = vec![0, 1, 2, 2, 1, 0];
    let mut groups = vec![group(3, 3, 3), group(5, 0, 3)];
    subdivide_draw_groups(&verts, &mut indices, &mut groups, 16);
    assert_eq!(indices, vec![2, 1, 0, 0, 1, 2]);
    assert_eq!(groups, vec![group(3, 0, 3), group(5, 3, 3)]);
}

#[test]
fn small_group_is_cut_at_buffer_end() {
    let verts = vec![v(0, 0, 0)];
    let mut indices: Vec<u32> = vec![0, 0, 0, 0];
    let mut groups = vec![group(1, 2, 30)];
    subdivide_draw_groups(&verts, &mut indices, &mut groups, 16);
    assert_eq!(indices, vec![0, 0]);
    // The count is the cut length.
    assert_eq!(groups, vec![group(1, 0, 2)]);
}

#[test]
fn large_group_is_split_per_cell_in_first_seen_order() {
    // Vertex 0..2 near the origin (cell 0), vertex 3..5 around x = 40 (cell 2
    // for cell size 16), vertex 6..8 at negative x (cell -1).
    let verts = vec![
        v(0, 0, 0), v(1, 0, 0), v(0, 1, 0),
        v(40, 0, 0), v(41, 0, 0), v(40, 1, 0),
        v(-5, 0, 0), v(-4, 0, 0), v(-5, 1, 0),
    ];
    // 13 triangles (39 indices) alternating cells, plus a partial triangle.
    let cells = [0u32, 1, 0, 2, 1, 0, 0, 2, 1, 1, 0, 2, 0];
    let mut indices: Vec<u32> = Vec::new();
    for c in cells.iter() {
        indices.extend_from_slice(&[3 * c, 3 * c + 1, 3 * c + 2]);
    }
    indices.push(0);
    let mut groups = vec![group(7, 0, 40)];
    subdivide_draw_groups(&verts, &mut indices, &mut groups, 16);
    // Cells in order of first appearance: cell of tri 0 (x~0), tri 1 (x~40), tri 3 (x~-5).
    let mut expected = Vec::new();
    for &c in &[0u32, 1, 2] {
        for k in cells.iter().filter(|&&k| k == c) {
            expected.extend_from_slice(&[3 * k, 3 * k + 1, 3 * k + 2]);
        }
    }
    assert_eq!(indices, expected);
    assert_eq!(groups, vec![group(7, 0, 18), group(7, 18, 12), group(7, 30, 9)]);
}

#[test]
fn draw_group_default_is_zero() {
    assert_eq!(DrawGroup::default(), group(0, 0, 0));
}

fn alternating_mesh() -> (Vec<Vector3>, [u32; 13], Vec<u32>) {
    let verts = vec![
        v(0, 0, 0), v(1, 0, 0), v(0, 1, 0),
        v(40, 0, 0), v(41, 0, 0), v(40, 1, 0),
        v(-5, 0, 0), v(-4, 0, 0), v(-5, 1, 0),
    ];
    let cells = [0u32, 1, 0, 2, 1, 0, 0, 2, 1, 1, 0, 2, 0];
    let mut indices: Vec<u32> = Vec::new();
    for c in cells.iter() {
        indices.extend_from_slice(&[3 * c, 3 * c + 1, 3 * c + 2]);
    }
    (verts, cells, indices)
}

#[test]
fn zero_cell_size_groups_by_coordinate_sign() {
    let (verts, cells, mut indices) = alternating_mesh();
    let mut groups = vec![group(7, 0, 39)];
    subdivide_draw_groups(&verts, &mut indices, &mut groups, 0);
    // Triangles at x ~ 0.3 and x ~ 40 both have positive x and y: one cell.
    let mut expected = Vec::new();
    for k in cells.iter().filter(|&&k| k != 2) {
        expected.extend_from_slice(&[3 * k, 3 * k + 1, 3 * k + 2]);
    }
    for k in cells.iter().filter(|&&k| k == 2) {
        expected.extend_from_slice(&[3 * k, 3 * k + 1, 3 * k + 2]);
    }
    assert_eq!(indices, expected);
    assert_eq!(groups, vec![group(7, 0, 30), group(7, 30, 9)]);
}

#[test]
fn negative_cell_size_still_separates_cells() {
    let (verts, _cells, mut indices) = alternating_mesh();
    let mut groups = vec![group(7, 0, 39)];
    subdivide_draw_groups(&verts, &mut indices, &mut groups, -16);
    assert_eq!(groups, vec![group(7, 0, 18), group(7, 18, 12), group(7, 30, 9)]);
}
