use rust_kpc::draw_groups::DrawGroup;
use rust_kpc::level_mesh::{append_mesh_group, fan_triangles, lay_out_parts, MeshPart, TextureRegistry};

#[test]
fn registry_numbers_textures_in_first_seen_order() {
    let mut r = TextureRegistry::new();
    assert_eq!(r.index_of_or_insert(&"WALL".to_string()), 0);
    assert_eq!(r.index_of_or_insert(&"FLOOR".to_string()), 1);
    assert_eq!(r.index_of_or_insert(&"WALL".to_string()), 0);
    assert_eq!(r.index_of_or_insert(&"wall".to_string()), 2);
    assert_eq!(r.names, vec!["WALL".to_string(), "FLOOR".to_string(), "wall".to_string()]);
}

#[test]
fn mesh_group_is_appended_with_offset_indices() {
    let mut indices = vec![0u32, 1, 2];
    let mut groups = vec![DrawGroup { texture_index: 0, first_index: 0, index_count: 3, vertex_offset: 0 }];
    append_mesh_group(&mut indices, &mut groups, 5, &[0, 2, 1, 3], 10, 3);
    assert_eq!(indices, vec![0, 1, 2, 10, 12, 11, 13]);
    assert_eq!(groups[1], DrawGroup { texture_index: 5, first_index: 3, index_count: 4, vertex_offset: 0 });
}

#[test]
fn fan_over_polygons() {
    assert!(fan_triangles(0).is_empty());
    assert!(fan_triangles(2).is_empty());
    assert_eq!(fan_triangles(3), vec![(0, 1, 2)]);
    assert_eq!(fan_triangles(5), vec![(0, 1, 2), (0, 2, 3), (0, 3, 4)]);
}

fn part(name: &str, vertex_count: usize, indices: &[u32]) -> MeshPart {
    MeshPart { texture_name: name.to_string(), vertex_count, indices: indices.to_vec() }
}

#[test]
fn parts_are_laid_out_in_order() {
    let mut reg = TextureRegistry::new();
    reg.index_of_or_insert(&"SKY".to_string());
    let mut vertices = 5usize;
    let mut indices: Vec<u32> = vec![0, 1, 2];
    let mut groups = vec![DrawGroup { texture_index: 0, first_index: 0, index_count: 3, vertex_offset: 0 }];
    let parts = [part("WALL", 3, &[0, 1, 2]), part("FLOOR", 2, &[]), part("WALL", 4, &[1, 2, 3])];
    let added = lay_out_parts(&mut reg, &mut vertices, &mut indices, &mut groups, &parts, true);
    // The empty part is skipped: its texture is not registered and its vertices not counted.
    assert_eq!(added, vec![1, 2]);
    assert_eq!(reg.names, vec!["SKY".to_string(), "WALL".to_string()]);
    assert_eq!(vertices, 12);
    assert_eq!(indices, vec![0, 1, 2, 5, 6, 7, 9, 10, 11]);
    assert_eq!(
        groups[1..],
        [
            DrawGroup { texture_index: 1, first_index: 3, index_count: 3, vertex_offset: 0 },
            DrawGroup { texture_index: 1, first_index: 6, index_count: 3, vertex_offset: 0 },
        ]
    );
    // Without skipping, the empty part gets a texture number and an empty group.
    let mut reg2 = TextureRegistry::new();
    let mut v2 = 0usize;
    let mut i2: Vec<u32> = Vec::new();
    let mut g2: Vec<DrawGroup> = Vec::new();
    let added2 = lay_out_parts(&mut reg2, &mut v2, &mut i2, &mut g2, &parts, false);
    assert_eq!(added2, vec![0, 1, 2]);
    assert_eq!(g2[1], DrawGroup { texture_index: 1, first_index: 3, index_count: 0, vertex_offset: 0 });
    assert_eq!(v2, 9);
}
