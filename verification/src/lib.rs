//! Verified core of a KISS Psycho Circus level renderer: integer-coordinate
//! geometry, the triangle bounding volume hierarchy used for collision
//! queries, draw-group subdivision and culling bookkeeping, texture pixel
//! processing and naming, the choices made while setting up the GPU, and
//! small pieces of game state.
pub mod geometry;
pub mod geometry_laws;
pub mod bvh_sort;
pub mod bvh;
pub mod bvh_laws;
pub mod draw_groups;
pub mod draw_groups_laws;
pub mod culling;
pub mod culling_laws;
pub mod text;
pub mod texture;
pub mod texture_names;
pub mod mipmaps;
pub mod gpu_setup;
pub mod objects;
pub mod object_kinds;
pub mod hit_scan;
pub mod creatures;
pub mod lights;
pub mod version;
pub mod world_list;
pub mod level_mesh;
pub mod texture_laws;
pub mod object_kinds_laws;
