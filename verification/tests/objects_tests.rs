use rust_kpc::creatures::{parse, set_animation, update, OutsideDefObject};
use rust_kpc::draw_groups::DrawGroup;
use rust_kpc::geometry::Vector3;
use rust_kpc::lights::is_light_class;
use rust_kpc::objects::{InputState, LoadingState, Settings, SkyPointerObject, WorldChooser};
use rust_kpc::version::make_version;
use rust_kpc::world_list::world_list;

#[test]
fn sky_pointer_prefers_explicit_target() {
    let p = SkyPointerObject { name: "sky".to_string(), sky_object_name: "clouds".to_string() };
    assert_eq!(p.target_name(), "clouds");
    let q = SkyPointerObject { name: "sky".to_string(), sky_object_name: String::new() };
    assert_eq!(q.target_name(), "sky");
}

#[test]
fn loading_state_defaults_to_ready() {
    assert_eq!(LoadingState::default(), LoadingState::Ready);
}

#[test]
fn settings_and_input_defaults() {
    assert!(Settings::default().dynamic_lighting);
    let i = InputState::default();
    assert!(!i.forward && !i.backward && !i.left && !i.right && !i.up && !i.down);
}

#[test]
fn world_chooser_selection_flow() {
    let mut c = WorldChooser::new(vec!["A/ONE.DAT".to_string(), "B/TWO.DAT".to_string()]);
    assert!(!c.visible);
    c.toggle();
    assert!(c.visible);
    c.select_index(5);
    assert_eq!(c.selected_index, 0);
    c.select_index(1);
    assert_eq!(c.selected_index, 1);
    assert_eq!(c.confirm_selection(), Some("B/TWO.DAT".to_string()));
    assert!(!c.visible);
    assert_eq!(c.take_pending_load(), None);
    c.pending_load = Some("X.DAT".to_string());
    assert_eq!(c.take_pending_load(), Some("X.DAT".to_string()));
    assert_eq!(c.pending_load, None);
}

#[test]
fn world_chooser_confirm_with_empty_list() {
    let mut c = WorldChooser::new(Vec::new());
    c.toggle();
    assert_eq!(c.confirm_selection(), None);
    assert!(c.visible);
}

#[test]
fn world_display_name_is_file_name() {
    assert_eq!(WorldChooser::get_world_display_name("REZ/WORLDS/E1/M1.DAT"), "M1.DAT");
    assert_eq!(WorldChooser::get_world_display_name("M2.DAT"), "M2.DAT");
}

#[test]
fn world_list_sorts_with_forward_slashes() {
    let l = world_list(vec![
        "REZ\\WORLDS\\B\\Z.DAT".to_string(),
        "REZ/WORLDS/A/Y.DAT".to_string(),
        "REZ/WORLDS/B/A.DAT".to_string(),
    ]);
    assert_eq!(
        l,
        vec![
            "REZ/WORLDS/A/Y.DAT".to_string(),
            "REZ/WORLDS/B/A.DAT".to_string(),
            "REZ/WORLDS/B/Z.DAT".to_string(),
        ]
    );
    assert!(world_list(Vec::new()).is_empty());
}

#[test]
fn version_packing() {
    assert_eq!(make_version(0, 1, 3, 216), (1 << 22) | (3 << 12) | 216);
    assert_eq!(make_version(0, 1, 0, 0), 0x0040_0000);
    assert_eq!(make_version(7, 0, 0, 0), 0xE000_0000);
}

#[test]
fn light_classes() {
    assert!(is_light_class("Light"));
    assert!(is_light_class("DirLight"));
    assert!(is_light_class("STATICLIGHT"));
    assert!(is_light_class("LightGroup"));
    assert!(!is_light_class("CBarrel"));
    assert!(!is_light_class("Lamp"));
}

#[test]
fn outside_region_contains_boundary() {
    let o = OutsideDefObject { min: [0, 0, 0], max: [10, 10, 10] };
    assert!(o.contains([10, 0, 5]));
    assert!(!o.contains([11, 0, 5]));
}

#[test]
fn creature_animation_steps_frames() {
    let mut c = parse(Vector3::new(1, 2, 3), 1, "CHeadless");
    assert_eq!(c.class_name, "CHeadless");
    let mut groups = vec![DrawGroup::default(), DrawGroup { texture_index: 4, first_index: 0, index_count: 0, vertex_offset: 0 }];
    // Not animated yet: nothing happens.
    update(&mut c, 100, &mut groups);
    assert_eq!(c.anim_time_ms, 0);
    set_animation(&mut c, vec![100, 200, 300, 400], 60, &[], 1000);
    assert_eq!(c.num_frames, 4);
    update(&mut c, 260, &mut groups);
    // 260 ms of 1000 ms with 4 frames: frame 1.
    assert_eq!(c.current_frame, 1);
    assert_eq!(groups[1], DrawGroup { texture_index: 4, first_index: 200, index_count: 60, vertex_offset: 0 });
    update(&mut c, 1000, &mut groups);
    // Loops back to the same time: no change of frame.
    assert_eq!(c.anim_time_ms, 260);
    assert_eq!(c.current_frame, 1);
    update(&mut c, 500, &mut groups);
    assert_eq!(c.anim_time_ms, 760);
    assert_eq!(c.current_frame, 3);
    assert_eq!(groups[1].first_index, 400);
}
