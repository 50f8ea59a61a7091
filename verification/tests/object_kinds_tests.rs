use rust_kpc::geometry::Vector3;
use rust_kpc::hit_scan::point_damage_target;
use rust_kpc::object_kinds::{
    is_ceiling_fan_model, object_kind, placed_objects, torch_flame, ObjectKind, PlacedObject,
};

#[test]
fn classes_with_behaviour() {
    assert_eq!(object_kind("CBarrel"), Some(ObjectKind::Barrel));
    assert_eq!(object_kind("CCrate"), Some(ObjectKind::Crate));
    assert_eq!(object_kind("CModelBreakable"), Some(ObjectKind::Crate));
    assert_eq!(object_kind("CDoorSliding"), Some(ObjectKind::Door));
    assert_eq!(object_kind("CSwitchRotating"), Some(ObjectKind::RotatingSwitch));
    assert_eq!(object_kind("CSwitchSlide"), Some(ObjectKind::SlideSwitch));
    assert_eq!(object_kind("CTorch"), Some(ObjectKind::Torch));
    assert_eq!(object_kind("CWindowShattering"), Some(ObjectKind::Window));
    assert_eq!(object_kind("CWaterVolume"), Some(ObjectKind::Water));
    assert_eq!(object_kind("CLadder"), Some(ObjectKind::Ladder));
    assert_eq!(object_kind("OutsideDef"), Some(ObjectKind::Outside));
}

#[test]
fn pickups_and_creatures() {
    assert_eq!(object_kind("CHealthItem_t"), Some(ObjectKind::Pickup));
    assert_eq!(object_kind("CPickupTrigger"), Some(ObjectKind::Pickup));
    assert_eq!(object_kind("CHeadlessBoss"), Some(ObjectKind::Creature));
    assert_eq!(object_kind("CRoly"), Some(ObjectKind::Creature));
    assert_eq!(object_kind("CPinHead"), Some(ObjectKind::Creature));
}

#[test]
fn classes_without_behaviour() {
    assert_eq!(object_kind("cbarrel"), None);
    assert_eq!(object_kind("CBarrel2"), None);
    assert_eq!(object_kind("Item_"), None);
    assert_eq!(object_kind("Headless"), None);
    assert_eq!(object_kind(""), None);
}

#[test]
fn ceiling_fans_by_upper_case_prefix() {
    assert!(is_ceiling_fan_model("CRotatingCeilingFan01"));
    assert!(is_ceiling_fan_model("crotatingceilingfan"));
    assert!(!is_ceiling_fan_model("RotatingCeilingFan"));
    assert!(!is_ceiling_fan_model("CROTATING"));
}

#[test]
fn torch_flame_first_entry_or_zero() {
    let flames = [(3, 10, 100), (1, 11, 110), (3, 12, 120)];
    assert_eq!(torch_flame(&flames, 3), (10, 100));
    assert_eq!(torch_flame(&flames, 1), (11, 110));
    assert_eq!(torch_flame(&flames, 2), (0, 0));
}

#[test]
fn hit_scan_strikes_nearest_in_reach() {
    let o = Vector3::new(0, 0, 0);
    let positions = [
        Some(Vector3::new(3, 0, 0)),
        None,
        Some(Vector3::new(0, 2, 0)),
        Some(Vector3::new(0, 0, -2)),
        Some(Vector3::new(1, 1, 1)),
    ];
    // Distances squared: 9, -, 4, 4, 3; reach 2 (squared 4) admits only the last.
    assert_eq!(point_damage_target(o, &positions, 2), Some(4));
    // Without the last, the two at distance 2 tie and the earlier wins; reach 3 admits them.
    assert_eq!(point_damage_target(o, &positions[..4], 3), Some(2));
    // Nothing is strictly closer than the reach.
    assert_eq!(point_damage_target(o, &positions[..4], 2), None);
    assert_eq!(point_damage_target(o, &[None, None], 100), None);
}

#[test]
fn placed_objects_keep_order_and_draw_groups() {
    let names: Vec<String> =
        ["CBarrel", "Prop", "CTorch", "CHeadless2", "Light"].iter().map(|s| s.to_string()).collect();
    let v = placed_objects(&names, 10);
    assert_eq!(
        v,
        vec![
            PlacedObject { kind: ObjectKind::Barrel, placed_index: 0, draw_group: 10 },
            PlacedObject { kind: ObjectKind::Torch, placed_index: 2, draw_group: 12 },
            PlacedObject { kind: ObjectKind::Creature, placed_index: 3, draw_group: 13 },
        ]
    );
    assert!(placed_objects(&[], usize::MAX).is_empty());
}
