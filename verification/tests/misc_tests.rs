use ultra_render::engine::batch::create_batches;
use ultra_render::engine::canvas::{
    master_index, position_of_id, supports_synced_update, visible_in_z_order, SyncSignature,
};
use ultra_render::scene::animation::PlayState;
use ultra_render::scene::artboard::{parse_hex_color, ComponentDirt, Rgb8, DIRT_ALL, DIRT_TRANSFORM, DIRT_WORLD_TRANSFORM};

#[test]
fn hex_colors() {
    assert_eq!(parse_hex_color("#ff8800"), Rgb8 { r: 255, g: 136, b: 0 });
    assert_eq!(parse_hex_color("##0A0b0C"), Rgb8 { r: 10, g: 11, b: 12 });
    assert_eq!(parse_hex_color("ff"), Rgb8 { r: 255, g: 0, b: 0 });
    assert_eq!(parse_hex_color("#zz11"), Rgb8 { r: 0, g: 17, b: 0 });
    assert_eq!(parse_hex_color("#+f0000"), Rgb8 { r: 15, g: 0, b: 0 });
    assert_eq!(parse_hex_color(""), Rgb8 { r: 0, g: 0, b: 0 });
    assert_eq!(parse_hex_color("#é1122"), Rgb8 { r: 0, g: 17, b: 34 });
}

#[test]
fn dirt_flags() {
    let mut d = ComponentDirt::empty();
    let t = ComponentDirt::from_bits_truncate(DIRT_TRANSFORM | DIRT_WORLD_TRANSFORM);
    assert!(!d.intersects(t));
    d.insert(t);
    assert!(d.contains(t));
    assert_eq!(d.bits(), 6);
    d.remove(ComponentDirt::from_bits_truncate(DIRT_TRANSFORM));
    assert!(d.intersects(t));
    assert!(!d.contains(t));
    assert_eq!(ComponentDirt::all().bits(), DIRT_ALL);
    assert_eq!(ComponentDirt::from_bits_truncate(u32::MAX).bits(), 0x7FF);
}

#[test]
fn sprites_by_id_and_z_order() {
    let ids = vec![4u64, 9, 4];
    assert_eq!(position_of_id(&ids, 4), Some(0));
    assert_eq!(position_of_id(&ids, 9), Some(1));
    assert_eq!(position_of_id(&ids, 7), None);
    let z = vec![3, -1, 3, 0, -1];
    let visible = vec![true, true, true, false, true];
    assert_eq!(visible_in_z_order(&z, &visible), vec![1, 4, 0, 2]);
}

#[test]
fn batches_group_by_animation_name() {
    let names = vec!["a".to_string(), "b".to_string(), "a".to_string(), "c".to_string(), "b".to_string()];
    let groups = create_batches(&names);
    assert_eq!(groups.len(), 3);
    assert_eq!(groups[0].name, "a");
    assert_eq!(groups[0].members, vec![0, 2]);
    assert_eq!(groups[1].name, "b");
    assert_eq!(groups[1].members, vec![1, 4]);
    assert_eq!(groups[2].members, vec![3]);
}

#[test]
fn play_state() {
    assert!(PlayState::Playing.is_playing());
    assert!(!PlayState::Paused.is_playing());
    assert!(!PlayState::Stopped.is_playing());
}

fn signature(name: &str, nodes: usize) -> SyncSignature {
    SyncSignature {
        name: name.to_string(),
        node_count: nodes,
        width_bits: 512.0f32.to_bits(),
        height_bits: 512.0f32.to_bits(),
        frame_rate_bits: 60.0f32.to_bits(),
        in_point_bits: 0.0f32.to_bits(),
        out_point_bits: 120.0f32.to_bits(),
    }
}

#[test]
fn synced_update_needs_two_matching_sprites() {
    assert!(!supports_synced_update(&vec![]));
    assert!(!supports_synced_update(&vec![signature("a", 3)]));
    assert!(supports_synced_update(&vec![signature("a", 3), signature("a", 3), signature("a", 3)]));
    assert!(!supports_synced_update(&vec![signature("a", 3), signature("b", 3)]));
    assert!(!supports_synced_update(&vec![signature("a", 3), signature("a", 3), signature("a", 4)]));
    let mut other = signature("a", 3);
    other.out_point_bits = 90.0f32.to_bits();
    assert!(!supports_synced_update(&vec![signature("a", 3), other]));
}

#[test]
fn master_is_first_visible_sprite() {
    assert_eq!(master_index(&vec![false, true, true]), 1);
    assert_eq!(master_index(&vec![true, false]), 0);
    assert_eq!(master_index(&vec![false, false]), 0);
    assert_eq!(master_index(&vec![]), 0);
}

#[test]
fn hash_prefix_leaves_colour_unchanged() {
    for s in ["ff8800", "#0a0B0c", "##123", "", "+f1", "zz"] {
        let with_hash = format!("#{}", s);
        assert_eq!(parse_hex_color(&with_hash), parse_hex_color(s));
    }
}
