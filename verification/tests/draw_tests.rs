use ultra_render::lottie::model::BlendMode;
use ultra_render::renderer::draw::{build_sort_key, DrawContents, DrawType};

#[test]
fn test_draw_sort_key() {
    // Verify sort key ordering: higher blend mode → higher key
    let k1 = build_sort_key(
        BlendMode::Normal,
        DrawContents::Opaque,
        0,
        DrawType::MidpointFanFill,
    );
    let k2 = build_sort_key(
        BlendMode::Multiply,
        DrawContents::Opaque,
        0,
        DrawType::MidpointFanFill,
    );
    assert!(k2 > k1);
}

#[test]
fn sort_key_packs_fields() {
    let k = build_sort_key(BlendMode::Screen, DrawContents::Translucent, 5, DrawType::StrokeStrip);
    assert_eq!(k, (2u64 << 21) | (1 << 19) | (5 << 3) | 1);
    assert_eq!(k >> 21, 2);
    assert_eq!((k >> 19) & 3, 1);
    assert_eq!((k >> 3) & 0xFFFF, 5);
    assert_eq!(k & 7, 1);
}

#[test]
fn sort_key_keeps_low_16_bits_of_z() {
    let a = build_sort_key(BlendMode::Normal, DrawContents::Opaque, 0x1_0003, DrawType::MidpointFanFill);
    let b = build_sort_key(BlendMode::Normal, DrawContents::Opaque, 3, DrawType::MidpointFanFill);
    assert_eq!(a, b);
    assert_eq!(a, 24);
}

#[test]
fn sort_key_blend_code_sixteen_wraps_to_zero() {
    let add = build_sort_key(BlendMode::Add, DrawContents::Opaque, 7, DrawType::StrokeStrip);
    let normal = build_sort_key(BlendMode::Normal, DrawContents::Opaque, 7, DrawType::StrokeStrip);
    assert_eq!(add, normal);
}

#[test]
fn sort_key_orders_lexicographically() {
    let lum = build_sort_key(BlendMode::Luminosity, DrawContents::Opaque, 0, DrawType::MidpointFanFill);
    let hue_top = build_sort_key(BlendMode::Hue, DrawContents::Translucent, 0xFFFF, DrawType::StrokeStrip);
    assert!(hue_top < lum);
    let opaque_far = build_sort_key(BlendMode::Normal, DrawContents::Opaque, 0xFFFF, DrawType::StrokeStrip);
    let translucent_near = build_sort_key(BlendMode::Normal, DrawContents::Translucent, 0, DrawType::MidpointFanFill);
    assert!(opaque_far < translucent_near);
    let fill = build_sort_key(BlendMode::Normal, DrawContents::Opaque, 4, DrawType::MidpointFanFill);
    let stroke = build_sort_key(BlendMode::Normal, DrawContents::Opaque, 4, DrawType::StrokeStrip);
    assert!(fill < stroke);
}
