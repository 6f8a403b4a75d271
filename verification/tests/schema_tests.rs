use ultra_render::geometry::path::{FillRule, StrokeCap, StrokeJoin};
use ultra_render::lottie::model::{
    BlendMode, GradientType, LayerType, MaskMode, MatteType, PolystarType, StrokeDashType, TrimPathType,
};
use ultra_render::lottie::schema::{
    blend_mode_field, dash_type_field, effect_kind_field, fill_rule_field, flag_field, gradient_type_field,
    layer_type_field, mask_mode_field, matte_type_field, merge_mode_field, parse_stroke_cap, parse_stroke_join,
    polystar_type_field, shape_kind_field, stroke_cap_field, stroke_join_field, trim_type_field, EffectKind,
    ShapeKind,
};

#[test]
fn blend_mode_codes_roundtrip() {
    for v in 0..=16u32 {
        assert_eq!(BlendMode::from_u32(v).code(), v);
    }
    assert_eq!(BlendMode::from_u32(17), BlendMode::Normal);
    assert_eq!(BlendMode::from_u32(u32::MAX), BlendMode::Normal);
    assert_eq!(BlendMode::from_u32(16), BlendMode::Add);
    assert_eq!(BlendMode::from_u32(14), BlendMode::ColorMode);
}

#[test]
fn blend_mode_field_reads_low_32_bits() {
    assert_eq!(blend_mode_field(None), BlendMode::Normal);
    assert_eq!(blend_mode_field(Some(3)), BlendMode::Overlay);
    assert_eq!(blend_mode_field(Some((1u64 << 32) + 1)), BlendMode::Multiply);
}

#[test]
fn layer_types() {
    assert_eq!(layer_type_field(None), LayerType::Null);
    assert_eq!(layer_type_field(Some(0)), LayerType::Precomp);
    assert_eq!(layer_type_field(Some(4)), LayerType::Shape);
    assert_eq!(layer_type_field(Some(5)), LayerType::Text);
    assert_eq!(layer_type_field(Some(99)), LayerType::Null);
    assert_eq!(LayerType::Image.code(), 2);
}

#[test]
fn mattes_and_flags() {
    assert_eq!(matte_type_field(None), MatteType::NoMatte);
    assert_eq!(matte_type_field(Some(1)), MatteType::Alpha);
    assert_eq!(matte_type_field(Some(4)), MatteType::InvertedLuma);
    assert_eq!(matte_type_field(Some(5)), MatteType::NoMatte);
    assert!(!flag_field(None));
    assert!(!flag_field(Some(0)));
    assert!(flag_field(Some(-1)));
}

#[test]
fn two_valued_codes() {
    assert_eq!(fill_rule_field(None), FillRule::NonZero);
    assert_eq!(fill_rule_field(Some(2)), FillRule::EvenOdd);
    assert_eq!(fill_rule_field(Some(3)), FillRule::NonZero);
    assert_eq!(gradient_type_field(Some(2)), GradientType::Radial);
    assert_eq!(gradient_type_field(None), GradientType::Linear);
    assert_eq!(trim_type_field(Some(2)), TrimPathType::Individually);
    assert_eq!(trim_type_field(Some(1)), TrimPathType::Simultaneously);
    assert_eq!(polystar_type_field(Some(2)), PolystarType::Polygon);
    assert_eq!(polystar_type_field(None), PolystarType::Star);
    assert_eq!(merge_mode_field(None), 1);
    assert_eq!(merge_mode_field(Some(3)), 3);
    assert_eq!(merge_mode_field(Some((1u64 << 32) + 2)), 2);
}

#[test]
fn stroke_caps_and_joins() {
    assert_eq!(parse_stroke_cap(1), StrokeCap::Butt);
    assert_eq!(parse_stroke_cap(2), StrokeCap::Round);
    assert_eq!(parse_stroke_cap(3), StrokeCap::Square);
    assert_eq!(parse_stroke_cap(0), StrokeCap::Butt);
    assert_eq!(parse_stroke_join(2), StrokeJoin::Round);
    assert_eq!(parse_stroke_join(3), StrokeJoin::Bevel);
    assert_eq!(parse_stroke_join(7), StrokeJoin::Miter);
    assert_eq!(stroke_cap_field(None), StrokeCap::Butt);
    assert_eq!(stroke_cap_field(Some((1i64 << 32) + 2)), StrokeCap::Round);
    assert_eq!(stroke_join_field(Some(3)), StrokeJoin::Bevel);
}

#[test]
fn mask_and_dash_tags() {
    assert_eq!(mask_mode_field(None), MaskMode::Add);
    assert_eq!(mask_mode_field(Some("n")), MaskMode::NoMask);
    assert_eq!(mask_mode_field(Some("s")), MaskMode::Subtract);
    assert_eq!(mask_mode_field(Some("i")), MaskMode::Intersect);
    assert_eq!(mask_mode_field(Some("l")), MaskMode::Lighten);
    assert_eq!(mask_mode_field(Some("d")), MaskMode::Darken);
    assert_eq!(mask_mode_field(Some("f")), MaskMode::Difference);
    assert_eq!(mask_mode_field(Some("ss")), MaskMode::Add);
    assert_eq!(dash_type_field(None), StrokeDashType::Dash);
    assert_eq!(dash_type_field(Some("g")), StrokeDashType::Gap);
    assert_eq!(dash_type_field(Some("o")), StrokeDashType::Offset);
    assert_eq!(dash_type_field(Some("x")), StrokeDashType::Dash);
}

#[test]
fn shape_and_effect_kinds() {
    assert_eq!(shape_kind_field(Some("gr")), Some(ShapeKind::Group));
    assert_eq!(shape_kind_field(Some("sh")), Some(ShapeKind::Path));
    assert_eq!(shape_kind_field(Some("sr")), Some(ShapeKind::Polystar));
    assert_eq!(shape_kind_field(Some("gs")), Some(ShapeKind::GradientStroke));
    assert_eq!(shape_kind_field(Some("mm")), Some(ShapeKind::MergePaths));
    assert_eq!(shape_kind_field(Some("xx")), None);
    assert_eq!(shape_kind_field(Some("g")), None);
    assert_eq!(shape_kind_field(None), None);
    assert_eq!(effect_kind_field(Some(29)), Some(EffectKind::GaussianBlur));
    assert_eq!(effect_kind_field(Some(25)), Some(EffectKind::DropShadow));
    assert_eq!(effect_kind_field(Some(21)), Some(EffectKind::Fill));
    assert_eq!(effect_kind_field(None), None);
    assert_eq!(effect_kind_field(Some(22)), None);
}
