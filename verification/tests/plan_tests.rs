use ultra_render::engine::controls::{clamp_fit_mode, clamp_sprite_request, sprites_after_add};
use ultra_render::geometry::tessellation::{ComplexFillDraw, ComplexFillRule, EncodedDraw, SimpleDrawSource};
use ultra_render::lottie::schema::ShapeKind;
use ultra_render::renderer::buffers::{gpu_draw_call_count, DrawState};
use ultra_render::renderer::plan::{
    plan_dispatches, plan_draw_calls, plan_frame, Dispatches, DrawCall, FramePlan,
};
use ultra_render::scene::shapes::{plan_shape_steps, ShapeEntry, ShapeStep};

#[test]
fn frame_plan_reencodes_on_new_stamp() {
    assert_eq!(plan_frame(0, 7, true, 5), FramePlan::Reencode);
    assert_eq!(plan_frame(7, 7, true, 5), FramePlan::KeepInstanced { instance_count: 5 });
    assert_eq!(plan_frame(7, 7, true, 0), FramePlan::KeepInstanced { instance_count: 1 });
    assert_eq!(plan_frame(7, 7, false, 5), FramePlan::Keep);
}

fn state_with(draws: Vec<EncodedDraw>, instances: u32) -> DrawState {
    let mut s = DrawState::new();
    s.ordered_draws = draws;
    s.instance_count = instances;
    s
}

#[test]
fn dispatches_follow_uploaded_counts() {
    let mut s = DrawState::new();
    assert_eq!(
        plan_dispatches(&s),
        Dispatches { fill_tessellate: None, fill_topology: None, stroke_tessellate: None }
    );
    s.fill_contour_count = 3;
    s.fill_cubic_count = 65;
    s.segment_count = 64;
    assert_eq!(
        plan_dispatches(&s),
        Dispatches { fill_tessellate: Some(2), fill_topology: None, stroke_tessellate: Some(1) }
    );
    s.complex_fill_draws = vec![ComplexFillDraw::default()];
    s.fill_cubic_count = u32::MAX;
    assert_eq!(
        plan_dispatches(&s),
        Dispatches { fill_tessellate: Some(67108864), fill_topology: Some(3), stroke_tessellate: Some(1) }
    );
    s.fill_contour_count = 0;
    assert_eq!(plan_dispatches(&s).fill_tessellate, None);
    assert_eq!(plan_dispatches(&s).fill_topology, None);
}

#[test]
fn draw_calls_replay_ordered_draws() {
    let complex = ComplexFillDraw {
        stencil_index_start: 10,
        stencil_index_count: 6,
        cover_index_start: 16,
        cover_index_count: 6,
        fill_rule: ComplexFillRule::EvenOdd,
    };
    let draws = vec![
        EncodedDraw::Simple { source: SimpleDrawSource::Fill, index_start: 0, index_count: 3 },
        EncodedDraw::Simple { source: SimpleDrawSource::Stroke, index_start: 3, index_count: 0 },
        EncodedDraw::Complex(complex),
        EncodedDraw::Simple { source: SimpleDrawSource::Stroke, index_start: 3, index_count: 4 },
    ];
    let s = state_with(draws, 4);
    let calls = plan_draw_calls(&s);
    assert_eq!(
        calls,
        vec![
            DrawCall::Path { index_start: 0, index_count: 3, instance_count: 4 },
            DrawCall::Stencil { rule: ComplexFillRule::EvenOdd, index_start: 10, index_count: 6, instance_count: 4 },
            DrawCall::Cover { index_start: 16, index_count: 6, instance_count: 4 },
            DrawCall::Path { index_start: 3, index_count: 4, instance_count: 4 },
        ]
    );
    // The empty simple draw is counted but not issued.
    assert_eq!(gpu_draw_call_count(&s.ordered_draws), 5);
    assert!(plan_draw_calls(&DrawState::new()).is_empty());
}

#[test]
fn player_limits() {
    assert_eq!(clamp_sprite_request(0), 1);
    assert_eq!(clamp_sprite_request(250), 250);
    assert_eq!(clamp_sprite_request(20000), 10000);
    assert_eq!(sprites_after_add(9990, 20), 10000);
    assert_eq!(sprites_after_add(3, 4), 7);
    assert_eq!(sprites_after_add(0, 0), 1);
    assert_eq!(clamp_fit_mode(2), 2);
    assert_eq!(clamp_fit_mode(9), 4);
}

fn entry(kind: ShapeKind, hidden: bool) -> ShapeEntry {
    ShapeEntry { kind, hidden }
}

#[test]
fn paints_apply_to_geometry_before_them() {
    let items = vec![
        entry(ShapeKind::Rect, false),
        entry(ShapeKind::Fill, false),
        entry(ShapeKind::Ellipse, true),
        entry(ShapeKind::Path, false),
        entry(ShapeKind::Group, false),
        entry(ShapeKind::Stroke, true),
        entry(ShapeKind::TrimPath, false),
        entry(ShapeKind::GradientStroke, false),
        entry(ShapeKind::Group, true),
        entry(ShapeKind::Transform, false),
    ];
    assert_eq!(
        plan_shape_steps(&items),
        vec![
            ShapeStep::Paint { item: 1, geometry_count: 1 },
            ShapeStep::Group { item: 4 },
            ShapeStep::Paint { item: 7, geometry_count: 2 },
        ]
    );
    assert!(plan_shape_steps(&vec![]).is_empty());
}
