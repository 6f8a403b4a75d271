use ultra_render::geometry::encoding::{
    capped_sprite_budget, tessellate_sprite_fills, FillContourInput, FillVertexSource, ShapeGeometry,
};
use ultra_render::geometry::frame::{
    encode_paths, encode_paths_instanced, groups_budget_fits, EncodedLayout, PaintSlot,
};
use ultra_render::geometry::path::FillRule;
use ultra_render::geometry::tessellation::{
    ComplexFillRule, EncodedDraw, ShapeRef, SimpleDrawSource, StrokeSide,
};
use ultra_render::renderer::buffers::{check_upload_fits, DrawState};

/// A closed concave polygon of six line cubics; its midpoint fan does not cover it.
fn concave_fill() -> ShapeGeometry {
    ShapeGeometry::Fill {
        rule: FillRule::NonZero,
        same_winding: true,
        contours: vec![FillContourInput { raw_counts: vec![1; 6], fan_safe: false }],
        cover_nonempty: true,
    }
}

/// A rectangle of four line cubics; its midpoint fan covers it.
fn rect_fill() -> ShapeGeometry {
    ShapeGeometry::Fill {
        rule: FillRule::NonZero,
        same_winding: true,
        contours: vec![FillContourInput { raw_counts: vec![1; 4], fan_safe: true }],
        cover_nonempty: true,
    }
}

fn stroke() -> ShapeGeometry {
    ShapeGeometry::Stroke { contours: vec![vec![2, 0]] }
}

#[test]
fn preserves_draw_order_across_simple_and_complex_fills() {
    let encoded = encode_paths_instanced(&vec![(0, vec![concave_fill(), rect_fill()])], 1, false);

    assert_eq!(encoded.ordered_draws.len(), 2);
    assert!(matches!(encoded.ordered_draws[0], EncodedDraw::Complex(_)));
    assert!(matches!(
        encoded.ordered_draws[1],
        EncodedDraw::Simple {
            source: SimpleDrawSource::Fill,
            index_count,
            ..
        } if index_count > 0
    ));

    let reversed = encode_paths_instanced(&vec![(0, vec![rect_fill(), concave_fill()])], 1, false);

    assert_eq!(reversed.ordered_draws.len(), 2);
    assert!(matches!(
        reversed.ordered_draws[0],
        EncodedDraw::Simple {
            source: SimpleDrawSource::Fill,
            index_count,
            ..
        } if index_count > 0
    ));
    assert!(matches!(reversed.ordered_draws[1], EncodedDraw::Complex(_)));
}

#[test]
fn complex_fill_layout() {
    let l = tessellate_sprite_fills(&vec![concave_fill()], 3, 5);
    // 6 cubics of at least 4 segments, plus the closing vertex: 25 edge vertices,
    // one midpoint, and four cover corners.
    assert_eq!(l.fill_vertices.len(), 30);
    assert_eq!(l.fill_vertices[0].source, FillVertexSource::Compute);
    assert_eq!(
        l.fill_vertices[27].source,
        FillVertexSource::CoverCorner { shape: ShapeRef { group: 5, command: 0 }, corner: 1 }
    );
    assert_eq!(l.fill_vertices[27].sprite_index, 3);
    assert_eq!(l.fill_cubics.len(), 6);
    assert_eq!(l.fill_cubics[5].first_edge_vertex, 20);
    assert_eq!(l.fill_contours.len(), 1);
    assert_eq!(l.fill_contours[0].total_edge_verts, 25);
    assert_eq!(l.fill_contours[0].topology, 2);
    assert!(l.fill_indices.is_empty());
    assert_eq!(l.complex_fill_indices.len(), 81);
    assert_eq!(&l.complex_fill_indices[75..], &[26, 27, 28, 26, 28, 29]);
    assert_eq!(l.complex_fill_draws.len(), 1);
    let d = l.complex_fill_draws[0];
    assert_eq!((d.stencil_index_start, d.stencil_index_count), (0, 75));
    assert_eq!((d.cover_index_start, d.cover_index_count), (75, 6));
    assert_eq!(d.fill_rule, ComplexFillRule::NonZero);
    assert_eq!(l.paints, vec![ShapeRef { group: 5, command: 0 }]);
}

#[test]
fn even_odd_fill_takes_the_stencil() {
    let fill = ShapeGeometry::Fill {
        rule: FillRule::EvenOdd,
        same_winding: true,
        contours: vec![FillContourInput { raw_counts: vec![1; 4], fan_safe: true }],
        cover_nonempty: true,
    };
    let l = tessellate_sprite_fills(&vec![fill], 0, 0);
    assert_eq!(l.complex_fill_draws.len(), 1);
    assert_eq!(l.complex_fill_draws[0].fill_rule, ComplexFillRule::EvenOdd);
    assert!(matches!(l.ordered_draws[0], EncodedDraw::Complex(_)));
}

#[test]
fn fill_without_geometry_still_takes_a_paint() {
    let tiny = ShapeGeometry::Fill {
        rule: FillRule::NonZero,
        same_winding: true,
        // a contour without cubics lays out nothing
        contours: vec![FillContourInput { raw_counts: vec![], fan_safe: true }],
        cover_nonempty: true,
    };
    let l = tessellate_sprite_fills(&vec![tiny, rect_fill()], 0, 0);
    assert_eq!(l.paints.len(), 2);
    assert_eq!(l.ordered_draws.len(), 1);
    assert_eq!(l.fill_contours[0].paint_index, 1);
}

#[test]
fn strokes_follow_all_fill_vertices() {
    let l = tessellate_sprite_fills(&vec![stroke(), rect_fill()], 0, 0);
    // the fill pass runs first, whatever the command order
    assert_eq!(l.paints, vec![ShapeRef { group: 0, command: 1 }, ShapeRef { group: 0, command: 0 }]);
    assert_eq!(l.fill_vertices.len(), 18);
    assert_eq!(l.stroke_vertex_count, 8);
    assert_eq!(l.segments.len(), 4);
    assert_eq!(l.segments[0].first_vertex_idx, 18);
    assert_eq!(l.segments[1].first_vertex_idx, 20);
    assert_eq!(l.segments[1].side, StrokeSide::Negative);
    assert_eq!(l.segments[2].first_vertex_idx, 22);
    assert_eq!(l.segments[2].paint_index, 1);
    assert_eq!(&l.stroke_indices[0..6], &[18, 22, 19, 22, 23, 19]);
    assert!(matches!(l.ordered_draws[0], EncodedDraw::Simple { source: SimpleDrawSource::Fill, index_start: 0, index_count: 51 }));
    assert!(matches!(l.ordered_draws[1], EncodedDraw::Simple { source: SimpleDrawSource::Stroke, index_start: 0, index_count: 18 }));
}

fn two_sprites() -> Vec<(u32, Vec<ShapeGeometry>)> {
    vec![(7, vec![rect_fill(), stroke()]), (9, vec![rect_fill(), stroke()])]
}

#[test]
fn unsynced_sprites_are_concatenated() {
    let e = encode_paths_instanced(&two_sprites(), 2, false);
    assert_eq!(e.instance_count, 1);
    assert_eq!(e.fill_vertex_count, 36);
    assert_eq!(e.stroke_vertex_count, 16);
    assert_eq!(e.total_vertex_count(), 52);
    assert_eq!(e.total_index_count(), 138);
    assert_eq!(e.fill_indices.len(), 102);
    assert_eq!(e.fill_indices[51], 18);
    assert_eq!(e.fill_vertices[18].paint_index, 2);
    assert_eq!(e.fill_contours[1].first_vertex, 18);
    assert_eq!(e.fill_contours[1].first_cubic, 4);
    assert_eq!(e.fill_contours[1].paint_index, 2);
    assert_eq!(e.fill_contours[1].sprite_index, 9);
    assert_eq!(e.paints.len(), 4);
    assert_eq!(e.paints[3], PaintSlot::Shape(ShapeRef { group: 1, command: 1 }));
    assert_eq!(&e.stroke_indices[0..6], &[36, 40, 37, 40, 41, 37]);
    assert_eq!(&e.stroke_indices[18..24], &[44, 48, 45, 48, 49, 45]);
    assert_eq!(e.segments[4].first_vertex_idx, 44);
    assert_eq!(e.segments[4].paint_index, 3);
    assert!(matches!(e.ordered_draws[0], EncodedDraw::Simple { source: SimpleDrawSource::Fill, index_start: 0, index_count: 51 }));
    assert!(matches!(e.ordered_draws[1], EncodedDraw::Simple { source: SimpleDrawSource::Stroke, index_start: 102, index_count: 18 }));
    assert!(matches!(e.ordered_draws[2], EncodedDraw::Simple { source: SimpleDrawSource::Fill, index_start: 51, index_count: 51 }));
    assert!(matches!(e.ordered_draws[3], EncodedDraw::Simple { source: SimpleDrawSource::Stroke, index_start: 120, index_count: 18 }));
    let combined = e.combined_indices();
    assert_eq!(combined.len(), 138);
    assert_eq!(combined[102], 36);
}

#[test]
fn synced_sprites_share_one_layout() {
    let e = encode_paths_instanced(&two_sprites(), 2, true);
    assert_eq!(e.instance_count, 2);
    assert_eq!(e.fill_vertex_count, 18);
    assert_eq!(e.stroke_vertex_count, 8);
    assert_eq!(e.paints.len(), 2);
    assert_eq!(e.fill_contours[0].sprite_index, 0);
    assert_eq!(&e.stroke_indices[0..6], &[18, 22, 19, 22, 23, 19]);
    assert!(matches!(e.ordered_draws[1], EncodedDraw::Simple { source: SimpleDrawSource::Stroke, index_start: 51, index_count: 18 }));
    // one transform: the batch is drawn once, concatenated
    let once = encode_paths_instanced(&two_sprites(), 1, true);
    assert_eq!(once.instance_count, 1);
    assert_eq!(once.fill_vertex_count, 36);
}

#[test]
fn empty_batches() {
    let none = encode_paths_instanced(&vec![], 3, true);
    assert!(none.paints.is_empty());
    assert_eq!(none.instance_count, 1);
    assert_eq!(none.total_vertex_count(), 0);
    let e = EncodedLayout::empty();
    assert!(e.ordered_draws.is_empty());
    let blank = encode_paths_instanced(&vec![(4, vec![])], 1, false);
    assert_eq!(blank.paints, vec![PaintSlot::Default]);
    let single = encode_paths(&vec![rect_fill()]);
    assert_eq!(single.fill_vertex_count, 18);
    assert_eq!(single.paints, vec![PaintSlot::Shape(ShapeRef { group: 0, command: 0 })]);
}

#[test]
fn budget_check() {
    assert!(groups_budget_fits(&two_sprites()));
    // 5 * 25 + 6 + 2 for the contour, 16 for the command
    assert_eq!(capped_sprite_budget(&vec![concave_fill()]), 149);
    let huge = vec![(0, vec![ShapeGeometry::Stroke { contours: vec![vec![u32::MAX]] }])];
    assert!(!groups_budget_fits(&huge));
    assert_eq!(capped_sprite_budget(&huge[0].1), 1u64 << 32);
}

#[test]
fn upload_moves_complex_ranges_behind_simple_indices() {
    let e = encode_paths_instanced(&vec![(0, vec![concave_fill(), rect_fill()])], 1, false);
    assert!(check_upload_fits(&e));
    let mut state = DrawState::new();
    let first = state.upload_encoded_paths(&e).unwrap();
    assert_eq!(first, vec![51, 0]);
    assert_eq!(state.simple_index_count, 51);
    assert_eq!(state.index_count, 51 + 81);
    assert_eq!(state.total_vertices, 48);
    assert_eq!(state.complex_fill_draws[0].stencil_index_start, 51);
    assert_eq!(state.complex_fill_draws[0].cover_index_start, 126);
    match state.ordered_draws[0] {
        EncodedDraw::Complex(d) => assert_eq!(d.cover_index_start, 126),
        _ => panic!("expected the complex fill first"),
    }
    assert!(matches!(state.ordered_draws[1], EncodedDraw::Simple { index_start: 0, .. }));
    assert_eq!(state.fill_contour_count, 2);
    assert_eq!(state.fill_cubic_count, 10);

    let blank = encode_paths_instanced(&vec![], 1, false);
    assert!(state.upload_encoded_paths(&blank).is_none());
    assert_eq!(state.index_count, 0);
    assert_eq!(state.instance_count, 1);
    assert!(state.ordered_draws.is_empty());
}
