use ultra_render::geometry::path::FillRule;
use ultra_render::geometry::tessellation::{
    append_cover_quad, append_fan_indices, complex_fill_draw, complex_fill_rule, encode_stroke_contour,
    plan_fill_contour, remap_local_draw, remap_local_draws, ComplexFillDraw, ComplexFillRule,
    EncodedDraw, ShapeRef, SimpleDrawSource, StrokeSide,
};

#[test]
fn remap_shifts_by_source() {
    let fill = EncodedDraw::Simple { source: SimpleDrawSource::Fill, index_start: 5, index_count: 9 };
    let stroke = EncodedDraw::Simple { source: SimpleDrawSource::Stroke, index_start: 5, index_count: 9 };
    match remap_local_draw(fill, 100, 1000, 10000) {
        EncodedDraw::Simple { source, index_start, index_count } => {
            assert_eq!(source, SimpleDrawSource::Fill);
            assert_eq!(index_start, 105);
            assert_eq!(index_count, 9);
        }
        _ => panic!("kind changed"),
    }
    match remap_local_draw(stroke, 100, 1000, 10000) {
        EncodedDraw::Simple { index_start, .. } => assert_eq!(index_start, 1005),
        _ => panic!("kind changed"),
    }
    let complex = EncodedDraw::Complex(ComplexFillDraw {
        stencil_index_start: 3,
        stencil_index_count: 6,
        cover_index_start: 9,
        cover_index_count: 6,
        fill_rule: ComplexFillRule::NonZero,
    });
    match remap_local_draw(complex, 100, 1000, 10000) {
        EncodedDraw::Complex(d) => {
            assert_eq!(d.stencil_index_start, 10003);
            assert_eq!(d.cover_index_start, 10009);
            assert_eq!(d.stencil_index_count, 6);
        }
        _ => panic!("kind changed"),
    }
}

#[test]
fn remap_keeps_draw_order() {
    let draws = vec![
        EncodedDraw::Simple { source: SimpleDrawSource::Stroke, index_start: 0, index_count: 6 },
        EncodedDraw::Simple { source: SimpleDrawSource::Fill, index_start: 0, index_count: 3 },
    ];
    let mut out = Vec::new();
    remap_local_draws(&draws, 10, 20, 30, &mut out);
    assert_eq!(out.len(), 2);
    assert!(matches!(out[0], EncodedDraw::Simple { source: SimpleDrawSource::Stroke, index_start: 20, .. }));
    assert!(matches!(out[1], EncodedDraw::Simple { source: SimpleDrawSource::Fill, index_start: 10, .. }));
}

#[test]
fn fill_contour_layout_raises_counts_and_closes() {
    let l = plan_fill_contour(&vec![1, 10, 2]).unwrap();
    assert_eq!(l.segment_counts, vec![4, 10, 4]);
    assert_eq!(l.first_edge_vertex, vec![0, 4, 14]);
    assert_eq!(l.total_edge_verts, 19);
    assert!(plan_fill_contour(&vec![]).is_none());
}

#[test]
fn stroke_contour_layout_two_cubics() {
    let mut slots = Vec::new();
    let mut indices = Vec::new();
    let shape = ShapeRef { group: 1, command: 2 };
    let cursor = encode_stroke_contour(&vec![2, 0], shape, 3, 7, 5, 10, 4, &mut slots, &mut indices);
    // pairs: 2 for the first cubic, 1 + 1 for the last one
    assert_eq!(cursor, 4 + 2 * 4);
    assert_eq!(slots.len(), 4);
    assert_eq!(slots[0].first_vertex_idx, 14);
    assert_eq!(slots[0].segment_count, 2);
    assert_eq!(slots[0].flags, 1);
    assert_eq!(slots[0].side, StrokeSide::Positive);
    assert_eq!(slots[1].first_vertex_idx, 16);
    assert_eq!(slots[1].side, StrokeSide::Negative);
    assert_eq!(slots[2].first_vertex_idx, 18);
    assert_eq!(slots[2].segment_count, 1);
    assert_eq!(slots[2].flags, 3);
    assert_eq!(slots[3].first_vertex_idx, 20);
    assert_eq!(slots[3].shape, shape);
    assert_eq!(slots[3].contour, 3);
    assert_eq!(slots[3].cubic, 1);
    assert_eq!(slots[0].cubic, 0);
    assert_eq!(slots[2].paint_index, 7);
    assert_eq!(slots[2].sprite_index, 5);
    assert_eq!(indices.len(), 18);
    assert_eq!(&indices[0..6], &[14, 18, 15, 18, 19, 15]);
    assert_eq!(&indices[12..18], &[16, 20, 17, 20, 21, 17]);
}

#[test]
fn stroke_contour_single_pair_has_no_strip() {
    let mut slots = Vec::new();
    let mut indices = vec![99];
    let cursor = encode_stroke_contour(
        &vec![],
        ShapeRef { group: 0, command: 0 },
        0,
        0,
        0,
        0,
        0,
        &mut slots,
        &mut indices,
    );
    assert_eq!(cursor, 0);
    assert!(slots.is_empty());
    assert_eq!(indices, vec![99]);
}

#[test]
fn fan_and_cover_indices() {
    let mut idx = vec![7u32];
    let first = append_fan_indices(&mut idx, 2, 5);
    assert_eq!(first, 1);
    assert_eq!(idx, vec![7, 5, 5, 5, 5, 5, 5]);
    let cover = append_cover_quad(&mut idx, 40);
    assert_eq!(cover, 7);
    assert_eq!(&idx[7..], &[40, 41, 42, 40, 42, 43]);
    let d = complex_fill_draw(1, cover, FillRule::EvenOdd);
    assert_eq!(d.stencil_index_count, 6);
    assert_eq!(d.cover_index_count, 6);
    assert_eq!(d.fill_rule, ComplexFillRule::EvenOdd);
    assert_eq!(complex_fill_rule(FillRule::NonZero), ComplexFillRule::NonZero);
}
