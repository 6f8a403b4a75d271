use ultra_render::geometry::tessellation::{ComplexFillDraw, ComplexFillRule, EncodedDraw, SimpleDrawSource};
use ultra_render::renderer::buffers::{
    combined_indices, gpu_draw_call_count, next_storage_capacity, patch_contour_first_index,
    rebase_complex_draws, rebase_ordered_draws,
};

#[test]
fn storage_capacities_are_4_byte_aligned() {
    for (needed, min_size) in [(1, 256), (3, 256), (257, 256), (101034, 256), (4097, 4096)] {
        let cap = next_storage_capacity(needed, min_size);
        assert_eq!(cap % 4, 0);
        assert!(cap >= needed.max(min_size));
    }
}

#[test]
fn storage_capacity_grows_by_half_and_rounds_up() {
    assert_eq!(next_storage_capacity(257, 256), 388);
    assert_eq!(next_storage_capacity(1, 256), 256);
    assert_eq!(next_storage_capacity(4097, 4096), 6148);
    assert_eq!(next_storage_capacity(101034, 256), 151552);
    assert_eq!(next_storage_capacity(0, 3), 4);
}

fn complex(stencil: u32, cover: u32) -> ComplexFillDraw {
    ComplexFillDraw {
        stencil_index_start: stencil,
        stencil_index_count: cover - stencil,
        cover_index_start: cover,
        cover_index_count: 6,
        fill_rule: ComplexFillRule::EvenOdd,
    }
}

#[test]
fn draw_calls_count_complex_fills_twice() {
    let draws = vec![
        EncodedDraw::Simple { source: SimpleDrawSource::Fill, index_start: 0, index_count: 3 },
        EncodedDraw::Complex(complex(0, 12)),
        EncodedDraw::Simple { source: SimpleDrawSource::Stroke, index_start: 3, index_count: 6 },
    ];
    assert_eq!(gpu_draw_call_count(&draws), 4);
    assert_eq!(gpu_draw_call_count(&Vec::new()), 0);
}

#[test]
fn combined_index_buffer_is_fill_then_stroke_then_complex() {
    let v = combined_indices(&vec![1, 2], &vec![3], &vec![4, 5, 6]);
    assert_eq!(v, vec![1, 2, 3, 4, 5, 6]);
}

#[test]
fn complex_topology_moves_behind_simple_indices() {
    assert_eq!(patch_contour_first_index(2, 10, 100), 110);
    assert_eq!(patch_contour_first_index(1, 10, 100), 10);
    assert_eq!(patch_contour_first_index(0, 10, 100), 10);
}

#[test]
fn upload_rebases_only_complex_draws() {
    let r = rebase_complex_draws(&vec![complex(0, 12), complex(18, 30)], 40);
    assert_eq!(r[0].stencil_index_start, 40);
    assert_eq!(r[0].cover_index_start, 52);
    assert_eq!(r[1].stencil_index_start, 58);
    assert_eq!(r[1].cover_index_count, 6);
    let ordered = rebase_ordered_draws(
        &vec![
            EncodedDraw::Simple { source: SimpleDrawSource::Fill, index_start: 7, index_count: 3 },
            EncodedDraw::Complex(complex(0, 12)),
        ],
        40,
    );
    match ordered[0] {
        EncodedDraw::Simple { index_start, index_count, .. } => {
            assert_eq!(index_start, 7);
            assert_eq!(index_count, 3);
        }
        _ => panic!("expected a simple draw"),
    }
    match ordered[1] {
        EncodedDraw::Complex(d) => {
            assert_eq!(d.stencil_index_start, 40);
            assert_eq!(d.cover_index_start, 52);
            assert_eq!(d.stencil_index_count, 12);
        }
        _ => panic!("expected a complex draw"),
    }
}
