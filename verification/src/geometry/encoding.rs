//! The integer layout of a frame's GPU path encoding. For each shape command the
//! float side supplies the segment counts of its cubics and the few decisions that
//! rest on coordinates; this module decides where every vertex, index, contour,
//! cubic, stroke segment, paint and draw record goes, per sprite and for a batch of
//! sprites.
use vstd::prelude::*;
use crate::geometry::path::FillRule;
use crate::geometry::tessellation::{
    append_fan_indices, clamped, edge_count, edges_before, encode_stroke_contour,
    lemma_edges_before_at_least_count, lemma_edges_before_monotone,
    lemma_strip_indices_in_range, plan_fill_contour, stroke_flags, strip_index, strip_len,
    total_edges, ComplexFillDraw, ComplexFillRule, EncodedDraw, ShapeRef, SimpleDrawSource,
    StrokeSegmentSlot, StrokeSide, FILL_TOPOLOGY_COMPLEX_FAN, FILL_TOPOLOGY_SIMPLE,
    MIN_FILL_CUBIC_SEGMENTS,
};

verus! {

/// Where a fill vertex's position comes from: the fill compute pass, or a corner of
/// the cover quad of a complex fill (corners 0..4 are min/min, max/min, max/max,
/// min/max of the shape's bounds).
#[derive(Clone, Copy, Debug, PartialEq, Eq, Structural)]
pub enum FillVertexSource {
    Compute,
    CoverCorner { shape: ShapeRef, corner: u32 },
}

/// The integer part of a fill vertex.
#[derive(Clone, Copy, Debug, PartialEq, Eq, Structural)]
pub struct FillVertexSlot {
    pub source: FillVertexSource,
    pub paint_index: u32,
    pub sprite_index: u32,
}

/// The integer part of a fill cubic record.
#[derive(Clone, Copy, Debug, PartialEq, Eq, Structural)]
pub struct FillCubicSlot {
    pub shape: ShapeRef,
    pub contour: u32,
    pub cubic: u32,
    pub segment_count: u32,
    pub first_edge_vertex: u32,
}

/// The integer part of a fill contour record.
#[derive(Clone, Copy, Debug, PartialEq, Eq, Structural)]
pub struct FillContourSlot {
    pub shape: ShapeRef,
    pub contour: u32,
    pub first_cubic: u32,
    pub cubic_count: u32,
    pub first_vertex: u32,
    pub total_edge_verts: u32,
    pub first_index: u32,
    pub topology: u32,
    pub paint_index: u32,
    pub sprite_index: u32,
}

/// A closed fill contour as the fill pass sees it: the raw segment count of each of its
/// cubics, and whether a fan from its midpoint covers it exactly.
pub struct FillContourInput {
    pub raw_counts: Vec<u32>,
    pub fan_safe: bool,
}

/// What the layout needs to know of one shape command.
pub enum ShapeGeometry {
    /// A fill: its rule, whether all its contours wind the same way, its contours, and
    /// whether the bounds of its samples are non-empty.
    Fill {
        rule: FillRule,
        same_winding: bool,
        contours: Vec<FillContourInput>,
        cover_nonempty: bool,
    },
    /// A stroke: the raw segment counts of the cubics of each contour.
    Stroke { contours: Vec<Vec<u32>> },
}

/// The layout of one sprite's shape commands.
pub struct SpriteLayout {
    pub fill_vertices: Vec<FillVertexSlot>,
    pub fill_indices: Vec<u32>,
    pub complex_fill_indices: Vec<u32>,
    pub complex_fill_draws: Vec<ComplexFillDraw>,
    pub ordered_draws: Vec<EncodedDraw>,
    pub fill_contours: Vec<FillContourSlot>,
    pub fill_cubics: Vec<FillCubicSlot>,
    pub paints: Vec<ShapeRef>,
    pub segments: Vec<StrokeSegmentSlot>,
    pub stroke_indices: Vec<u32>,
    pub stroke_vertex_count: u32,
}

/// The contents of a `SpriteLayout`.
pub struct LayoutModel {
    pub fill_vertices: Seq<FillVertexSlot>,
    pub fill_indices: Seq<u32>,
    pub complex_fill_indices: Seq<u32>,
    pub complex_fill_draws: Seq<ComplexFillDraw>,
    pub ordered_draws: Seq<EncodedDraw>,
    pub fill_contours: Seq<FillContourSlot>,
    pub fill_cubics: Seq<FillCubicSlot>,
    pub paints: Seq<ShapeRef>,
    pub segments: Seq<StrokeSegmentSlot>,
    pub stroke_indices: Seq<u32>,
    pub stroke_vertex_count: u32,
}

impl View for SpriteLayout {
    type V = LayoutModel;

    open spec fn view(&self) -> LayoutModel {
        LayoutModel {
            fill_vertices: self.fill_vertices@,
            fill_indices: self.fill_indices@,
            complex_fill_indices: self.complex_fill_indices@,
            complex_fill_draws: self.complex_fill_draws@,
            ordered_draws: self.ordered_draws@,
            fill_contours: self.fill_contours@,
            fill_cubics: self.fill_cubics@,
            paints: self.paints@,
            segments: self.segments@,
            stroke_indices: self.stroke_indices@,
            stroke_vertex_count: self.stroke_vertex_count,
        }
    }
}

/// The layout with nothing in it.
pub open spec fn empty_model() -> LayoutModel {
    LayoutModel {
        fill_vertices: Seq::empty(),
        fill_indices: Seq::empty(),
        complex_fill_indices: Seq::empty(),
        complex_fill_draws: Seq::empty(),
        ordered_draws: Seq::empty(),
        fill_contours: Seq::empty(),
        fill_cubics: Seq::empty(),
        paints: Seq::empty(),
        segments: Seq::empty(),
        stroke_indices: Seq::empty(),
        stroke_vertex_count: 0,
    }
}

/// Everything a layout holds, counted together (the stroke vertices included).
pub open spec fn layout_size(m: LayoutModel) -> int {
    m.fill_vertices.len() + m.fill_indices.len() + m.complex_fill_indices.len()
        + m.complex_fill_draws.len() + m.ordered_draws.len() + m.fill_contours.len()
        + m.fill_cubics.len() + m.paints.len() + m.segments.len() + m.stroke_indices.len()
        + m.stroke_vertex_count
}

/// Whether a draw's index ranges lie within the layout's index lists.
pub open spec fn draw_within(d: EncodedDraw, m: LayoutModel) -> bool {
    match d {
        EncodedDraw::Simple { source, index_start, index_count } => match source {
            SimpleDrawSource::Fill => index_start + index_count <= m.fill_indices.len(),
            SimpleDrawSource::Stroke => index_start + index_count <= m.stroke_indices.len(),
        },
        EncodedDraw::Complex(c) => complex_within(c, m.complex_fill_indices.len() as int),
    }
}

/// Whether a complex draw's stencil and cover ranges lie within `len` complex indices.
pub open spec fn complex_within(c: ComplexFillDraw, len: int) -> bool {
    &&& c.stencil_index_start + c.stencil_index_count <= len
    &&& c.cover_index_start + c.cover_index_count <= len
}

/// What a sprite layout keeps, and what concatenation relies on: fill and complex
/// indices name fill vertices; stroke vertex numbers (of indices and segment records)
/// run from the end of the fill vertices over the stroke vertices, and stroke indices
/// name one of them; every draw's ranges lie within their index list; every start and
/// paint number is at most the layout's size.
pub open spec fn layout_wf(m: LayoutModel) -> bool {
    let size = layout_size(m);
    let fc = m.fill_vertices.len();
    &&& forall|i: int|
        0 <= i < m.fill_vertices.len() ==> (#[trigger] m.fill_vertices[i]).paint_index <= size
    &&& forall|i: int| 0 <= i < m.fill_indices.len() ==> #[trigger] m.fill_indices[i] < fc
    &&& forall|i: int|
        0 <= i < m.complex_fill_indices.len() ==> #[trigger] m.complex_fill_indices[i] < fc
    &&& forall|i: int|
        0 <= i < m.complex_fill_draws.len() ==> complex_within(
            #[trigger] m.complex_fill_draws[i],
            m.complex_fill_indices.len() as int,
        )
    &&& forall|i: int|
        0 <= i < m.fill_contours.len() ==> (#[trigger] m.fill_contours[i]).first_cubic <= size
            && m.fill_contours[i].first_vertex <= size && m.fill_contours[i].paint_index <= size
    &&& forall|i: int|
        0 <= i < m.segments.len() ==> (#[trigger] m.segments[i]).paint_index <= size && fc
            <= m.segments[i].first_vertex_idx <= fc + m.stroke_vertex_count
    &&& forall|i: int|
        0 <= i < m.stroke_indices.len() ==> fc <= #[trigger] m.stroke_indices[i] < fc
            + m.stroke_vertex_count
    &&& forall|i: int| 0 <= i < m.ordered_draws.len() ==> draw_within(#[trigger] m.ordered_draws[i], m)
}

// ─── Fill contours ──────────────────────────────────────────

/// A vertex that the fill compute pass writes.
pub open spec fn compute_vertex() -> FillVertexSlot {
    FillVertexSlot { source: FillVertexSource::Compute, paint_index: 0, sprite_index: 0 }
}

/// The cubic records of a fill contour: each with its clamped segment count and the
/// first of its edge vertices, counted from the contour's first vertex.
pub open spec fn fill_cubic_slots(shape: ShapeRef, contour: u32, raw: Seq<u32>) -> Seq<
    FillCubicSlot,
> {
    Seq::new(
        raw.len(),
        |k: int|
            FillCubicSlot {
                shape,
                contour,
                cubic: k as u32,
                segment_count: clamped(raw[k], MIN_FILL_CUBIC_SEGMENTS) as u32,
                first_edge_vertex: edges_before(raw, k, MIN_FILL_CUBIC_SEGMENTS) as u32,
            },
    )
}

/// One fill contour added to the layout. A contour with no cubics or fewer than three
/// edge vertices adds nothing. Otherwise it adds its edge vertices and a midpoint
/// vertex, its cubic records, its contour record, and three indices per edge vertex:
/// zeros among the fill indices for a simple fan, copies of its first vertex among the
/// complex indices otherwise.
pub open spec fn fill_contour_step(
    s: LayoutModel,
    raw: Seq<u32>,
    simple: bool,
    shape: ShapeRef,
    contour: u32,
    paint: u32,
    sprite: u32,
) -> LayoutModel {
    let e = total_edges(raw, MIN_FILL_CUBIC_SEGMENTS);
    if raw.len() == 0 || e < 3 {
        s
    } else {
        let first_vertex = s.fill_vertices.len() as u32;
        let slot = FillContourSlot {
            shape,
            contour,
            first_cubic: s.fill_cubics.len() as u32,
            cubic_count: raw.len() as u32,
            first_vertex,
            total_edge_verts: e as u32,
            first_index: (if simple {
                s.fill_indices.len()
            } else {
                s.complex_fill_indices.len()
            }) as u32,
            topology: if simple {
                FILL_TOPOLOGY_SIMPLE
            } else {
                FILL_TOPOLOGY_COMPLEX_FAN
            },
            paint_index: paint,
            sprite_index: sprite,
        };
        LayoutModel {
            fill_vertices: s.fill_vertices + Seq::new((e + 1) as nat, |_i: int| compute_vertex()),
            fill_cubics: s.fill_cubics + fill_cubic_slots(shape, contour, raw),
            fill_contours: s.fill_contours.push(slot),
            fill_indices: if simple {
                s.fill_indices + Seq::new((3 * e) as nat, |_i: int| 0u32)
            } else {
                s.fill_indices
            },
            complex_fill_indices: if simple {
                s.complex_fill_indices
            } else {
                s.complex_fill_indices + Seq::new((3 * e) as nat, |_i: int| first_vertex)
            },
            ..s
        }
    }
}

/// What one fill contour may add to a layout's size.
pub open spec fn fill_contour_budget(raw: Seq<u32>) -> int {
    5 * total_edges(raw, MIN_FILL_CUBIC_SEGMENTS) + raw.len() + 2
}

/// A fill contour never shrinks a layout.
pub proof fn lemma_fill_contour_step_size(
    s: LayoutModel,
    raw: Seq<u32>,
    simple: bool,
    shape: ShapeRef,
    contour: u32,
    paint: u32,
    sprite: u32,
)
    ensures
        layout_size(fill_contour_step(s, raw, simple, shape, contour, paint, sprite)) >= layout_size(s),
{
}

/// A fill contour added during the fill pass keeps a layout well formed.
pub proof fn lemma_fill_contour_step_wf(
    s: LayoutModel,
    raw: Seq<u32>,
    simple: bool,
    shape: ShapeRef,
    contour: u32,
    paint: u32,
    sprite: u32,
)
    requires
        layout_wf(s),
        s.segments.len() == 0,
        s.stroke_indices.len() == 0,
        paint <= layout_size(s),
        layout_size(fill_contour_step(s, raw, simple, shape, contour, paint, sprite)) <= u32::MAX,
    ensures
        layout_wf(fill_contour_step(s, raw, simple, shape, contour, paint, sprite)),
        layout_size(fill_contour_step(s, raw, simple, shape, contour, paint, sprite)) >= layout_size(s),
{
    let r = fill_contour_step(s, raw, simple, shape, contour, paint, sprite);
    let e = total_edges(raw, MIN_FILL_CUBIC_SEGMENTS);
    if raw.len() == 0 || e < 3 {
    } else {
        let size = layout_size(r);
        assert(layout_size(r) >= layout_size(s) + e + 1);
        assert forall|i: int| 0 <= i < r.fill_vertices.len() implies (#[trigger] r.fill_vertices[i]).paint_index
            <= size by {
            if i < s.fill_vertices.len() {
                assert(r.fill_vertices[i] == s.fill_vertices[i]);
            }
        }
        assert forall|i: int| 0 <= i < r.fill_indices.len() implies #[trigger] r.fill_indices[i]
            <= size by {
            if i < s.fill_indices.len() {
                assert(r.fill_indices[i] == s.fill_indices[i]);
            }
        }
        assert forall|i: int|
            0 <= i < r.complex_fill_indices.len() implies #[trigger] r.complex_fill_indices[i]
            <= size by {
            if i < s.complex_fill_indices.len() {
                assert(r.complex_fill_indices[i] == s.complex_fill_indices[i]);
            }
        }
        assert forall|i: int|
            0 <= i < r.fill_contours.len() implies (#[trigger] r.fill_contours[i]).first_cubic <= size
            && r.fill_contours[i].first_vertex <= size && r.fill_contours[i].paint_index
            <= size by {
            if i < s.fill_contours.len() {
                assert(r.fill_contours[i] == s.fill_contours[i]);
            }
        }
        assert forall|i: int| 0 <= i < r.ordered_draws.len() implies draw_within(
            #[trigger] r.ordered_draws[i],
            r,
        ) by {
            assert(draw_within(s.ordered_draws[i], s));
        }
    }
}

/// Recording one more paint keeps a layout well formed.
pub proof fn lemma_push_paint_wf(s: LayoutModel, shape: ShapeRef)
    requires
        layout_wf(s),
    ensures
        layout_wf(LayoutModel { paints: s.paints.push(shape), ..s }),
        layout_size(LayoutModel { paints: s.paints.push(shape), ..s }) == layout_size(s) + 1,
{
    let r = LayoutModel { paints: s.paints.push(shape), ..s };
    assert forall|i: int| 0 <= i < r.ordered_draws.len() implies draw_within(
        #[trigger] r.ordered_draws[i],
        r,
    ) by {
        assert(draw_within(s.ordered_draws[i], s));
    }
}

/// Appending a draw that starts within the layout's index lists keeps it well formed.
pub proof fn lemma_push_draw_wf(s: LayoutModel, d: EncodedDraw)
    requires
        layout_wf(s),
        draw_within(d, s),
    ensures
        layout_wf(LayoutModel { ordered_draws: s.ordered_draws.push(d), ..s }),
        layout_size(LayoutModel { ordered_draws: s.ordered_draws.push(d), ..s }) == layout_size(s) + 1,
{
    let r = LayoutModel { ordered_draws: s.ordered_draws.push(d), ..s };
    assert forall|i: int| 0 <= i < r.ordered_draws.len() implies draw_within(
        #[trigger] r.ordered_draws[i],
        r,
    ) by {
        if i < s.ordered_draws.len() {
            assert(r.ordered_draws[i] == s.ordered_draws[i]);
            assert(draw_within(s.ordered_draws[i], s));
        }
    }
}

fn push_compute_vertices(v: &mut Vec<FillVertexSlot>, count: u32)
    ensures
        final(v)@ == old(v)@ + Seq::new(count as nat, |_i: int| compute_vertex()),
{
    let mut k: u32 = 0;
    while k < count
        invariant
            0 <= k <= count,
            v@ =~= old(v)@ + Seq::new(k as nat, |_i: int| compute_vertex()),
        decreases count - k,
    {
        v.push(FillVertexSlot { source: FillVertexSource::Compute, paint_index: 0, sprite_index: 0 });
        k = k + 1;
    }
}

/// Adds one fill contour to the layout (see `fill_contour_step`).
pub fn encode_fill_contour(
    out: &mut SpriteLayout,
    raw_counts: &Vec<u32>,
    simple: bool,
    shape: ShapeRef,
    contour: u32,
    paint: u32,
    sprite: u32,
)
    requires
        layout_size(old(out)@) + fill_contour_budget(raw_counts@) <= u32::MAX,
    ensures
        final(out)@ == fill_contour_step(old(out)@, raw_counts@, simple, shape, contour, paint, sprite),
        layout_size(final(out)@) <= layout_size(old(out)@) + fill_contour_budget(raw_counts@),
{
    let ghost raw = raw_counts@;
    let ghost e = total_edges(raw, MIN_FILL_CUBIC_SEGMENTS);
    proof {
        lemma_edges_before_monotone(raw, 0, raw.len() as int, MIN_FILL_CUBIC_SEGMENTS);
        lemma_edges_before_at_least_count(raw, raw.len() as int, MIN_FILL_CUBIC_SEGMENTS);
    }
    match plan_fill_contour(raw_counts) {
        None => {},
        Some(l) => {
            let ghost s0 = out@;
            let first_vertex = out.fill_vertices.len() as u32;
            let first_cubic = out.fill_cubics.len() as u32;
            push_compute_vertices(&mut out.fill_vertices, l.total_edge_verts + 1);
            let ghost s1 = out@;
            assert(s1 == LayoutModel {
                fill_vertices: s0.fill_vertices + Seq::new((e + 1) as nat, |_i: int| compute_vertex()),
                ..s0
            });
            let n = raw_counts.len();
            let ghost c0 = out.fill_cubics@;
            let mut k: usize = 0;
            while k < n
                invariant
                    n == raw.len(),
                    raw == raw_counts@,
                    0 <= k <= n,
                    n <= u32::MAX,
                    l.segment_counts@.len() == n,
                    l.first_edge_vertex@.len() == n,
                    forall|j: int|
                        0 <= j < n ==> #[trigger] l.segment_counts@[j] as int == clamped(
                            raw[j],
                            MIN_FILL_CUBIC_SEGMENTS,
                        ) && l.first_edge_vertex@[j] as int == edges_before(
                            raw,
                            j,
                            MIN_FILL_CUBIC_SEGMENTS,
                        ),
                    c0 == s1.fill_cubics,
                    out.fill_cubics@ =~= c0 + fill_cubic_slots(shape, contour, raw).take(k as int),
                    out@ == (LayoutModel { fill_cubics: out.fill_cubics@, ..s1 }),
                decreases n - k,
            {
                out.fill_cubics.push(
                    FillCubicSlot {
                        shape,
                        contour,
                        cubic: k as u32,
                        segment_count: l.segment_counts[k],
                        first_edge_vertex: l.first_edge_vertex[k],
                    },
                );
                proof {
                    assert(fill_cubic_slots(shape, contour, raw).take(k + 1) =~= fill_cubic_slots(
                        shape,
                        contour,
                        raw,
                    ).take(k as int).push(fill_cubic_slots(shape, contour, raw)[k as int]));
                }
                k = k + 1;
            }
            proof {
                assert(fill_cubic_slots(shape, contour, raw).take(n as int) =~= fill_cubic_slots(
                    shape,
                    contour,
                    raw,
                ));
            }
            let first_index = if simple {
                out.fill_indices.len() as u32
            } else {
                out.complex_fill_indices.len() as u32
            };
            out.fill_contours.push(
                FillContourSlot {
                    shape,
                    contour,
                    first_cubic,
                    cubic_count: n as u32,
                    first_vertex,
                    total_edge_verts: l.total_edge_verts,
                    first_index,
                    topology: if simple {
                        FILL_TOPOLOGY_SIMPLE
                    } else {
                        FILL_TOPOLOGY_COMPLEX_FAN
                    },
                    paint_index: paint,
                    sprite_index: sprite,
                },
            );
            if simple {
                append_fan_indices(&mut out.fill_indices, l.total_edge_verts, 0);
            } else {
                append_fan_indices(&mut out.complex_fill_indices, l.total_edge_verts, first_vertex);
            }
        },
    }
}

// ─── Fill commands ──────────────────────────────────────────

/// Whether a fill is drawn as plain midpoint fans: a non-zero fill whose contours all
/// wind the same way, each of them covered exactly by its fan. Any other fill goes
/// through the stencil.
pub open spec fn takes_simple_route(
    rule: FillRule,
    same_winding: bool,
    contours: Seq<FillContourInput>,
) -> bool {
    &&& rule == FillRule::NonZero
    &&& same_winding
    &&& forall|j: int| 0 <= j < contours.len() ==> #[trigger] contours[j].fan_safe
}

/// The first `n` contours of a fill added in order, contour `j` under number `j`.
pub open spec fn fill_contours_fold(
    s: LayoutModel,
    contours: Seq<FillContourInput>,
    n: int,
    simple: bool,
    shape: ShapeRef,
    paint: u32,
    sprite: u32,
) -> LayoutModel
    decreases n,
{
    if n <= 0 {
        s
    } else {
        fill_contour_step(
            fill_contours_fold(s, contours, n - 1, simple, shape, paint, sprite),
            contours[n - 1].raw_counts@,
            simple,
            shape,
            (n - 1) as u32,
            paint,
            sprite,
        )
    }
}

/// What the first `n` contours of a fill may add to a layout's size.
pub open spec fn contours_fill_budget(contours: Seq<FillContourInput>, n: int) -> int
    decreases n,
{
    if n <= 0 {
        0
    } else {
        contours_fill_budget(contours, n - 1) + fill_contour_budget(contours[n - 1].raw_counts@)
    }
}

proof fn lemma_contours_fill_budget_monotone(contours: Seq<FillContourInput>, i: int, j: int)
    requires
        0 <= i <= j,
    ensures
        0 <= contours_fill_budget(contours, i) <= contours_fill_budget(contours, j),
    decreases j - i,
{
    if i < j {
        lemma_contours_fill_budget_monotone(contours, i, j - 1);
        lemma_edges_before_monotone(
            contours[j - 1].raw_counts@,
            0,
            contours[j - 1].raw_counts@.len() as int,
            MIN_FILL_CUBIC_SEGMENTS,
        );
    } else {
        lemma_contours_fill_budget_at_least(contours, i);
    }
}

proof fn lemma_contours_fill_budget_at_least(contours: Seq<FillContourInput>, n: int)
    requires
        0 <= n,
    ensures
        contours_fill_budget(contours, n) >= n,
    decreases n,
{
    if n > 0 {
        lemma_contours_fill_budget_at_least(contours, n - 1);
        lemma_edges_before_monotone(
            contours[n - 1].raw_counts@,
            0,
            contours[n - 1].raw_counts@.len() as int,
            MIN_FILL_CUBIC_SEGMENTS,
        );
    }
}

/// Adding fill contours never shortens the fill or complex index lists.
proof fn lemma_fill_contours_fold_grows(
    s: LayoutModel,
    contours: Seq<FillContourInput>,
    n: int,
    simple: bool,
    shape: ShapeRef,
    paint: u32,
    sprite: u32,
)
    ensures
        fill_contours_fold(s, contours, n, simple, shape, paint, sprite).fill_indices.len()
            >= s.fill_indices.len(),
        fill_contours_fold(s, contours, n, simple, shape, paint, sprite).complex_fill_indices.len()
            >= s.complex_fill_indices.len(),
        fill_contours_fold(s, contours, n, simple, shape, paint, sprite).fill_contours.len()
            >= s.fill_contours.len(),
    decreases n,
{
    if n > 0 {
        lemma_fill_contours_fold_grows(s, contours, n - 1, simple, shape, paint, sprite);
    }
}

/// What one fill command may add to a layout's size.
pub open spec fn fill_command_budget(contours: Seq<FillContourInput>) -> int {
    contours_fill_budget(contours, contours.len() as int) + 16
}

/// A cover vertex: corner `corner` of the shape's bounds.
pub open spec fn cover_corner(shape: ShapeRef, corner: u32, paint: u32, sprite: u32) -> FillVertexSlot {
    FillVertexSlot {
        source: FillVertexSource::CoverCorner { shape, corner },
        paint_index: paint,
        sprite_index: sprite,
    }
}

/// The stencil rule of a path fill rule.
pub open spec fn stencil_rule(rule: FillRule) -> ComplexFillRule {
    match rule {
        FillRule::EvenOdd => ComplexFillRule::EvenOdd,
        FillRule::NonZero => ComplexFillRule::NonZero,
    }
}

/// The cover pass of a complex fill whose stencil indices start at `stencil_start`:
/// four cover vertices, the two cover triangles, the complex draw record, and that
/// record as the next draw.
pub open spec fn cover_step(
    s: LayoutModel,
    stencil_start: u32,
    rule: FillRule,
    shape: ShapeRef,
    paint: u32,
    sprite: u32,
) -> LayoutModel {
    let cv = s.fill_vertices.len() as u32;
    let cover_start = s.complex_fill_indices.len() as u32;
    let draw = ComplexFillDraw {
        stencil_index_start: stencil_start,
        stencil_index_count: (cover_start - stencil_start) as u32,
        cover_index_start: cover_start,
        cover_index_count: 6,
        fill_rule: stencil_rule(rule),
    };
    LayoutModel {
        fill_vertices: s.fill_vertices + Seq::new(
            4,
            |k: int| cover_corner(shape, k as u32, paint, sprite),
        ),
        complex_fill_indices: s.complex_fill_indices + seq![
            cv,
            (cv + 1) as u32,
            (cv + 2) as u32,
            cv,
            (cv + 2) as u32,
            (cv + 3) as u32,
        ],
        complex_fill_draws: s.complex_fill_draws.push(draw),
        ordered_draws: s.ordered_draws.push(EncodedDraw::Complex(draw)),
        ..s
    }
}

/// The cover pass of a stencil fill, added during the fill pass, keeps a layout well
/// formed.
pub proof fn lemma_cover_step_wf(
    s: LayoutModel,
    stencil_start: u32,
    rule: FillRule,
    shape: ShapeRef,
    paint: u32,
    sprite: u32,
)
    requires
        layout_wf(s),
        s.segments.len() == 0,
        s.stroke_indices.len() == 0,
        stencil_start <= s.complex_fill_indices.len(),
        paint <= layout_size(s),
        layout_size(s) + 12 <= u32::MAX,
    ensures
        layout_wf(cover_step(s, stencil_start, rule, shape, paint, sprite)),
        layout_size(cover_step(s, stencil_start, rule, shape, paint, sprite)) == layout_size(s) + 12,
{
    let r = cover_step(s, stencil_start, rule, shape, paint, sprite);
    let size = layout_size(r);
    assert forall|i: int| 0 <= i < r.fill_vertices.len() implies (#[trigger] r.fill_vertices[i]).paint_index
        <= size by {
        if i < s.fill_vertices.len() {
            assert(r.fill_vertices[i] == s.fill_vertices[i]);
        }
    }
    assert forall|i: int|
        0 <= i < r.complex_fill_indices.len() implies #[trigger] r.complex_fill_indices[i]
        <= size by {
        if i < s.complex_fill_indices.len() {
            assert(r.complex_fill_indices[i] == s.complex_fill_indices[i]);
        }
    }
    assert forall|i: int|
        0 <= i < r.complex_fill_draws.len() implies (#[trigger] r.complex_fill_draws[i]).stencil_index_start
        <= r.complex_fill_indices.len() && r.complex_fill_draws[i].cover_index_start
        <= r.complex_fill_indices.len() by {
        if i < s.complex_fill_draws.len() {
            assert(r.complex_fill_draws[i] == s.complex_fill_draws[i]);
        }
    }
    assert forall|i: int| 0 <= i < r.ordered_draws.len() implies draw_within(
        #[trigger] r.ordered_draws[i],
        r,
    ) by {
        if i < s.ordered_draws.len() {
            assert(r.ordered_draws[i] == s.ordered_draws[i]);
            assert(draw_within(s.ordered_draws[i], s));
        }
    }
}

/// One fill command added to the layout. Its paint is recorded first, even when it
/// has no contour. Simple fans add a fill draw over the fill indices they added, if
/// any; a stencil fill whose contours added geometry, and whose bounds are non-empty,
/// adds its cover pass and draw.
pub open spec fn fill_command_step(
    s: LayoutModel,
    rule: FillRule,
    same_winding: bool,
    contours: Seq<FillContourInput>,
    cover_nonempty: bool,
    shape: ShapeRef,
    sprite: u32,
) -> LayoutModel {
    let paint = s.paints.len() as u32;
    let s1 = LayoutModel { paints: s.paints.push(shape), ..s };
    if contours.len() == 0 {
        s1
    } else if takes_simple_route(rule, same_winding, contours) {
        let s2 = fill_contours_fold(s1, contours, contours.len() as int, true, shape, paint, sprite);
        let start = s1.fill_indices.len();
        if s2.fill_indices.len() > start {
            LayoutModel {
                ordered_draws: s2.ordered_draws.push(
                    EncodedDraw::Simple {
                        source: SimpleDrawSource::Fill,
                        index_start: start as u32,
                        index_count: (s2.fill_indices.len() - start) as u32,
                    },
                ),
                ..s2
            }
        } else {
            s2
        }
    } else {
        let s2 = fill_contours_fold(s1, contours, contours.len() as int, false, shape, paint, sprite);
        if s2.fill_contours.len() > s1.fill_contours.len() && cover_nonempty {
            cover_step(s2, s1.complex_fill_indices.len() as u32, rule, shape, paint, sprite)
        } else {
            s2
        }
    }
}

fn uses_simple_route(rule: FillRule, same_winding: bool, contours: &Vec<FillContourInput>) -> (b: bool)
    ensures
        b == takes_simple_route(rule, same_winding, contours@),
{
    let nonzero = match rule {
        FillRule::NonZero => true,
        FillRule::EvenOdd => false,
    };
    if !nonzero || !same_winding {
        return false;
    }
    let mut j: usize = 0;
    while j < contours.len()
        invariant
            0 <= j <= contours@.len(),
            forall|i: int| 0 <= i < j ==> #[trigger] contours@[i].fan_safe,
        decreases contours@.len() - j,
    {
        if !contours[j].fan_safe {
            return false;
        }
        j = j + 1;
    }
    true
}

fn encode_cover(
    out: &mut SpriteLayout,
    stencil_start: u32,
    rule: FillRule,
    shape: ShapeRef,
    paint: u32,
    sprite: u32,
)
    requires
        stencil_start <= old(out)@.complex_fill_indices.len(),
        layout_size(old(out)@) + 12 <= u32::MAX,
    ensures
        final(out)@ == cover_step(old(out)@, stencil_start, rule, shape, paint, sprite),
        layout_size(final(out)@) == layout_size(old(out)@) + 12,
{
    let ghost s0 = out@;
    let cv = out.fill_vertices.len() as u32;
    let mut corner: u32 = 0;
    while corner < 4
        invariant
            0 <= corner <= 4,
            cv as int == s0.fill_vertices.len(),
            out@ == (LayoutModel { fill_vertices: out.fill_vertices@, ..s0 }),
            out.fill_vertices@ =~= s0.fill_vertices + Seq::new(
                corner as nat,
                |k: int| cover_corner(shape, k as u32, paint, sprite),
            ),
        decreases 4 - corner,
    {
        out.fill_vertices.push(
            FillVertexSlot {
                source: FillVertexSource::CoverCorner { shape, corner },
                paint_index: paint,
                sprite_index: sprite,
            },
        );
        corner = corner + 1;
    }
    let cover_start = crate::geometry::tessellation::append_cover_quad(
        &mut out.complex_fill_indices,
        cv,
    );
    let draw = crate::geometry::tessellation::complex_fill_draw(stencil_start, cover_start, rule);
    out.complex_fill_draws.push(draw);
    out.ordered_draws.push(EncodedDraw::Complex(draw));
}

/// Adds one fill command to the layout (see `fill_command_step`).
pub fn encode_fill_command(
    out: &mut SpriteLayout,
    rule: FillRule,
    same_winding: bool,
    contours: &Vec<FillContourInput>,
    cover_nonempty: bool,
    shape: ShapeRef,
    sprite: u32,
)
    requires
        layout_size(old(out)@) + fill_command_budget(contours@) <= u32::MAX,
    ensures
        final(out)@ == fill_command_step(
            old(out)@,
            rule,
            same_winding,
            contours@,
            cover_nonempty,
            shape,
            sprite,
        ),
        layout_size(final(out)@) <= layout_size(old(out)@) + fill_command_budget(contours@),
        layout_wf(old(out)@) && old(out)@.segments.len() == 0 && old(out)@.stroke_indices.len()
            == 0 ==> layout_wf(final(out)@) && final(out)@.segments.len() == 0
            && final(out)@.stroke_indices.len() == 0,
{
    let ghost s0 = out@;
    let ghost cs = contours@;
    proof {
        lemma_contours_fill_budget_monotone(cs, 0, cs.len() as int);
        lemma_contours_fill_budget_at_least(cs, cs.len() as int);
    }
    let ghost good = layout_wf(s0) && s0.segments.len() == 0 && s0.stroke_indices.len() == 0;
    let paint = out.paints.len() as u32;
    out.paints.push(shape);
    let ghost s1 = out@;
    assert(s1 == LayoutModel { paints: s0.paints.push(shape), ..s0 });
    proof {
        if good {
            lemma_push_paint_wf(s0, shape);
        }
    }
    if contours.len() == 0 {
        return;
    }
    let simple = uses_simple_route(rule, same_winding, contours);
    let fill_start = out.fill_indices.len() as u32;
    let stencil_start = out.complex_fill_indices.len() as u32;
    let contours_before = out.fill_contours.len();
    let mut j: usize = 0;
    while j < contours.len()
        invariant
            cs == contours@,
            0 <= j <= cs.len(),
            layout_size(s1) + contours_fill_budget(cs, cs.len() as int) + 14 <= u32::MAX,
            cs.len() <= contours_fill_budget(cs, cs.len() as int),
            out@ == fill_contours_fold(s1, cs, j as int, simple, shape, paint, sprite),
            layout_size(out@) <= layout_size(s1) + contours_fill_budget(cs, j as int),
            layout_size(out@) >= layout_size(s1),
            paint as int == s0.paints.len(),
            layout_size(s1) == layout_size(s0) + 1,
            good ==> layout_wf(out@) && out@.segments.len() == 0 && out@.stroke_indices.len() == 0,
        decreases cs.len() - j,
    {
        proof {
            lemma_contours_fill_budget_monotone(cs, j + 1, cs.len() as int);
        }
        let ghost prev = out@;
        encode_fill_contour(out, &contours[j].raw_counts, simple, shape, j as u32, paint, sprite);
        proof {
            if good {
                lemma_fill_contour_step_wf(
                    prev,
                    cs[j as int].raw_counts@,
                    simple,
                    shape,
                    j as u32,
                    paint,
                    sprite,
                );
            } else {
                lemma_fill_contour_step_size(
                    prev,
                    cs[j as int].raw_counts@,
                    simple,
                    shape,
                    j as u32,
                    paint,
                    sprite,
                );
            }
        }
        j = j + 1;
    }
    proof {
        lemma_fill_contours_fold_grows(s1, cs, cs.len() as int, simple, shape, paint, sprite);
    }
    if simple {
        let end = out.fill_indices.len() as u32;
        if end > fill_start {
            let d = EncodedDraw::Simple {
                source: SimpleDrawSource::Fill,
                index_start: fill_start,
                index_count: end - fill_start,
            };
            proof {
                if good {
                    lemma_push_draw_wf(out@, d);
                }
            }
            out.ordered_draws.push(d);
        }
    } else {
        if out.fill_contours.len() > contours_before && cover_nonempty {
            proof {
                if good {
                    lemma_cover_step_wf(out@, stencil_start, rule, shape, paint, sprite);
                }
            }
            encode_cover(out, stencil_start, rule, shape, paint, sprite);
        }
    }
}

// ─── Stroke commands ────────────────────────────────────────

/// Segment record `m` of a stroke contour whose vertices start at `base`: records
/// `2k` and `2k + 1` offset cubic `k` to the positive and the negative side, each
/// writing as many vertices as the cubic contributes.
pub open spec fn stroke_slot(
    raw: Seq<u32>,
    m: int,
    base: int,
    shape: ShapeRef,
    contour: u32,
    paint: u32,
    sprite: u32,
) -> StrokeSegmentSlot {
    let k = m / 2;
    let negative = m % 2 == 1;
    let start = base + 2 * edges_before(raw, k, 1);
    StrokeSegmentSlot {
        shape,
        contour,
        cubic: k as u32,
        side: if negative {
            StrokeSide::Negative
        } else {
            StrokeSide::Positive
        },
        segment_count: clamped(raw[k], 1) as u32,
        first_vertex_idx: (if negative {
            start + edge_count(raw, k, 1)
        } else {
            start
        }) as u32,
        flags: stroke_flags(raw, k),
        paint_index: paint,
        sprite_index: sprite,
    }
}

/// One stroke contour added to the layout: its segment records, the strip indices over
/// its vertex pairs, and its vertices counted into the stroke vertices. Stroke vertices
/// follow the `fill_count` fill vertices.
pub open spec fn stroke_contour_step(
    s: LayoutModel,
    raw: Seq<u32>,
    fill_count: u32,
    shape: ShapeRef,
    contour: u32,
    paint: u32,
    sprite: u32,
) -> LayoutModel {
    let base = fill_count + s.stroke_vertex_count;
    let t = total_edges(raw, 1);
    LayoutModel {
        segments: s.segments + Seq::new(
            (2 * raw.len()) as nat,
            |m: int| stroke_slot(raw, m, base, shape, contour, paint, sprite),
        ),
        stroke_indices: s.stroke_indices + Seq::new(
            strip_len(t) as nat,
            |k: int| strip_index(base, t, k) as u32,
        ),
        stroke_vertex_count: (s.stroke_vertex_count + 2 * t) as u32,
        ..s
    }
}

/// What one stroke contour may add to a layout's size.
pub open spec fn stroke_contour_budget(raw: Seq<u32>) -> int {
    2 * raw.len() + 8 * total_edges(raw, 1) + 1
}

/// A stroke contour, added after all fill vertices, keeps a layout well formed.
pub proof fn lemma_stroke_contour_step_wf(
    s: LayoutModel,
    raw: Seq<u32>,
    shape: ShapeRef,
    contour: u32,
    paint: u32,
    sprite: u32,
)
    requires
        layout_wf(s),
        paint <= layout_size(s),
        layout_size(s) + stroke_contour_budget(raw) <= u32::MAX,
    ensures
        layout_wf(
            stroke_contour_step(s, raw, s.fill_vertices.len() as u32, shape, contour, paint, sprite),
        ),
        layout_size(s) <= layout_size(
            stroke_contour_step(s, raw, s.fill_vertices.len() as u32, shape, contour, paint, sprite),
        ) <= layout_size(s) + stroke_contour_budget(raw),
{
    let fc = s.fill_vertices.len();
    let r = stroke_contour_step(s, raw, fc as u32, shape, contour, paint, sprite);
    let t = total_edges(raw, 1);
    let base = fc + s.stroke_vertex_count;
    lemma_edges_before_monotone(raw, 0, raw.len() as int, 1);
    assert(strip_len(t) <= 6 * t);
    assert(r.stroke_vertex_count == s.stroke_vertex_count + 2 * t);
    let size = layout_size(r);
    assert forall|i: int| 0 <= i < r.segments.len() implies (#[trigger] r.segments[i]).paint_index
        <= size && fc <= r.segments[i].first_vertex_idx <= fc + r.stroke_vertex_count by {
        if i < s.segments.len() {
            assert(r.segments[i] == s.segments[i]);
        } else {
            let m = i - s.segments.len();
            let k = m / 2;
            assert(0 <= k < raw.len());
            lemma_edges_before_monotone(raw, k + 1, raw.len() as int, 1);
            lemma_edges_before_monotone(raw, k, k + 1, 1);
            assert(r.segments[i] == stroke_slot(raw, m, base, shape, contour, paint, sprite));
        }
    }
    assert forall|i: int| 0 <= i < r.stroke_indices.len() implies fc <= #[trigger] r.stroke_indices[i]
        <= fc + r.stroke_vertex_count by {
        if i < s.stroke_indices.len() {
            assert(r.stroke_indices[i] == s.stroke_indices[i]);
        } else {
            let k = i - s.stroke_indices.len();
            lemma_strip_indices_in_range(base, t, k);
            assert(r.stroke_indices[i] == strip_index(base, t, k) as u32);
        }
    }
    assert forall|i: int| 0 <= i < r.ordered_draws.len() implies draw_within(
        #[trigger] r.ordered_draws[i],
        r,
    ) by {
        assert(draw_within(s.ordered_draws[i], s));
    }
}

/// Adds one stroke contour to the layout (see `stroke_contour_step`).
pub fn encode_stroke_contour_into(
    out: &mut SpriteLayout,
    raw_counts: &Vec<u32>,
    fill_count: u32,
    shape: ShapeRef,
    contour: u32,
    paint: u32,
    sprite: u32,
)
    requires
        fill_count <= old(out)@.fill_vertices.len(),
        layout_size(old(out)@) + stroke_contour_budget(raw_counts@) <= u32::MAX,
    ensures
        final(out)@ == stroke_contour_step(
            old(out)@,
            raw_counts@,
            fill_count,
            shape,
            contour,
            paint,
            sprite,
        ),
        layout_size(final(out)@) <= layout_size(old(out)@) + stroke_contour_budget(raw_counts@),
{
    let ghost s0 = out@;
    let ghost raw = raw_counts@;
    let ghost t = total_edges(raw, 1);
    let ghost base = fill_count + s0.stroke_vertex_count;
    proof {
        lemma_edges_before_monotone(raw, 0, raw.len() as int, 1);
    }
    let cursor = encode_stroke_contour(
        raw_counts,
        shape,
        contour,
        paint,
        sprite,
        fill_count,
        out.stroke_vertex_count,
        &mut out.segments,
        &mut out.stroke_indices,
    );
    out.stroke_vertex_count = cursor;
    proof {
        let segs = Seq::new(
            (2 * raw.len()) as nat,
            |m: int| stroke_slot(raw, m, base, shape, contour, paint, sprite),
        );
        assert forall|m: int| 0 <= m < 2 * raw.len() implies #[trigger] out.segments@[s0.segments.len()
            + m] == segs[m] by {
            let k = m / 2;
            assert(m == 2 * k || m == 2 * k + 1);
            assert(0 <= k < raw.len());
            let a = out.segments@[s0.segments.len() + 2 * k];
            let b = out.segments@[s0.segments.len() + 2 * k + 1];
            if m == 2 * k {
                assert(m % 2 == 0);
            } else {
                assert(m % 2 == 1);
            }
        }
        assert forall|i: int| 0 <= i < s0.segments.len() implies #[trigger] out.segments@[i]
            == s0.segments[i] by {
            assert(out.segments@.subrange(0, s0.segments.len() as int)[i] == s0.segments[i]);
        }
        assert forall|i: int| s0.segments.len() <= i < out.segments@.len() implies #[trigger] out.segments@[i]
            == segs[i - s0.segments.len()] by {
            assert(out.segments@[s0.segments.len() + (i - s0.segments.len())] == segs[i
                - s0.segments.len()]);
        }
        assert(out.segments@ =~= s0.segments + segs);
        let idx = Seq::new(strip_len(t) as nat, |k: int| strip_index(base, t, k) as u32);
        assert forall|k: int| 0 <= k < strip_len(t) implies #[trigger] out.stroke_indices@[s0.stroke_indices.len()
            + k] == idx[k] by {
            assert(out.stroke_indices@[s0.stroke_indices.len() + k] as int == strip_index(base, t, k));
        }
        assert forall|i: int| 0 <= i < s0.stroke_indices.len() implies #[trigger] out.stroke_indices@[i]
            == s0.stroke_indices[i] by {
            assert(out.stroke_indices@.subrange(0, s0.stroke_indices.len() as int)[i]
                == s0.stroke_indices[i]);
        }
        assert forall|i: int|
            s0.stroke_indices.len() <= i < out.stroke_indices@.len() implies #[trigger] out.stroke_indices@[i]
            == idx[i - s0.stroke_indices.len()] by {
            assert(out.stroke_indices@[s0.stroke_indices.len() + (i - s0.stroke_indices.len())]
                == idx[i - s0.stroke_indices.len()]);
        }
        assert(out.stroke_indices@ =~= s0.stroke_indices + idx);
        assert(strip_len(t) <= 6 * t);
    }
}

/// The first `n` contours of a stroke added in order, contour `j` under number `j`.
pub open spec fn stroke_contours_fold(
    s: LayoutModel,
    contours: Seq<Vec<u32>>,
    n: int,
    fill_count: u32,
    shape: ShapeRef,
    paint: u32,
    sprite: u32,
) -> LayoutModel
    decreases n,
{
    if n <= 0 {
        s
    } else {
        stroke_contour_step(
            stroke_contours_fold(s, contours, n - 1, fill_count, shape, paint, sprite),
            contours[n - 1]@,
            fill_count,
            shape,
            (n - 1) as u32,
            paint,
            sprite,
        )
    }
}

/// What the first `n` contours of a stroke may add to a layout's size.
pub open spec fn contours_stroke_budget(contours: Seq<Vec<u32>>, n: int) -> int
    decreases n,
{
    if n <= 0 {
        0
    } else {
        contours_stroke_budget(contours, n - 1) + stroke_contour_budget(contours[n - 1]@)
    }
}

proof fn lemma_contours_stroke_budget_monotone(contours: Seq<Vec<u32>>, i: int, j: int)
    requires
        0 <= i <= j,
    ensures
        i <= contours_stroke_budget(contours, i) <= contours_stroke_budget(contours, j),
        contours_stroke_budget(contours, j) >= j,
    decreases j,
{
    if j > 0 {
        if i < j {
            lemma_contours_stroke_budget_monotone(contours, i, j - 1);
        } else {
            lemma_contours_stroke_budget_monotone(contours, i - 1, j - 1);
        }
        lemma_edges_before_monotone(contours[j - 1]@, 0, contours[j - 1]@.len() as int, 1);
    }
}

/// What one stroke command may add to a layout's size.
pub open spec fn stroke_command_budget(contours: Seq<Vec<u32>>) -> int {
    contours_stroke_budget(contours, contours.len() as int) + 2
}

/// One stroke command added to the layout: its paint, its contours, and a stroke draw
/// over the stroke indices they added, if any.
pub open spec fn stroke_command_step(
    s: LayoutModel,
    contours: Seq<Vec<u32>>,
    fill_count: u32,
    shape: ShapeRef,
    sprite: u32,
) -> LayoutModel {
    let paint = s.paints.len() as u32;
    let s1 = LayoutModel { paints: s.paints.push(shape), ..s };
    let s2 = stroke_contours_fold(
        s1,
        contours,
        contours.len() as int,
        fill_count,
        shape,
        paint,
        sprite,
    );
    let start = s1.stroke_indices.len();
    if s2.stroke_indices.len() > start {
        LayoutModel {
            ordered_draws: s2.ordered_draws.push(
                EncodedDraw::Simple {
                    source: SimpleDrawSource::Stroke,
                    index_start: start as u32,
                    index_count: (s2.stroke_indices.len() - start) as u32,
                },
            ),
            ..s2
        }
    } else {
        s2
    }
}

proof fn lemma_stroke_contours_fold_keeps(
    s: LayoutModel,
    contours: Seq<Vec<u32>>,
    n: int,
    fill_count: u32,
    shape: ShapeRef,
    paint: u32,
    sprite: u32,
)
    ensures
        ({
            let r = stroke_contours_fold(s, contours, n, fill_count, shape, paint, sprite);
            &&& r.fill_vertices == s.fill_vertices
            &&& r.stroke_indices.len() >= s.stroke_indices.len()
        }),
    decreases n,
{
    if n > 0 {
        lemma_stroke_contours_fold_keeps(s, contours, n - 1, fill_count, shape, paint, sprite);
    }
}

/// Adds one stroke command to the layout (see `stroke_command_step`).
pub fn encode_stroke_command(
    out: &mut SpriteLayout,
    contours: &Vec<Vec<u32>>,
    fill_count: u32,
    shape: ShapeRef,
    sprite: u32,
)
    requires
        fill_count <= old(out)@.fill_vertices.len(),
        layout_size(old(out)@) + stroke_command_budget(contours@) <= u32::MAX,
    ensures
        final(out)@ == stroke_command_step(old(out)@, contours@, fill_count, shape, sprite),
        final(out)@.fill_vertices == old(out)@.fill_vertices,
        layout_size(final(out)@) <= layout_size(old(out)@) + stroke_command_budget(contours@),
        layout_wf(old(out)@) && fill_count == old(out)@.fill_vertices.len() ==> layout_wf(
            final(out)@,
        ),
{
    let ghost s0 = out@;
    let ghost cs = contours@;
    proof {
        lemma_contours_stroke_budget_monotone(cs, 0, cs.len() as int);
    }
    let ghost good = layout_wf(s0) && fill_count == s0.fill_vertices.len();
    let paint = out.paints.len() as u32;
    out.paints.push(shape);
    let ghost s1 = out@;
    assert(s1 == LayoutModel { paints: s0.paints.push(shape), ..s0 });
    proof {
        if good {
            lemma_push_paint_wf(s0, shape);
        }
    }
    let start = out.stroke_indices.len() as u32;
    let mut j: usize = 0;
    while j < contours.len()
        invariant
            cs == contours@,
            0 <= j <= cs.len(),
            fill_count <= s1.fill_vertices.len(),
            layout_size(s1) + contours_stroke_budget(cs, cs.len() as int) + 1 <= u32::MAX,
            out@ == stroke_contours_fold(s1, cs, j as int, fill_count, shape, paint, sprite),
            layout_size(out@) <= layout_size(s1) + contours_stroke_budget(cs, j as int),
            paint as int == s0.paints.len(),
            layout_size(s1) == layout_size(s0) + 1,
            good ==> layout_wf(out@) && layout_size(out@) >= layout_size(s1) && fill_count
                == out@.fill_vertices.len(),
        decreases cs.len() - j,
    {
        proof {
            lemma_contours_stroke_budget_monotone(cs, j + 1, cs.len() as int);
            lemma_stroke_contours_fold_keeps(s1, cs, j as int, fill_count, shape, paint, sprite);
        }
        let ghost prev = out@;
        encode_stroke_contour_into(out, &contours[j], fill_count, shape, j as u32, paint, sprite);
        proof {
            if good {
                lemma_stroke_contour_step_wf(prev, cs[j as int]@, shape, j as u32, paint, sprite);
            }
        }
        j = j + 1;
    }
    proof {
        lemma_stroke_contours_fold_keeps(s1, cs, cs.len() as int, fill_count, shape, paint, sprite);
    }
    let end = out.stroke_indices.len() as u32;
    if end > start {
        let d = EncodedDraw::Simple {
            source: SimpleDrawSource::Stroke,
            index_start: start,
            index_count: end - start,
        };
        proof {
            if good {
                lemma_push_draw_wf(out@, d);
            }
        }
        out.ordered_draws.push(d);
    }
}

// ─── One sprite ─────────────────────────────────────────────

/// The layout after the fill pass over the first `n` commands: fill commands in order,
/// command `k` under number `k` of group `group`; strokes are skipped.
pub open spec fn fill_pass(cmds: Seq<ShapeGeometry>, n: int, sprite: u32, group: u32) -> LayoutModel
    decreases n,
{
    if n <= 0 {
        empty_model()
    } else {
        let s = fill_pass(cmds, n - 1, sprite, group);
        match cmds[n - 1] {
            ShapeGeometry::Fill { rule, same_winding, contours, cover_nonempty } => fill_command_step(
                s,
                rule,
                same_winding,
                contours@,
                cover_nonempty,
                ShapeRef { group, command: (n - 1) as u32 },
                sprite,
            ),
            ShapeGeometry::Stroke { .. } => s,
        }
    }
}

/// The layout after the stroke pass over the first `n` commands, starting from `s`:
/// stroke commands in order; fills are skipped.
pub open spec fn stroke_pass(
    s: LayoutModel,
    cmds: Seq<ShapeGeometry>,
    n: int,
    fill_count: u32,
    sprite: u32,
    group: u32,
) -> LayoutModel
    decreases n,
{
    if n <= 0 {
        s
    } else {
        let p = stroke_pass(s, cmds, n - 1, fill_count, sprite, group);
        match cmds[n - 1] {
            ShapeGeometry::Stroke { contours } => stroke_command_step(
                p,
                contours@,
                fill_count,
                ShapeRef { group, command: (n - 1) as u32 },
                sprite,
            ),
            ShapeGeometry::Fill { .. } => p,
        }
    }
}

/// The layout of one sprite's commands: every fill first, in command order, then every
/// stroke, whose vertices follow all the fill vertices.
pub open spec fn spec_sprite_layout(cmds: Seq<ShapeGeometry>, sprite: u32, group: u32) -> LayoutModel {
    let f = fill_pass(cmds, cmds.len() as int, sprite, group);
    stroke_pass(f, cmds, cmds.len() as int, f.fill_vertices.len() as u32, sprite, group)
}

/// What one command may add to a layout's size.
pub open spec fn command_budget(c: ShapeGeometry) -> int {
    match c {
        ShapeGeometry::Fill { contours, .. } => fill_command_budget(contours@),
        ShapeGeometry::Stroke { contours } => stroke_command_budget(contours@),
    }
}

/// The budgets of the first `n` commands, summed.
pub open spec fn commands_budget(cmds: Seq<ShapeGeometry>, n: int) -> int
    decreases n,
{
    if n <= 0 {
        0
    } else {
        commands_budget(cmds, n - 1) + command_budget(cmds[n - 1])
    }
}

/// The budgets of the fill commands (`fills`) or of the stroke commands among the first
/// `n` commands, summed.
pub open spec fn pass_budget(cmds: Seq<ShapeGeometry>, n: int, fills: bool) -> int
    decreases n,
{
    if n <= 0 {
        0
    } else {
        pass_budget(cmds, n - 1, fills) + if (cmds[n - 1] is Fill) == fills {
            command_budget(cmds[n - 1])
        } else {
            0
        }
    }
}

proof fn lemma_pass_budgets(cmds: Seq<ShapeGeometry>, i: int, j: int)
    requires
        0 <= i <= j,
    ensures
        pass_budget(cmds, i, true) + pass_budget(cmds, i, false) == commands_budget(cmds, i),
        0 <= pass_budget(cmds, i, true) <= pass_budget(cmds, j, true),
        0 <= pass_budget(cmds, i, false) <= pass_budget(cmds, j, false),
    decreases j,
{
    if j > 0 {
        if i < j {
            lemma_pass_budgets(cmds, i, j - 1);
        } else {
            lemma_pass_budgets(cmds, i - 1, j - 1);
        }
        lemma_command_budget_positive(cmds[j - 1]);
    }
}

/// An upper bound on the size of a sprite's layout; the encoding needs it to fit in
/// 32 bits.
pub open spec fn sprite_budget(cmds: Seq<ShapeGeometry>) -> int {
    commands_budget(cmds, cmds.len() as int)
}

proof fn lemma_command_budget_positive(c: ShapeGeometry)
    ensures
        command_budget(c) >= 2,
{
    match c {
        ShapeGeometry::Fill { contours, .. } => {
            lemma_contours_fill_budget_monotone(contours@, 0, contours@.len() as int);
        },
        ShapeGeometry::Stroke { contours } => {
            lemma_contours_stroke_budget_monotone(contours@, 0, contours@.len() as int);
        },
    }
}

pub proof fn lemma_commands_budget_monotone(cmds: Seq<ShapeGeometry>, i: int, j: int)
    requires
        0 <= i <= j,
    ensures
        i <= commands_budget(cmds, i) <= commands_budget(cmds, j),
        commands_budget(cmds, j) >= j,
    decreases j,
{
    if j > 0 {
        if i < j {
            lemma_commands_budget_monotone(cmds, i, j - 1);
        } else {
            lemma_commands_budget_monotone(cmds, i - 1, j - 1);
        }
        lemma_command_budget_positive(cmds[j - 1]);
    }
}

/// The layout of one sprite's commands (see `spec_sprite_layout`). Every record names
/// its command as `ShapeRef { group, command }`, and carries `sprite_idx`.
pub fn tessellate_sprite_fills(commands: &Vec<ShapeGeometry>, sprite_idx: u32, group: u32) -> (r: SpriteLayout)
    requires
        sprite_budget(commands@) <= u32::MAX,
    ensures
        r@ == spec_sprite_layout(commands@, sprite_idx, group),
        layout_size(r@) <= sprite_budget(commands@),
        layout_wf(r@),
{
    let ghost cmds = commands@;
    let n = commands.len();
    proof {
        lemma_commands_budget_monotone(cmds, 0, n as int);
    }
    let mut out = SpriteLayout {
        fill_vertices: Vec::new(),
        fill_indices: Vec::new(),
        complex_fill_indices: Vec::new(),
        complex_fill_draws: Vec::new(),
        ordered_draws: Vec::new(),
        fill_contours: Vec::new(),
        fill_cubics: Vec::new(),
        paints: Vec::new(),
        segments: Vec::new(),
        stroke_indices: Vec::new(),
        stroke_vertex_count: 0,
    };
    assert(out@ =~= empty_model());
    let mut i: usize = 0;
    while i < n
        invariant
            n == cmds.len(),
            cmds == commands@,
            0 <= i <= n,
            commands_budget(cmds, n as int) <= u32::MAX,
            n <= commands_budget(cmds, n as int),
            out@ == fill_pass(cmds, i as int, sprite_idx, group),
            layout_size(out@) <= pass_budget(cmds, i as int, true),
            layout_wf(out@),
            out@.segments.len() == 0,
            out@.stroke_indices.len() == 0,
        decreases n - i,
    {
        proof {
            lemma_commands_budget_monotone(cmds, i + 1, n as int);
            lemma_pass_budgets(cmds, i + 1, n as int);
        }
        match &commands[i] {
            ShapeGeometry::Fill { rule, same_winding, contours, cover_nonempty } => {
                encode_fill_command(
                    &mut out,
                    *rule,
                    *same_winding,
                    contours,
                    *cover_nonempty,
                    ShapeRef { group, command: i as u32 },
                    sprite_idx,
                );
            },
            ShapeGeometry::Stroke { .. } => {},
        }
        i = i + 1;
    }
    let ghost f = out@;
    proof {
        lemma_pass_budgets(cmds, n as int, n as int);
    }
    let fill_count = out.fill_vertices.len() as u32;
    let mut i: usize = 0;
    while i < n
        invariant
            n == cmds.len(),
            cmds == commands@,
            0 <= i <= n,
            commands_budget(cmds, n as int) <= u32::MAX,
            n <= commands_budget(cmds, n as int),
            fill_count as int == f.fill_vertices.len(),
            out@ == stroke_pass(f, cmds, i as int, fill_count, sprite_idx, group),
            out@.fill_vertices == f.fill_vertices,
            layout_size(out@) <= layout_size(f) + pass_budget(cmds, i as int, false),
            layout_wf(out@),
            layout_size(f) <= pass_budget(cmds, n as int, true),
        decreases n - i,
    {
        proof {
            lemma_commands_budget_monotone(cmds, i + 1, n as int);
            lemma_pass_budgets(cmds, i + 1, n as int);
            lemma_pass_budgets(cmds, n as int, n as int);
            assert(pass_budget(cmds, i + 1, false) == pass_budget(cmds, i as int, false) + if (
            cmds[i as int] is Fill) == false {
                command_budget(cmds[i as int])
            } else {
                0
            });
        }
        match &commands[i] {
            ShapeGeometry::Stroke { contours } => {
                encode_stroke_command(
                    &mut out,
                    contours,
                    fill_count,
                    ShapeRef { group, command: i as u32 },
                    sprite_idx,
                );
            },
            ShapeGeometry::Fill { .. } => {},
        }
        i = i + 1;
    }
    proof {
        lemma_pass_budgets(cmds, n as int, n as int);
    }
    out
}

// ─── Checking the budget ────────────────────────────────────

/// A count cut at one past the largest 32-bit number.
pub open spec fn capped(x: int) -> int {
    if x > u32::MAX {
        u32::MAX + 1
    } else {
        x
    }
}

pub proof fn lemma_capped_sum(a: int, b: int)
    requires
        a >= 0,
        b >= 0,
    ensures
        capped(a + b) == capped(capped(a) + capped(b)),
{
}

fn cap(x: u64) -> (r: u64)
    ensures
        r == capped(x as int),
{
    if x > 0xffff_ffff {
        0x1_0000_0000
    } else {
        x
    }
}

fn capped_len(n: usize) -> (r: u64)
    ensures
        r == capped(n as int),
{
    if n > 0xffff_ffff {
        0x1_0000_0000
    } else {
        n as u64
    }
}

fn capped_total_edges(raw: &Vec<u32>, min: u32) -> (t: u64)
    ensures
        t == capped(total_edges(raw@, min)),
{
    let n = raw.len();
    let mut acc: u64 = 0;
    let mut i: usize = 0;
    while i < n
        invariant
            n == raw@.len(),
            0 <= i <= n,
            acc == capped(edges_before(raw@, i as int, min)),
        decreases n - i,
    {
        proof {
            lemma_edges_before_monotone(raw@, i as int, n as int, min);
            lemma_capped_sum(
                edges_before(raw@, i as int, min),
                crate::geometry::tessellation::edge_count(raw@, i as int, min),
            );
        }
        let c: u64 = if raw[i] < min {
            min as u64
        } else {
            raw[i] as u64
        };
        let e: u64 = if i == n - 1 {
            c + 1
        } else {
            c
        };
        acc = cap(acc + e);
        i = i + 1;
    }
    acc
}

/// The budget of one command, cut as `capped` does.
pub fn capped_command_budget(cmd: &ShapeGeometry) -> (b: u64)
    ensures
        b == capped(command_budget(*cmd)),
{
    match cmd {
        ShapeGeometry::Fill { contours, .. } => {
            let ghost cs = contours@;
            let mut acc: u64 = 0;
            let mut j: usize = 0;
            while j < contours.len()
                invariant
                    cs == contours@,
                    0 <= j <= cs.len(),
                    acc == capped(contours_fill_budget(cs, j as int)),
                decreases cs.len() - j,
            {
                let raw = &contours[j].raw_counts;
                let e = capped_total_edges(raw, MIN_FILL_CUBIC_SEGMENTS);
                let l = capped_len(raw.len());
                proof {
                    lemma_contours_fill_budget_monotone(cs, j as int, j as int);
                    lemma_edges_before_monotone(raw@, 0, raw@.len() as int, MIN_FILL_CUBIC_SEGMENTS);
                    lemma_capped_sum(
                        5 * total_edges(raw@, MIN_FILL_CUBIC_SEGMENTS),
                        raw@.len() + 2int,
                    );
                    lemma_capped_sum(raw@.len() as int, 2);
                    lemma_capped_sum(
                        contours_fill_budget(cs, j as int),
                        fill_contour_budget(raw@),
                    );
                }
                let one = cap(5 * e + cap(l + 2));
                acc = cap(acc + one);
                j = j + 1;
            }
            proof {
                lemma_contours_fill_budget_monotone(cs, 0, cs.len() as int);
                lemma_capped_sum(contours_fill_budget(cs, cs.len() as int), 16);
            }
            cap(acc + 16)
        },
        ShapeGeometry::Stroke { contours } => {
            let ghost cs = contours@;
            let mut acc: u64 = 0;
            let mut j: usize = 0;
            while j < contours.len()
                invariant
                    cs == contours@,
                    0 <= j <= cs.len(),
                    acc == capped(contours_stroke_budget(cs, j as int)),
                decreases cs.len() - j,
            {
                let raw = &contours[j];
                let t = capped_total_edges(raw, 1);
                let l = capped_len(raw.len());
                proof {
                    lemma_contours_stroke_budget_monotone(cs, j as int, j as int);
                    lemma_edges_before_monotone(raw@, 0, raw@.len() as int, 1);
                    lemma_capped_sum(2 * raw@.len() as int, 8 * total_edges(raw@, 1) + 1);
                    lemma_capped_sum(
                        contours_stroke_budget(cs, j as int),
                        stroke_contour_budget(raw@),
                    );
                }
                let one = cap(2 * l + 8 * t + 1);
                acc = cap(acc + one);
                j = j + 1;
            }
            proof {
                lemma_contours_stroke_budget_monotone(cs, 0, cs.len() as int);
                lemma_capped_sum(contours_stroke_budget(cs, cs.len() as int), 2);
            }
            cap(acc + 2)
        },
    }
}

/// The budget of a sprite's commands, cut as `capped` does.
pub fn capped_sprite_budget(commands: &Vec<ShapeGeometry>) -> (b: u64)
    ensures
        b == capped(sprite_budget(commands@)),
{
    let ghost cmds = commands@;
    let mut acc: u64 = 0;
    let mut i: usize = 0;
    while i < commands.len()
        invariant
            cmds == commands@,
            0 <= i <= cmds.len(),
            acc == capped(commands_budget(cmds, i as int)),
        decreases cmds.len() - i,
    {
        let one = capped_command_budget(&commands[i]);
        proof {
            lemma_commands_budget_monotone(cmds, i as int, i as int);
            lemma_command_budget_positive(cmds[i as int]);
            lemma_capped_sum(commands_budget(cmds, i as int), command_budget(cmds[i as int]));
        }
        acc = cap(acc + one);
        i = i + 1;
    }
    acc
}

} // verus!
