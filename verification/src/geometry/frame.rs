//! The layout of a whole frame: the layouts of a batch of sprites concatenated (each
//! sprite's records shifted past those of the sprites before it), or one sprite's
//! layout drawn once per instance.
use vstd::prelude::*;
use crate::geometry::encoding::{
    capped, capped_sprite_budget, complex_within, layout_size, layout_wf, lemma_capped_sum, lemma_commands_budget_monotone, spec_sprite_layout, sprite_budget,
    tessellate_sprite_fills, FillContourSlot, FillCubicSlot, FillVertexSlot, LayoutModel,
    ShapeGeometry, SpriteLayout,
};
use crate::geometry::tessellation::{
    remap_fits, remap_local_draws, shifted_complex,
    spec_remap_draw, ComplexFillDraw, EncodedDraw, ShapeRef, SimpleDrawSource, StrokeSegmentSlot,
};

verus! {

/// Where a paint record comes from: a shape command, or the default paint that an
/// encoding without any paint still carries.
#[derive(Clone, Copy, Debug, PartialEq, Eq, Structural)]
pub enum PaintSlot {
    Shape(ShapeRef),
    Default,
}

/// The layout of a frame.
pub struct EncodedLayout {
    pub fill_contours: Vec<FillContourSlot>,
    pub fill_cubics: Vec<FillCubicSlot>,
    pub fill_vertex_count: u32,
    pub fill_indices: Vec<u32>,
    pub complex_fill_indices: Vec<u32>,
    pub complex_fill_draws: Vec<ComplexFillDraw>,
    pub ordered_draws: Vec<EncodedDraw>,
    pub fill_vertices: Vec<FillVertexSlot>,
    pub segments: Vec<StrokeSegmentSlot>,
    pub stroke_indices: Vec<u32>,
    pub stroke_vertex_count: u32,
    pub paints: Vec<PaintSlot>,
    /// How many instances the renderer draws: one per sprite when one layout stands
    /// for all of them, one otherwise.
    pub instance_count: u32,
}

/// The contents of an `EncodedLayout`.
pub struct EncodedModel {
    pub fill_contours: Seq<FillContourSlot>,
    pub fill_cubics: Seq<FillCubicSlot>,
    pub fill_vertex_count: u32,
    pub fill_indices: Seq<u32>,
    pub complex_fill_indices: Seq<u32>,
    pub complex_fill_draws: Seq<ComplexFillDraw>,
    pub ordered_draws: Seq<EncodedDraw>,
    pub fill_vertices: Seq<FillVertexSlot>,
    pub segments: Seq<StrokeSegmentSlot>,
    pub stroke_indices: Seq<u32>,
    pub stroke_vertex_count: u32,
    pub paints: Seq<PaintSlot>,
    pub instance_count: u32,
}

impl View for EncodedLayout {
    type V = EncodedModel;

    open spec fn view(&self) -> EncodedModel {
        EncodedModel {
            fill_contours: self.fill_contours@,
            fill_cubics: self.fill_cubics@,
            fill_vertex_count: self.fill_vertex_count,
            fill_indices: self.fill_indices@,
            complex_fill_indices: self.complex_fill_indices@,
            complex_fill_draws: self.complex_fill_draws@,
            ordered_draws: self.ordered_draws@,
            fill_vertices: self.fill_vertices@,
            segments: self.segments@,
            stroke_indices: self.stroke_indices@,
            stroke_vertex_count: self.stroke_vertex_count,
            paints: self.paints@,
            instance_count: self.instance_count,
        }
    }
}

/// The frame layout with nothing in it, drawn once.
pub open spec fn empty_encoded() -> EncodedModel {
    EncodedModel {
        fill_contours: Seq::empty(),
        fill_cubics: Seq::empty(),
        fill_vertex_count: 0,
        fill_indices: Seq::empty(),
        complex_fill_indices: Seq::empty(),
        complex_fill_draws: Seq::empty(),
        ordered_draws: Seq::empty(),
        fill_vertices: Seq::empty(),
        segments: Seq::empty(),
        stroke_indices: Seq::empty(),
        stroke_vertex_count: 0,
        paints: Seq::empty(),
        instance_count: 1,
    }
}

/// Everything a frame layout holds, counted together (the stroke vertices included).
pub open spec fn encoded_size(e: EncodedModel) -> int {
    e.fill_vertices.len() + e.fill_indices.len() + e.complex_fill_indices.len()
        + e.complex_fill_draws.len() + e.ordered_draws.len() + e.fill_contours.len()
        + e.fill_cubics.len() + e.paints.len() + e.segments.len() + e.stroke_indices.len()
        + e.stroke_vertex_count
}

/// The part of a sprite layout that the fill half of concatenation takes over.
pub open spec fn fill_part(l: LayoutModel) -> int {
    l.fill_vertices.len() + l.fill_indices.len() + l.complex_fill_indices.len()
        + l.complex_fill_draws.len() + l.fill_contours.len() + l.fill_cubics.len()
        + l.paints.len() as int
}

// ─── Shifting records ───────────────────────────────────────

/// A fill vertex whose paint number is moved by `p`.
pub open spec fn offset_vertex(x: FillVertexSlot, p: u32) -> FillVertexSlot {
    FillVertexSlot { paint_index: (x.paint_index + p) as u32, ..x }
}

/// A fill contour whose first cubic, first vertex and paint are moved by `k`, `v` and
/// `p`; its first index stays as it is.
pub open spec fn offset_contour(x: FillContourSlot, k: u32, v: u32, p: u32) -> FillContourSlot {
    FillContourSlot {
        first_cubic: (x.first_cubic + k) as u32,
        first_vertex: (x.first_vertex + v) as u32,
        paint_index: (x.paint_index + p) as u32,
        ..x
    }
}

/// A stroke vertex number of a sprite whose fill vertices number `lf`, moved to start
/// at `base`.
pub open spec fn rebased(x: u32, base: int, lf: int) -> u32 {
    (base + (x - lf)) as u32
}

/// A stroke segment record moved to `base` and to paint offset `p`.
pub open spec fn rebased_segment(x: StrokeSegmentSlot, base: int, lf: int, p: u32) -> StrokeSegmentSlot {
    StrokeSegmentSlot {
        first_vertex_idx: rebased(x.first_vertex_idx, base, lf),
        paint_index: (x.paint_index + p) as u32,
        ..x
    }
}

// ─── Concatenation ──────────────────────────────────────────

/// The fill half of adding a sprite layout `l` after `acc`: its fill vertices (paints
/// moved past `acc`'s paints), fill and complex indices (moved past `acc`'s fill
/// vertices), complex draws (moved past `acc`'s complex indices), contours, cubics and
/// paints.
pub open spec fn merge_fill_step(acc: EncodedModel, l: LayoutModel) -> EncodedModel {
    let p = acc.paints.len() as u32;
    let v = acc.fill_vertices.len() as u32;
    let c = acc.complex_fill_indices.len() as u32;
    let k = acc.fill_cubics.len() as u32;
    EncodedModel {
        fill_vertices: acc.fill_vertices + l.fill_vertices.map_values(
            |x: FillVertexSlot| offset_vertex(x, p),
        ),
        fill_indices: acc.fill_indices + l.fill_indices.map_values(|x: u32| (x + v) as u32),
        complex_fill_indices: acc.complex_fill_indices + l.complex_fill_indices.map_values(
            |x: u32| (x + v) as u32,
        ),
        complex_fill_draws: acc.complex_fill_draws + l.complex_fill_draws.map_values(
            |d: ComplexFillDraw| shifted_complex(d, c),
        ),
        fill_contours: acc.fill_contours + l.fill_contours.map_values(
            |x: FillContourSlot| offset_contour(x, k, v, p),
        ),
        fill_cubics: acc.fill_cubics + l.fill_cubics,
        paints: acc.paints + l.paints.map_values(|s: ShapeRef| PaintSlot::Shape(s)),
        ..acc
    }
}

/// The fill halves of the first `n` sprite layouts, in order, from nothing.
pub open spec fn merge_fills(ls: Seq<LayoutModel>, n: int) -> EncodedModel
    decreases n,
{
    if n <= 0 {
        empty_encoded()
    } else {
        merge_fill_step(merge_fills(ls, n - 1), ls[n - 1])
    }
}

/// The stroke half of adding sprite layout `l`, whose paints, fill indices and complex
/// indices were placed after `p`, `f` and `c` others: its stroke vertices follow all
/// fill vertices and the stroke vertices of the sprites before it; its stroke indices
/// and segment records are moved there; its draws are remapped, stroke draws past all
/// fill indices and the stroke indices before it.
pub open spec fn merge_stroke_step(acc: EncodedModel, l: LayoutModel, p: u32, f: u32, c: u32) -> EncodedModel {
    let base = acc.fill_vertices.len() + acc.stroke_vertex_count;
    let lf = l.fill_vertices.len() as int;
    let s = (acc.fill_indices.len() + acc.stroke_indices.len()) as u32;
    EncodedModel {
        segments: acc.segments + l.segments.map_values(
            |x: StrokeSegmentSlot| rebased_segment(x, base, lf, p),
        ),
        stroke_indices: acc.stroke_indices + l.stroke_indices.map_values(
            |x: u32| rebased(x, base, lf),
        ),
        ordered_draws: acc.ordered_draws + l.ordered_draws.map_values(
            |d: EncodedDraw| spec_remap_draw(d, f, s, c),
        ),
        stroke_vertex_count: (acc.stroke_vertex_count + l.stroke_vertex_count) as u32,
        ..acc
    }
}

/// The stroke halves of the first `n` sprite layouts, in order, after the fill halves of
/// all of them (`start`).
pub open spec fn merge_strokes(start: EncodedModel, ls: Seq<LayoutModel>, n: int) -> EncodedModel
    decreases n,
{
    if n <= 0 {
        start
    } else {
        let before = merge_fills(ls, n - 1);
        merge_stroke_step(
            merge_strokes(start, ls, n - 1),
            ls[n - 1],
            before.paints.len() as u32,
            before.fill_indices.len() as u32,
            before.complex_fill_indices.len() as u32,
        )
    }
}

/// The default paint added to a frame without any paint.
pub open spec fn with_default_paint(paints: Seq<PaintSlot>) -> Seq<PaintSlot> {
    if paints.len() == 0 {
        seq![PaintSlot::Default]
    } else {
        paints
    }
}

/// The frame layout of a batch of sprites drawn once: the fill halves of all sprite
/// layouts in order, then their stroke halves in order.
pub open spec fn spec_concat_layouts(ls: Seq<LayoutModel>) -> EncodedModel {
    let f = merge_fills(ls, ls.len() as int);
    let e = merge_strokes(f, ls, ls.len() as int);
    EncodedModel {
        paints: with_default_paint(e.paints),
        fill_vertex_count: e.fill_vertices.len() as u32,
        instance_count: 1,
        ..e
    }
}

/// The frame layout of one sprite layout drawn `instance_count` times: its records as
/// they are, stroke draws moved past its fill indices.
pub open spec fn spec_instanced_layout(l: LayoutModel, instance_count: u32) -> EncodedModel {
    EncodedModel {
        fill_contours: l.fill_contours,
        fill_cubics: l.fill_cubics,
        fill_vertex_count: l.fill_vertices.len() as u32,
        fill_indices: l.fill_indices,
        complex_fill_indices: l.complex_fill_indices,
        complex_fill_draws: l.complex_fill_draws,
        ordered_draws: l.ordered_draws.map_values(
            |d: EncodedDraw| spec_remap_draw(d, 0, l.fill_indices.len() as u32, 0),
        ),
        fill_vertices: l.fill_vertices,
        segments: l.segments,
        stroke_indices: l.stroke_indices,
        stroke_vertex_count: l.stroke_vertex_count,
        paints: with_default_paint(l.paints.map_values(|s: ShapeRef| PaintSlot::Shape(s))),
        instance_count,
    }
}

/// Appends the vertices of `src` with their paints moved by `p`.
fn append_offset_vertices(dst: &mut Vec<FillVertexSlot>, src: &Vec<FillVertexSlot>, p: u32)
    requires
        forall|i: int| 0 <= i < src@.len() ==> #[trigger] src@[i].paint_index + p <= u32::MAX,
    ensures
        final(dst)@ == old(dst)@ + src@.map_values(|x: FillVertexSlot| offset_vertex(x, p)),
{
    let mut i: usize = 0;
    while i < src.len()
        invariant
            0 <= i <= src@.len(),
            forall|j: int| 0 <= j < src@.len() ==> #[trigger] src@[j].paint_index + p <= u32::MAX,
            dst@ =~= old(dst)@ + src@.take(i as int).map_values(|x: FillVertexSlot| offset_vertex(x, p)),
        decreases src@.len() - i,
    {
        let x = src[i];
        dst.push(FillVertexSlot { paint_index: x.paint_index + p, ..x });
        proof {
            assert(src@.take(i + 1) =~= src@.take(i as int).push(src@[i as int]));
        }
        i = i + 1;
    }
    proof {
        assert(src@.take(src@.len() as int) =~= src@);
    }
}

/// Appends the indices of `src` moved by `v`.
fn append_offset_indices(dst: &mut Vec<u32>, src: &Vec<u32>, v: u32)
    requires
        forall|i: int| 0 <= i < src@.len() ==> #[trigger] src@[i] + v <= u32::MAX,
    ensures
        final(dst)@ == old(dst)@ + src@.map_values(|x: u32| (x + v) as u32),
{
    let mut i: usize = 0;
    while i < src.len()
        invariant
            0 <= i <= src@.len(),
            forall|j: int| 0 <= j < src@.len() ==> #[trigger] src@[j] + v <= u32::MAX,
            dst@ =~= old(dst)@ + src@.take(i as int).map_values(|x: u32| (x + v) as u32),
        decreases src@.len() - i,
    {
        let x = src[i];
        dst.push(x + v);
        proof {
            assert(src@.take(i + 1) =~= src@.take(i as int).push(src@[i as int]));
        }
        i = i + 1;
    }
    proof {
        assert(src@.take(src@.len() as int) =~= src@);
    }
}

/// Appends the complex draws of `src` with their index ranges moved by `c`.
fn append_shifted_complex(dst: &mut Vec<ComplexFillDraw>, src: &Vec<ComplexFillDraw>, c: u32)
    requires
        forall|i: int| 0 <= i < src@.len() ==> #[trigger] src@[i].stencil_index_start + c <= u32::MAX && src@[i].cover_index_start + c <= u32::MAX,
    ensures
        final(dst)@ == old(dst)@ + src@.map_values(|x: ComplexFillDraw| shifted_complex(x, c)),
{
    let mut i: usize = 0;
    while i < src.len()
        invariant
            0 <= i <= src@.len(),
            forall|j: int| 0 <= j < src@.len() ==> #[trigger] src@[j].stencil_index_start + c <= u32::MAX && src@[j].cover_index_start + c <= u32::MAX,
            dst@ =~= old(dst)@ + src@.take(i as int).map_values(|x: ComplexFillDraw| shifted_complex(x, c)),
        decreases src@.len() - i,
    {
        let x = src[i];
        dst.push(ComplexFillDraw { stencil_index_start: x.stencil_index_start + c, cover_index_start: x.cover_index_start + c, ..x });
        proof {
            assert(src@.take(i + 1) =~= src@.take(i as int).push(src@[i as int]));
        }
        i = i + 1;
    }
    proof {
        assert(src@.take(src@.len() as int) =~= src@);
    }
}

/// Appends the contours of `src` with first cubic, first vertex and paint moved.
fn append_offset_contours(dst: &mut Vec<FillContourSlot>, src: &Vec<FillContourSlot>, k: u32, v: u32, p: u32)
    requires
        forall|i: int| 0 <= i < src@.len() ==> #[trigger] src@[i].first_cubic + k <= u32::MAX && src@[i].first_vertex + v <= u32::MAX && src@[i].paint_index + p <= u32::MAX,
    ensures
        final(dst)@ == old(dst)@ + src@.map_values(|x: FillContourSlot| offset_contour(x, k, v, p)),
{
    let mut i: usize = 0;
    while i < src.len()
        invariant
            0 <= i <= src@.len(),
            forall|j: int| 0 <= j < src@.len() ==> #[trigger] src@[j].first_cubic + k <= u32::MAX && src@[j].first_vertex + v <= u32::MAX && src@[j].paint_index + p <= u32::MAX,
            dst@ =~= old(dst)@ + src@.take(i as int).map_values(|x: FillContourSlot| offset_contour(x, k, v, p)),
        decreases src@.len() - i,
    {
        let x = src[i];
        dst.push(FillContourSlot { first_cubic: x.first_cubic + k, first_vertex: x.first_vertex + v, paint_index: x.paint_index + p, ..x });
        proof {
            assert(src@.take(i + 1) =~= src@.take(i as int).push(src@[i as int]));
        }
        i = i + 1;
    }
    proof {
        assert(src@.take(src@.len() as int) =~= src@);
    }
}

/// Appends the cubic records of `src` as they are.
fn append_cubics(dst: &mut Vec<FillCubicSlot>, src: &Vec<FillCubicSlot>)
    ensures
        final(dst)@ == old(dst)@ + src@.map_values(|x: FillCubicSlot| x),
{
    let mut i: usize = 0;
    while i < src.len()
        invariant
            0 <= i <= src@.len(),
            dst@ =~= old(dst)@ + src@.take(i as int).map_values(|x: FillCubicSlot| x),
        decreases src@.len() - i,
    {
        let x = src[i];
        dst.push(x);
        proof {
            assert(src@.take(i + 1) =~= src@.take(i as int).push(src@[i as int]));
        }
        i = i + 1;
    }
    proof {
        assert(src@.take(src@.len() as int) =~= src@);
    }
}

/// Appends a paint record for each shape of `src`.
fn append_shape_paints(dst: &mut Vec<PaintSlot>, src: &Vec<ShapeRef>)
    ensures
        final(dst)@ == old(dst)@ + src@.map_values(|x: ShapeRef| PaintSlot::Shape(x)),
{
    let mut i: usize = 0;
    while i < src.len()
        invariant
            0 <= i <= src@.len(),
            dst@ =~= old(dst)@ + src@.take(i as int).map_values(|x: ShapeRef| PaintSlot::Shape(x)),
        decreases src@.len() - i,
    {
        let x = src[i];
        dst.push(PaintSlot::Shape(x));
        proof {
            assert(src@.take(i + 1) =~= src@.take(i as int).push(src@[i as int]));
        }
        i = i + 1;
    }
    proof {
        assert(src@.take(src@.len() as int) =~= src@);
    }
}

/// Appends the segment records of `src`, moved from after `lf` fill vertices to `base`
/// and to paint offset `p`.
fn append_rebased_segments(dst: &mut Vec<StrokeSegmentSlot>, src: &Vec<StrokeSegmentSlot>, base: u32, lf: u32, p: u32)
    requires
        forall|i: int| 0 <= i < src@.len() ==> lf <= #[trigger] src@[i].first_vertex_idx && base + (src@[i].first_vertex_idx - lf) <= u32::MAX && src@[i].paint_index + p <= u32::MAX,
    ensures
        final(dst)@ == old(dst)@ + src@.map_values(|x: StrokeSegmentSlot| rebased_segment(x, base as int, lf as int, p)),
{
    let mut i: usize = 0;
    while i < src.len()
        invariant
            0 <= i <= src@.len(),
            forall|j: int| 0 <= j < src@.len() ==> lf <= #[trigger] src@[j].first_vertex_idx && base + (src@[j].first_vertex_idx - lf) <= u32::MAX && src@[j].paint_index + p <= u32::MAX,
            dst@ =~= old(dst)@ + src@.take(i as int).map_values(|x: StrokeSegmentSlot| rebased_segment(x, base as int, lf as int, p)),
        decreases src@.len() - i,
    {
        let x = src[i];
        dst.push(StrokeSegmentSlot { first_vertex_idx: base + (x.first_vertex_idx - lf), paint_index: x.paint_index + p, ..x });
        proof {
            assert(src@.take(i + 1) =~= src@.take(i as int).push(src@[i as int]));
        }
        i = i + 1;
    }
    proof {
        assert(src@.take(src@.len() as int) =~= src@);
    }
}

/// Appends the stroke indices of `src`, moved from after `lf` fill vertices to `base`.
fn append_rebased_indices(dst: &mut Vec<u32>, src: &Vec<u32>, base: u32, lf: u32)
    requires
        forall|i: int| 0 <= i < src@.len() ==> lf <= #[trigger] src@[i] && base + (src@[i] - lf) <= u32::MAX,
    ensures
        final(dst)@ == old(dst)@ + src@.map_values(|x: u32| rebased(x, base as int, lf as int)),
{
    let mut i: usize = 0;
    while i < src.len()
        invariant
            0 <= i <= src@.len(),
            forall|j: int| 0 <= j < src@.len() ==> lf <= #[trigger] src@[j] && base + (src@[j] - lf) <= u32::MAX,
            dst@ =~= old(dst)@ + src@.take(i as int).map_values(|x: u32| rebased(x, base as int, lf as int)),
        decreases src@.len() - i,
    {
        let x = src[i];
        dst.push(base + (x - lf));
        proof {
            assert(src@.take(i + 1) =~= src@.take(i as int).push(src@[i as int]));
        }
        i = i + 1;
    }
    proof {
        assert(src@.take(src@.len() as int) =~= src@);
    }
}

/// Appends the draws of `src` remapped by `spec_remap_draw`.
fn append_remapped_draws(dst: &mut Vec<EncodedDraw>, src: &Vec<EncodedDraw>, f: u32, st: u32, c: u32)
    requires
        forall|i: int| 0 <= i < src@.len() ==> remap_fits(#[trigger] src@[i], f, st, c),
    ensures
        final(dst)@ == old(dst)@ + src@.map_values(|d: EncodedDraw| spec_remap_draw(d, f, st, c)),
{
    remap_local_draws(src, f, st, c, dst);
    let ghost n0 = old(dst)@.len();
    assert forall|i: int| 0 <= i < n0 implies #[trigger] dst@[i] == old(dst)@[i] by {
        assert(dst@.subrange(0, n0 as int)[i] == old(dst)@[i]);
    }
    assert forall|i: int| n0 <= i < dst@.len() implies #[trigger] dst@[i] == spec_remap_draw(
        src@[i - n0],
        f,
        st,
        c,
    ) by {
        assert(dst@[n0 + (i - n0)] == spec_remap_draw(src@[i - n0], f, st, c));
    }
    assert(dst@ =~= old(dst)@ + src@.map_values(|d: EncodedDraw| spec_remap_draw(d, f, st, c)));
}

/// Adds the fill half of sprite layout `l` to a frame (see `merge_fill_step`).
fn merge_fill_group(acc: &mut EncodedLayout, l: &SpriteLayout)
    requires
        layout_wf(l@),
        encoded_size(old(acc)@) + layout_size(l@) <= u32::MAX,
    ensures
        final(acc)@ == merge_fill_step(old(acc)@, l@),
        encoded_size(final(acc)@) == encoded_size(old(acc)@) + fill_part(l@),
{
    let ghost a0 = acc@;
    let ghost lm = l@;
    let p = acc.paints.len() as u32;
    let v = acc.fill_vertices.len() as u32;
    let c = acc.complex_fill_indices.len() as u32;
    let k = acc.fill_cubics.len() as u32;
    append_offset_vertices(&mut acc.fill_vertices, &l.fill_vertices, p);
    append_offset_indices(&mut acc.fill_indices, &l.fill_indices, v);
    append_offset_indices(&mut acc.complex_fill_indices, &l.complex_fill_indices, v);
    assert forall|i: int| 0 <= i < lm.complex_fill_draws.len() implies (#[trigger] lm.complex_fill_draws[i]).stencil_index_start
        + c <= u32::MAX && lm.complex_fill_draws[i].cover_index_start + c <= u32::MAX by {
        assert(lm.complex_fill_draws[i].stencil_index_start <= lm.complex_fill_indices.len());
        assert(lm.complex_fill_draws[i].cover_index_start <= lm.complex_fill_indices.len());
    }
    append_shifted_complex(&mut acc.complex_fill_draws, &l.complex_fill_draws, c);
    assert forall|i: int| 0 <= i < lm.fill_contours.len() implies (#[trigger] lm.fill_contours[i]).first_cubic
        + k <= u32::MAX && lm.fill_contours[i].first_vertex + v <= u32::MAX
        && lm.fill_contours[i].paint_index + p <= u32::MAX by {
        assert(lm.fill_contours[i].first_cubic <= layout_size(lm));
    }
    append_offset_contours(&mut acc.fill_contours, &l.fill_contours, k, v, p);
    append_cubics(&mut acc.fill_cubics, &l.fill_cubics);
    append_shape_paints(&mut acc.paints, &l.paints);
    let ghost r = merge_fill_step(a0, lm);
    assert(acc.fill_vertices@ == r.fill_vertices);
    assert(acc.fill_indices@ == r.fill_indices);
    assert(acc.complex_fill_indices@ == r.complex_fill_indices);
    assert(acc.complex_fill_draws@ == r.complex_fill_draws);
    assert(acc.fill_contours@ == r.fill_contours);
    assert(acc.fill_cubics@ == r.fill_cubics);
    assert(acc.paints@ == r.paints);
    assert(acc@ == merge_fill_step(a0, lm));
}

/// Adds the stroke half of sprite layout `l` to a frame (see `merge_stroke_step`).
fn merge_stroke_group(acc: &mut EncodedLayout, l: &SpriteLayout, p: u32, f: u32, c: u32)
    requires
        layout_wf(l@),
        encoded_size(old(acc)@) + layout_size(l@) - fill_part(l@) <= u32::MAX,
        p + layout_size(l@) <= u32::MAX,
        f + l@.fill_indices.len() <= u32::MAX,
        c + l@.complex_fill_indices.len() <= u32::MAX,
    ensures
        final(acc)@ == merge_stroke_step(old(acc)@, l@, p, f, c),
        encoded_size(final(acc)@) == encoded_size(old(acc)@) + layout_size(l@) - fill_part(l@),
{
    let ghost a0 = acc@;
    let ghost lm = l@;
    let base = acc.fill_vertices.len() as u32 + acc.stroke_vertex_count;
    let lf = l.fill_vertices.len() as u32;
    let st = (acc.fill_indices.len() + acc.stroke_indices.len()) as u32;
    assert forall|i: int| 0 <= i < lm.segments.len() implies lf <= (#[trigger] lm.segments[i]).first_vertex_idx
        && base + (lm.segments[i].first_vertex_idx - lf) <= u32::MAX && lm.segments[i].paint_index
        + p <= u32::MAX by {
        assert(lm.segments[i].first_vertex_idx <= lf + lm.stroke_vertex_count);
    }
    append_rebased_segments(&mut acc.segments, &l.segments, base, lf, p);
    assert forall|i: int| 0 <= i < lm.stroke_indices.len() implies lf <= #[trigger] lm.stroke_indices[i]
        && base + (lm.stroke_indices[i] - lf) <= u32::MAX by {
        assert(lm.stroke_indices[i] <= lf + lm.stroke_vertex_count);
    }
    append_rebased_indices(&mut acc.stroke_indices, &l.stroke_indices, base, lf);
    assert forall|i: int| 0 <= i < lm.ordered_draws.len() implies remap_fits(
        #[trigger] lm.ordered_draws[i],
        f,
        st,
        c,
    ) by {
        assert(crate::geometry::encoding::draw_within(lm.ordered_draws[i], lm));
    }
    append_remapped_draws(&mut acc.ordered_draws, &l.ordered_draws, f, st, c);
    acc.stroke_vertex_count = acc.stroke_vertex_count + l.stroke_vertex_count;
    assert(acc@ == merge_stroke_step(a0, lm, p, f, c));
}

// ─── Frames ─────────────────────────────────────────────────

/// The sizes of the first `n` layouts, summed.
pub open spec fn sum_sizes(ls: Seq<LayoutModel>, n: int) -> int
    decreases n,
{
    if n <= 0 {
        0
    } else {
        sum_sizes(ls, n - 1) + layout_size(ls[n - 1])
    }
}

/// The fill parts of the first `n` layouts, summed.
pub open spec fn sum_fill_parts(ls: Seq<LayoutModel>, n: int) -> int
    decreases n,
{
    if n <= 0 {
        0
    } else {
        sum_fill_parts(ls, n - 1) + fill_part(ls[n - 1])
    }
}

proof fn lemma_sums(ls: Seq<LayoutModel>, i: int, j: int)
    requires
        0 <= i <= j,
    ensures
        0 <= sum_fill_parts(ls, i) <= sum_sizes(ls, i),
        0 <= sum_fill_parts(ls, j) - sum_fill_parts(ls, i) <= sum_sizes(ls, j) - sum_sizes(ls, i),
    decreases j,
{
    if j > 0 {
        if i < j {
            lemma_sums(ls, i, j - 1);
        } else {
            lemma_sums(ls, i - 1, j - 1);
        }
    }
}

/// The fill halves placed so far take exactly the fill parts of their layouts, and add
/// no stroke record and no draw.
proof fn lemma_merge_fills_shape(ls: Seq<LayoutModel>, n: int)
    requires
        0 <= n <= ls.len(),
    ensures
        encoded_size(merge_fills(ls, n)) == sum_fill_parts(ls, n),
        merge_fills(ls, n).paints.len() <= sum_fill_parts(ls, n),
        merge_fills(ls, n).fill_indices.len() <= sum_fill_parts(ls, n),
        merge_fills(ls, n).complex_fill_indices.len() <= sum_fill_parts(ls, n),
        n < ls.len() ==> merge_fills(ls, n + 1).fill_indices.len() == merge_fills(ls, n).fill_indices.len()
            + ls[n].fill_indices.len(),
        n < ls.len() ==> merge_fills(ls, n + 1).complex_fill_indices.len() == merge_fills(
            ls,
            n,
        ).complex_fill_indices.len() + ls[n].complex_fill_indices.len(),
        merge_fills(ls, n).segments.len() == 0,
        merge_fills(ls, n).stroke_indices.len() == 0,
        merge_fills(ls, n).ordered_draws.len() == 0,
        merge_fills(ls, n).stroke_vertex_count == 0,
        merge_fills(ls, n).fill_vertex_count == 0,
        merge_fills(ls, n).instance_count == 1,
    decreases n,
{
    if n > 0 {
        lemma_merge_fills_shape(ls, n - 1);
    }
}

/// The stroke halves leave every fill record, the paints and the instance count alone.
proof fn lemma_merge_strokes_keeps(start: EncodedModel, ls: Seq<LayoutModel>, n: int)
    ensures
        ({
            let e = merge_strokes(start, ls, n);
            &&& e.fill_vertices == start.fill_vertices
            &&& e.fill_indices == start.fill_indices
            &&& e.complex_fill_indices == start.complex_fill_indices
            &&& e.complex_fill_draws == start.complex_fill_draws
            &&& e.fill_contours == start.fill_contours
            &&& e.fill_cubics == start.fill_cubics
            &&& e.paints == start.paints
            &&& e.fill_vertex_count == start.fill_vertex_count
            &&& e.instance_count == start.instance_count
        }),
    decreases n,
{
    if n > 0 {
        lemma_merge_strokes_keeps(start, ls, n - 1);
    }
}

/// Whether a draw of a frame lies within the frame's index buffer, which holds the
/// fill indices, then the stroke indices, then (as a list of its own) the complex
/// indices.
pub open spec fn frame_draw_within(d: EncodedDraw, e: EncodedModel) -> bool {
    match d {
        EncodedDraw::Simple { source, index_start, index_count } => match source {
            SimpleDrawSource::Fill => index_start + index_count <= e.fill_indices.len(),
            SimpleDrawSource::Stroke => e.fill_indices.len() <= index_start && index_start
                + index_count <= e.fill_indices.len() + e.stroke_indices.len(),
        },
        EncodedDraw::Complex(c) => complex_within(c, e.complex_fill_indices.len() as int),
    }
}

/// Whether a frame layout can be drawn as it stands: fill and complex indices name
/// fill vertices, stroke indices name stroke vertices (which follow the fill
/// vertices), and every draw lies within the index buffer.
pub open spec fn frame_wf(e: EncodedModel) -> bool {
    let fc = e.fill_vertex_count;
    &&& fc == e.fill_vertices.len()
    &&& forall|i: int| 0 <= i < e.fill_indices.len() ==> #[trigger] e.fill_indices[i] < fc
    &&& forall|i: int|
        0 <= i < e.complex_fill_indices.len() ==> #[trigger] e.complex_fill_indices[i] < fc
    &&& forall|i: int|
        0 <= i < e.stroke_indices.len() ==> fc <= #[trigger] e.stroke_indices[i] < fc
            + e.stroke_vertex_count
    &&& forall|i: int|
        0 <= i < e.complex_fill_draws.len() ==> complex_within(
            #[trigger] e.complex_fill_draws[i],
            e.complex_fill_indices.len() as int,
        )
    &&& forall|i: int|
        0 <= i < e.ordered_draws.len() ==> frame_draw_within(#[trigger] e.ordered_draws[i], e)
}

proof fn lemma_merge_fills_grow(ls: Seq<LayoutModel>, i: int, j: int)
    requires
        0 <= i <= j <= ls.len(),
    ensures
        merge_fills(ls, i).fill_indices.len() <= merge_fills(ls, j).fill_indices.len(),
        merge_fills(ls, i).complex_fill_indices.len() <= merge_fills(ls, j).complex_fill_indices.len(),
    decreases j,
{
    if i < j {
        lemma_merge_fills_grow(ls, i, j - 1);
    }
}

/// The fill halves of well-formed sprite layouts index only their own fill vertices.
proof fn lemma_merge_fills_in_range(ls: Seq<LayoutModel>, n: int)
    requires
        0 <= n <= ls.len(),
        forall|g: int| 0 <= g < ls.len() ==> layout_wf(#[trigger] ls[g]),
        sum_sizes(ls, n) < u32::MAX,
    ensures
        ({
            let e = merge_fills(ls, n);
            &&& forall|i: int| 0 <= i < e.fill_indices.len() ==> #[trigger] e.fill_indices[i]
                < e.fill_vertices.len()
            &&& forall|i: int|
                0 <= i < e.complex_fill_indices.len() ==> #[trigger] e.complex_fill_indices[i]
                    < e.fill_vertices.len()
            &&& forall|i: int|
                0 <= i < e.complex_fill_draws.len() ==> complex_within(
                    #[trigger] e.complex_fill_draws[i],
                    e.complex_fill_indices.len() as int,
                )
        }),
    decreases n,
{
    if n > 0 {
        lemma_sums(ls, n - 1, n);
        lemma_merge_fills_in_range(ls, n - 1);
        lemma_merge_fills_shape(ls, n - 1);
        let a = merge_fills(ls, n - 1);
        let l = ls[n - 1];
        let e = merge_fills(ls, n);
        assert(layout_wf(l));
        let v = a.fill_vertices.len();
        let c = a.complex_fill_indices.len();
        assert(v + layout_size(l) < u32::MAX);
        assert(c + layout_size(l) < u32::MAX);
        assert forall|i: int| 0 <= i < e.fill_indices.len() implies #[trigger] e.fill_indices[i]
            < e.fill_vertices.len() by {
            if i >= a.fill_indices.len() {
                assert(l.fill_indices[i - a.fill_indices.len()] < l.fill_vertices.len());
            }
        }
        assert forall|i: int|
            0 <= i < e.complex_fill_indices.len() implies #[trigger] e.complex_fill_indices[i]
            < e.fill_vertices.len() by {
            if i >= a.complex_fill_indices.len() {
                assert(l.complex_fill_indices[i - a.complex_fill_indices.len()]
                    < l.fill_vertices.len());
            }
        }
        assert forall|i: int| 0 <= i < e.complex_fill_draws.len() implies complex_within(
            #[trigger] e.complex_fill_draws[i],
            e.complex_fill_indices.len() as int,
        ) by {
            if i >= a.complex_fill_draws.len() {
                let d = l.complex_fill_draws[i - a.complex_fill_draws.len()];
                assert(complex_within(d, l.complex_fill_indices.len() as int));
            } else {
                assert(complex_within(a.complex_fill_draws[i], c as int));
            }
        }
    }
}

/// The stroke halves, added after the fill halves of all sprites, index only stroke
/// vertices, and every draw lands within the index buffer.
proof fn lemma_merge_strokes_in_range(ls: Seq<LayoutModel>, n: int)
    requires
        0 <= n <= ls.len(),
        forall|g: int| 0 <= g < ls.len() ==> layout_wf(#[trigger] ls[g]),
        sum_sizes(ls, ls.len() as int) < u32::MAX,
    ensures
        ({
            let fm = merge_fills(ls, ls.len() as int);
            let e = merge_strokes(fm, ls, n);
            &&& encoded_size(e) == sum_fill_parts(ls, ls.len() as int) + sum_sizes(ls, n)
                - sum_fill_parts(ls, n)
            &&& forall|i: int|
                0 <= i < e.stroke_indices.len() ==> fm.fill_vertices.len() <= #[trigger] e.stroke_indices[i]
                    < fm.fill_vertices.len() + e.stroke_vertex_count
            &&& forall|i: int|
                0 <= i < e.ordered_draws.len() ==> frame_draw_within(
                    #[trigger] e.ordered_draws[i],
                    e,
                )
        }),
    decreases n,
{
    let fm = merge_fills(ls, ls.len() as int);
    lemma_merge_fills_shape(ls, ls.len() as int);
    lemma_merge_strokes_keeps(fm, ls, n);
    if n > 0 {
        lemma_merge_strokes_in_range(ls, n - 1);
        lemma_merge_strokes_keeps(fm, ls, n - 1);
        lemma_sums(ls, n - 1, n);
        lemma_sums(ls, n, ls.len() as int);
        lemma_sums(ls, 0, n - 1);
        lemma_merge_fills_shape(ls, n - 1);
        lemma_merge_fills_grow(ls, n, ls.len() as int);
        let a = merge_strokes(fm, ls, n - 1);
        let l = ls[n - 1];
        let e = merge_strokes(fm, ls, n);
        let before = merge_fills(ls, n - 1);
        assert(layout_wf(l));
        let base = a.fill_vertices.len() + a.stroke_vertex_count;
        let lf = l.fill_vertices.len() as int;
        assert(base + l.stroke_vertex_count <= encoded_size(a) + layout_size(l) - fill_part(l));
        assert(e.stroke_vertex_count == a.stroke_vertex_count + l.stroke_vertex_count);
        assert forall|i: int|
            0 <= i < e.stroke_indices.len() implies fm.fill_vertices.len() <= #[trigger] e.stroke_indices[i]
            < fm.fill_vertices.len() + e.stroke_vertex_count by {
            if i >= a.stroke_indices.len() {
                let x = l.stroke_indices[i - a.stroke_indices.len()];
                assert(lf <= x < lf + l.stroke_vertex_count);
            }
        }
        let f = before.fill_indices.len();
        let c = before.complex_fill_indices.len();
        let st = a.fill_indices.len() + a.stroke_indices.len();
        assert(f + l.fill_indices.len() <= fm.fill_indices.len());
        assert(c + l.complex_fill_indices.len() <= fm.complex_fill_indices.len());
        assert forall|i: int| 0 <= i < e.ordered_draws.len() implies frame_draw_within(
            #[trigger] e.ordered_draws[i],
            e,
        ) by {
            if i >= a.ordered_draws.len() {
                let d = l.ordered_draws[i - a.ordered_draws.len()];
                assert(crate::geometry::encoding::draw_within(d, l));
            } else {
                assert(frame_draw_within(a.ordered_draws[i], a));
            }
        }
    }
}

/// Every index of a batch of well-formed sprite layouts, concatenated, names a vertex
/// of the frame of the right kind, and every draw lies within the index buffer.
pub proof fn lemma_concat_layouts_in_range(ls: Seq<LayoutModel>)
    requires
        forall|g: int| 0 <= g < ls.len() ==> layout_wf(#[trigger] ls[g]),
        sum_sizes(ls, ls.len() as int) < u32::MAX,
    ensures
        frame_wf(spec_concat_layouts(ls)),
{
    let n = ls.len() as int;
    let fm = merge_fills(ls, n);
    lemma_merge_fills_in_range(ls, n);
    lemma_merge_fills_shape(ls, n);
    lemma_merge_strokes_in_range(ls, n);
    lemma_merge_strokes_keeps(fm, ls, n);
    lemma_sums(ls, 0, n);
    let e = merge_strokes(fm, ls, n);
    let r = spec_concat_layouts(ls);
    assert(r.fill_vertex_count == e.fill_vertices.len());
    assert forall|i: int| 0 <= i < r.ordered_draws.len() implies frame_draw_within(
        #[trigger] r.ordered_draws[i],
        r,
    ) by {
        assert(frame_draw_within(e.ordered_draws[i], e));
    }
}

/// One well-formed sprite layout drawn per instance indexes only its own vertices, and
/// every draw lies within the index buffer.
pub proof fn lemma_instanced_layout_in_range(l: LayoutModel, instance_count: u32)
    requires
        layout_wf(l),
        layout_size(l) < u32::MAX,
    ensures
        frame_wf(spec_instanced_layout(l, instance_count)),
{
    let r = spec_instanced_layout(l, instance_count);
    assert forall|i: int| 0 <= i < r.ordered_draws.len() implies frame_draw_within(
        #[trigger] r.ordered_draws[i],
        r,
    ) by {
        assert(crate::geometry::encoding::draw_within(l.ordered_draws[i], l));
    }
}

/// The frame layout of a batch of sprite layouts (see `spec_concat_layouts`).
pub fn concat_layouts(layouts: &Vec<SpriteLayout>) -> (r: EncodedLayout)
    requires
        forall|g: int| 0 <= g < layouts@.len() ==> layout_wf(#[trigger] layouts@[g]@),
        sum_sizes(layouts@.map_values(|l: SpriteLayout| l@), layouts@.len() as int) < u32::MAX,
    ensures
        r@ == spec_concat_layouts(layouts@.map_values(|l: SpriteLayout| l@)),
        frame_wf(r@),
{
    let ghost ls = layouts@.map_values(|l: SpriteLayout| l@);
    let n = layouts.len();
    let mut acc = EncodedLayout {
        fill_contours: Vec::new(),
        fill_cubics: Vec::new(),
        fill_vertex_count: 0,
        fill_indices: Vec::new(),
        complex_fill_indices: Vec::new(),
        complex_fill_draws: Vec::new(),
        ordered_draws: Vec::new(),
        fill_vertices: Vec::new(),
        segments: Vec::new(),
        stroke_indices: Vec::new(),
        stroke_vertex_count: 0,
        paints: Vec::new(),
        instance_count: 1,
    };
    assert(acc@ =~= empty_encoded());
    let mut paint_offsets: Vec<u32> = Vec::new();
    let mut fill_offsets: Vec<u32> = Vec::new();
    let mut complex_offsets: Vec<u32> = Vec::new();
    let mut g: usize = 0;
    while g < n
        invariant
            n == ls.len(),
            ls == layouts@.map_values(|l: SpriteLayout| l@),
            forall|h: int| 0 <= h < n ==> layout_wf(#[trigger] layouts@[h]@),
            sum_sizes(ls, n as int) < u32::MAX,
            0 <= g <= n,
            acc@ == merge_fills(ls, g as int),
            paint_offsets@.len() == g,
            fill_offsets@.len() == g,
            complex_offsets@.len() == g,
            forall|h: int|
                0 <= h < g ==> #[trigger] paint_offsets@[h] == merge_fills(ls, h).paints.len()
                    && fill_offsets@[h] == merge_fills(ls, h).fill_indices.len()
                    && complex_offsets@[h] == merge_fills(ls, h).complex_fill_indices.len(),
        decreases n - g,
    {
        proof {
            lemma_merge_fills_shape(ls, g as int);
            lemma_sums(ls, g as int, g + 1);
            lemma_sums(ls, g + 1, n as int);
            assert(ls[g as int] == layouts@[g as int]@);
        }
        paint_offsets.push(acc.paints.len() as u32);
        fill_offsets.push(acc.fill_indices.len() as u32);
        complex_offsets.push(acc.complex_fill_indices.len() as u32);
        merge_fill_group(&mut acc, &layouts[g]);
        g = g + 1;
    }
    let ghost fm = acc@;
    proof {
        lemma_merge_fills_shape(ls, n as int);
        assert(g == n);
        assert forall|h: int| 0 <= h < n implies #[trigger] paint_offsets@[h] == merge_fills(
            ls,
            h,
        ).paints.len() && fill_offsets@[h] == merge_fills(ls, h).fill_indices.len()
            && complex_offsets@[h] == merge_fills(ls, h).complex_fill_indices.len() by {
            assert(0 <= h < g);
        }
    }
    let mut g: usize = 0;
    while g < n
        invariant
            n == ls.len(),
            ls == layouts@.map_values(|l: SpriteLayout| l@),
            forall|h: int| 0 <= h < n ==> layout_wf(#[trigger] layouts@[h]@),
            sum_sizes(ls, n as int) < u32::MAX,
            0 <= g <= n,
            fm == merge_fills(ls, n as int),
            encoded_size(fm) == sum_fill_parts(ls, n as int),
            acc@ == merge_strokes(fm, ls, g as int),
            encoded_size(acc@) == sum_fill_parts(ls, n as int) + sum_sizes(ls, g as int)
                - sum_fill_parts(ls, g as int),
            paint_offsets@.len() == n,
            fill_offsets@.len() == n,
            complex_offsets@.len() == n,
            forall|h: int|
                0 <= h < n ==> #[trigger] paint_offsets@[h] == merge_fills(ls, h).paints.len()
                    && fill_offsets@[h] == merge_fills(ls, h).fill_indices.len()
                    && complex_offsets@[h] == merge_fills(ls, h).complex_fill_indices.len(),
        decreases n - g,
    {
        proof {
            lemma_merge_fills_shape(ls, g as int);
            lemma_sums(ls, g as int, g + 1);
            lemma_sums(ls, g + 1, n as int);
            lemma_sums(ls, 0, g as int);
            assert(ls[g as int] == layouts@[g as int]@);
            assert(paint_offsets@[g as int] == merge_fills(ls, g as int).paints.len());
        }
        merge_stroke_group(
            &mut acc,
            &layouts[g],
            paint_offsets[g],
            fill_offsets[g],
            complex_offsets[g],
        );
        g = g + 1;
    }
    proof {
        lemma_sums(ls, 0, n as int);
        lemma_merge_strokes_keeps(fm, ls, n as int);
        assert forall|h: int| 0 <= h < ls.len() implies layout_wf(#[trigger] ls[h]) by {
            assert(layout_wf(layouts@[h]@));
        }
        lemma_concat_layouts_in_range(ls);
    }
    let ghost e = acc@;
    if acc.paints.len() == 0 {
        acc.paints.push(PaintSlot::Default);
    }
    acc.fill_vertex_count = acc.fill_vertices.len() as u32;
    proof {
        assert(acc.paints@ =~= with_default_paint(e.paints));
        assert(acc@ == (EncodedModel {
            paints: with_default_paint(e.paints),
            fill_vertex_count: e.fill_vertices.len() as u32,
            instance_count: 1,
            ..e
        }));
    }
    acc
}

/// The layouts of a batch of sprite groups: group `g`'s commands laid out for its
/// sprite, its records naming group `g`.
pub open spec fn group_layouts(groups: Seq<(u32, Vec<ShapeGeometry>)>) -> Seq<LayoutModel> {
    Seq::new(groups.len(), |g: int| spec_sprite_layout(groups[g].1@, groups[g].0, g as u32))
}

/// The budgets of the first `n` groups, one more for each group.
pub open spec fn groups_budget(groups: Seq<(u32, Vec<ShapeGeometry>)>, n: int) -> int
    decreases n,
{
    if n <= 0 {
        0
    } else {
        groups_budget(groups, n - 1) + sprite_budget(groups[n - 1].1@) + 1
    }
}

proof fn lemma_groups_budget(groups: Seq<(u32, Vec<ShapeGeometry>)>, i: int, j: int)
    requires
        0 <= i <= j,
    ensures
        i <= groups_budget(groups, i) <= groups_budget(groups, j),
        i < j ==> groups_budget(groups, i) + sprite_budget(groups[i].1@) + 1 <= groups_budget(
            groups,
            j,
        ),
    decreases j,
{
    if j > 0 {
        if i < j {
            lemma_groups_budget(groups, i, j - 1);
        } else {
            lemma_groups_budget(groups, i - 1, j - 1);
        }
        lemma_commands_budget_monotone(
            groups[j - 1].1@,
            0,
            groups[j - 1].1@.len() as int,
        );
    }
}

proof fn lemma_sizes_within_budget(
    groups: Seq<(u32, Vec<ShapeGeometry>)>,
    ls: Seq<LayoutModel>,
    n: int,
)
    requires
        0 <= n <= ls.len(),
        ls.len() == groups.len(),
        forall|h: int| 0 <= h < n ==> layout_size(#[trigger] ls[h]) <= sprite_budget(groups[h].1@),
    ensures
        sum_sizes(ls, n) + n <= groups_budget(groups, n),
    decreases n,
{
    if n > 0 {
        lemma_sizes_within_budget(groups, ls, n - 1);
    }
}

/// Whether a batch of sprite groups is within the budget that `encode_paths_instanced`
/// needs.
pub fn groups_budget_fits(sprite_groups: &Vec<(u32, Vec<ShapeGeometry>)>) -> (b: bool)
    ensures
        b == (groups_budget(sprite_groups@, sprite_groups@.len() as int) < u32::MAX),
{
    let ghost groups = sprite_groups@;
    let mut acc: u64 = 0;
    let mut g: usize = 0;
    while g < sprite_groups.len()
        invariant
            groups == sprite_groups@,
            0 <= g <= groups.len(),
            acc == capped(groups_budget(groups, g as int)),
        decreases groups.len() - g,
    {
        let one = capped_sprite_budget(&sprite_groups[g].1);
        proof {
            lemma_groups_budget(groups, g as int, g + 1);
            lemma_commands_budget_monotone(groups[g as int].1@, 0, groups[g as int].1@.len() as int);
            lemma_capped_sum(groups_budget(groups, g as int), sprite_budget(groups[g as int].1@) + 1);
            lemma_capped_sum(sprite_budget(groups[g as int].1@), 1);
        }
        acc = if acc + one + 1 > 0xffff_ffff {
            0x1_0000_0000
        } else {
            acc + one + 1
        };
        g = g + 1;
    }
    acc < 0xffff_ffff
}

/// The frame layout of a batch of sprite groups drawn once (see
/// `spec_concat_layouts`).
pub fn encode_unsynced(sprite_groups: &Vec<(u32, Vec<ShapeGeometry>)>) -> (r: EncodedLayout)
    requires
        groups_budget(sprite_groups@, sprite_groups@.len() as int) < u32::MAX,
    ensures
        r@ == spec_concat_layouts(group_layouts(sprite_groups@)),
        frame_wf(r@),
{
    let ghost groups = sprite_groups@;
    let ghost want = group_layouts(groups);
    let n = sprite_groups.len();
    let mut layouts: Vec<SpriteLayout> = Vec::new();
    let mut g: usize = 0;
    while g < n
        invariant
            n == groups.len(),
            groups == sprite_groups@,
            want == group_layouts(groups),
            groups_budget(groups, n as int) < u32::MAX,
            0 <= g <= n,
            layouts@.len() == g,
            forall|h: int|
                0 <= h < g ==> #[trigger] layouts@[h]@ == want[h] && layout_wf(want[h])
                    && layout_size(want[h]) <= sprite_budget(groups[h].1@),
        decreases n - g,
    {
        proof {
            lemma_groups_budget(groups, g as int, n as int);
        }
        let l = tessellate_sprite_fills(&sprite_groups[g].1, sprite_groups[g].0, g as u32);
        let ghost prev = layouts@;
        layouts.push(l);
        proof {
            assert(want[g as int] == spec_sprite_layout(groups[g as int].1@, groups[g as int].0, g as u32));
            assert forall|h: int| 0 <= h < g + 1 implies #[trigger] layouts@[h]@ == want[h]
                && layout_wf(want[h]) && layout_size(want[h]) <= sprite_budget(groups[h].1@) by {
                if h < g {
                    assert(layouts@[h] == prev[h]);
                }
            }
        }
        g = g + 1;
    }
    let ghost ls = layouts@.map_values(|l: SpriteLayout| l@);
    proof {
        assert(ls =~= want);
        lemma_sizes_within_budget(groups, ls, n as int);
    }
    concat_layouts(&layouts)
}

/// The frame layout of the first sprite group drawn `instance_count` times (see
/// `spec_instanced_layout`); its records carry sprite 0 and group 0.
pub fn encode_synced(sprite_groups: &Vec<(u32, Vec<ShapeGeometry>)>, instance_count: u32) -> (r: EncodedLayout)
    requires
        sprite_groups@.len() > 0,
        sprite_budget(sprite_groups@[0].1@) < u32::MAX,
    ensures
        r@ == spec_instanced_layout(spec_sprite_layout(sprite_groups@[0].1@, 0, 0), instance_count),
        frame_wf(r@),
{
    let base = tessellate_sprite_fills(&sprite_groups[0].1, 0, 0);
    let ghost lm = base@;
    let stroke_index_offset = base.fill_indices.len() as u32;
    let mut ordered_draws: Vec<EncodedDraw> = Vec::new();
    assert forall|i: int| 0 <= i < lm.ordered_draws.len() implies remap_fits(
        #[trigger] lm.ordered_draws[i],
        0,
        stroke_index_offset,
        0,
    ) by {
        assert(crate::geometry::encoding::draw_within(lm.ordered_draws[i], lm));
    }
    append_remapped_draws(&mut ordered_draws, &base.ordered_draws, 0, stroke_index_offset, 0);
    let mut paints: Vec<PaintSlot> = Vec::new();
    append_shape_paints(&mut paints, &base.paints);
    if paints.len() == 0 {
        paints.push(PaintSlot::Default);
    }
    let fill_vertex_count = base.fill_vertices.len() as u32;
    let r = EncodedLayout {
        fill_contours: base.fill_contours,
        fill_cubics: base.fill_cubics,
        fill_vertex_count,
        fill_indices: base.fill_indices,
        complex_fill_indices: base.complex_fill_indices,
        complex_fill_draws: base.complex_fill_draws,
        ordered_draws,
        fill_vertices: base.fill_vertices,
        segments: base.segments,
        stroke_indices: base.stroke_indices,
        stroke_vertex_count: base.stroke_vertex_count,
        paints,
        instance_count,
    };
    proof {
        assert(r.ordered_draws@ =~= lm.ordered_draws.map_values(
            |d: EncodedDraw| spec_remap_draw(d, 0, lm.fill_indices.len() as u32, 0),
        ));
        assert(r.paints@ =~= with_default_paint(
            lm.paints.map_values(|s: ShapeRef| PaintSlot::Shape(s)),
        ));
        lemma_instanced_layout_in_range(lm, instance_count);
    }
    r
}

/// The frame layout of a batch of sprite groups: nothing for no group; the first
/// group's layout drawn once per transform when the batch is synced and there is more
/// than one transform; otherwise all groups concatenated and drawn once.
pub open spec fn spec_encode_paths_instanced(
    groups: Seq<(u32, Vec<ShapeGeometry>)>,
    transform_count: usize,
    batch_synced: bool,
) -> EncodedModel {
    if groups.len() == 0 {
        empty_encoded()
    } else if batch_synced && transform_count > 1 {
        spec_instanced_layout(spec_sprite_layout(groups[0].1@, 0, 0), transform_count as u32)
    } else {
        spec_concat_layouts(group_layouts(groups))
    }
}

/// Lays out a batch of sprite groups for the GPU (see `spec_encode_paths_instanced`).
pub fn encode_paths_instanced(
    sprite_groups: &Vec<(u32, Vec<ShapeGeometry>)>,
    transform_count: usize,
    batch_synced: bool,
) -> (r: EncodedLayout)
    requires
        groups_budget(sprite_groups@, sprite_groups@.len() as int) < u32::MAX,
    ensures
        r@ == spec_encode_paths_instanced(sprite_groups@, transform_count, batch_synced),
        frame_wf(r@),
{
    if sprite_groups.len() == 0 {
        return EncodedLayout::empty();
    }
    if batch_synced && transform_count > 1 {
        proof {
            lemma_groups_budget(sprite_groups@, 0, sprite_groups@.len() as int);
        }
        encode_synced(sprite_groups, transform_count as u32)
    } else {
        encode_unsynced(sprite_groups)
    }
}

/// Lays out one sprite's commands, drawn once: the batch of that one group.
pub fn encode_paths(commands: &Vec<ShapeGeometry>) -> (r: EncodedLayout)
    requires
        sprite_budget(commands@) < u32::MAX,
    ensures
        r@ == spec_concat_layouts(seq![spec_sprite_layout(commands@, 0, 0)]),
        frame_wf(r@),
{
    let l = tessellate_sprite_fills(commands, 0, 0);
    let ghost lm = l@;
    let mut layouts: Vec<SpriteLayout> = Vec::new();
    layouts.push(l);
    let ghost ls = layouts@.map_values(|x: SpriteLayout| x@);
    proof {
        assert(ls =~= seq![lm]);
        assert(sum_sizes(ls, 0) == 0);
        assert(sum_sizes(ls, 1) == layout_size(lm));
    }
    concat_layouts(&layouts)
}

impl EncodedLayout {
    /// The frame layout with nothing in it, drawn once.
    pub fn empty() -> (r: EncodedLayout)
        ensures
            r@ == empty_encoded(),
            frame_wf(r@),
    {
        let r = EncodedLayout {
            fill_contours: Vec::new(),
            fill_cubics: Vec::new(),
            fill_vertex_count: 0,
            fill_indices: Vec::new(),
            complex_fill_indices: Vec::new(),
            complex_fill_draws: Vec::new(),
            ordered_draws: Vec::new(),
            fill_vertices: Vec::new(),
            segments: Vec::new(),
            stroke_indices: Vec::new(),
            stroke_vertex_count: 0,
            paints: Vec::new(),
            instance_count: 1,
        };
        assert(r@ =~= empty_encoded());
        r
    }

    /// All vertices of the frame: fill vertices, then stroke vertices.
    pub fn total_vertex_count(&self) -> (n: u32)
        requires
            self.fill_vertex_count + self.stroke_vertex_count <= u32::MAX,
        ensures
            n == self.fill_vertex_count + self.stroke_vertex_count,
    {
        self.fill_vertex_count + self.stroke_vertex_count
    }

    /// All indices of the frame, cut to 32 bits.
    pub fn total_index_count(&self) -> (n: u32)
        requires
            self.fill_indices@.len() + self.stroke_indices@.len() + self.complex_fill_indices@.len()
                <= usize::MAX,
        ensures
            n == (self.fill_indices@.len() + self.stroke_indices@.len()
                + self.complex_fill_indices@.len()) as u32,
    {
        (self.fill_indices.len() + self.stroke_indices.len() + self.complex_fill_indices.len()) as u32
    }

    /// The index buffer: the fill indices, then the stroke indices, then the complex
    /// fill indices.
    pub fn combined_indices(&self) -> (v: Vec<u32>)
        ensures
            v@ == self.fill_indices@ + self.stroke_indices@ + self.complex_fill_indices@,
    {
        crate::renderer::buffers::combined_indices(
            &self.fill_indices,
            &self.stroke_indices,
            &self.complex_fill_indices,
        )
    }
}

} // verus!
