//! Buffer sizing and the index bookkeeping done when an encoded frame is uploaded.
use vstd::prelude::*;
use crate::geometry::frame::{EncodedLayout, EncodedModel};
use crate::geometry::tessellation::{ComplexFillDraw, EncodedDraw, shifted_complex};

verus! {

/// The larger of two numbers.
pub open spec fn max_u64(a: u64, b: u64) -> int {
    if a >= b {
        a as int
    } else {
        b as int
    }
}

/// The capacity given to a buffer that must hold `needed` bytes: one and a half times
/// `needed` (rounded down), at least `min_size`, rounded up to a multiple of four.
pub open spec fn spec_storage_capacity(needed: u64, min_size: u64) -> int {
    let grown = max_u64((needed * 3 / 2) as u64, min_size);
    ((grown + 3) / 4) * 4
}

pub fn next_storage_capacity(needed: u64, min_size: u64) -> (cap: u64)
    requires
        needed * 3 <= u64::MAX,
        max_u64((needed * 3 / 2) as u64, min_size) + 3 <= u64::MAX,
    ensures
        cap as int == spec_storage_capacity(needed, min_size),
{
    let grown0: u64 = needed * 3 / 2;
    let grown: u64 = if grown0 >= min_size {
        grown0
    } else {
        min_size
    };
    let g3: u64 = grown + 3;
    let r = g3 & !3u64;
    proof {
        assert(g3 & !3u64 == (g3 / 4) * 4) by (bit_vector);
    }
    r
}

/// Every capacity is a multiple of four and holds at least `needed` and `min_size`
/// bytes.
pub proof fn lemma_storage_capacity_aligned_and_large(needed: u64, min_size: u64)
    requires
        needed * 3 <= u64::MAX,
    ensures
        spec_storage_capacity(needed, min_size) % 4 == 0,
        spec_storage_capacity(needed, min_size) >= needed,
        spec_storage_capacity(needed, min_size) >= min_size,
{
    let grown = max_u64((needed * 3 / 2) as u64, min_size);
    let c = spec_storage_capacity(needed, min_size);
    assert(c == ((grown + 3) / 4) * 4);
    assert(c % 4 == 0 && c >= grown) by (nonlinear_arith)
        requires
            c == ((grown + 3) / 4) * 4,
            grown >= 0,
    ;
}

/// Draw calls that an encoded draw costs: one for a simple draw, a stencil and a
/// cover call for a complex fill.
pub open spec fn draw_call_cost(d: EncodedDraw) -> int {
    match d {
        EncodedDraw::Simple { .. } => 1,
        EncodedDraw::Complex(_) => 2,
    }
}

/// Draw calls of a sequence of draws.
pub open spec fn draw_call_total(draws: Seq<EncodedDraw>) -> int
    decreases draws.len(),
{
    if draws.len() == 0 {
        0
    } else {
        draw_call_total(draws.drop_last()) + draw_call_cost(draws.last())
    }
}

proof fn lemma_draw_call_total_bounds(draws: Seq<EncodedDraw>)
    ensures
        draws.len() <= draw_call_total(draws) <= 2 * draws.len(),
    decreases draws.len(),
{
    if draws.len() > 0 {
        lemma_draw_call_total_bounds(draws.drop_last());
    }
}

/// The number of GPU draw calls that replaying `draws` issues.
pub fn gpu_draw_call_count(draws: &Vec<EncodedDraw>) -> (n: u32)
    requires
        draw_call_total(draws@) <= u32::MAX,
    ensures
        n as int == draw_call_total(draws@),
{
    let mut n: u32 = 0;
    let mut i: usize = 0;
    while i < draws.len()
        invariant
            0 <= i <= draws@.len(),
            n as int == draw_call_total(draws@.take(i as int)),
            draw_call_total(draws@) <= u32::MAX,
        decreases draws@.len() - i,
    {
        proof {
            assert(draws@.take(i + 1).drop_last() =~= draws@.take(i as int));
            lemma_total_prefix_le(draws@, i + 1);
        }
        let cost: u32 = match draws[i] {
            EncodedDraw::Simple { .. } => 1,
            EncodedDraw::Complex(_) => 2,
        };
        n = n + cost;
        i = i + 1;
    }
    proof {
        assert(draws@.take(draws@.len() as int) =~= draws@);
    }
    n
}

proof fn lemma_total_prefix_le(draws: Seq<EncodedDraw>, i: int)
    requires
        0 <= i <= draws.len(),
    ensures
        draw_call_total(draws.take(i)) <= draw_call_total(draws),
    decreases draws.len() - i,
{
    if i < draws.len() {
        lemma_total_prefix_le(draws, i + 1);
        assert(draws.take(i + 1).drop_last() =~= draws.take(i));
        lemma_draw_call_total_bounds(draws.take(i));
    } else {
        assert(draws.take(i) =~= draws);
    }
}

/// The index buffer holds the fill indices, then the stroke indices, then the complex
/// fill indices.
pub fn combined_indices(fill: &Vec<u32>, stroke: &Vec<u32>, complex: &Vec<u32>) -> (v: Vec<u32>)
    ensures
        v@ == fill@ + stroke@ + complex@,
{
    let mut v = fill.clone();
    let mut i: usize = 0;
    while i < stroke.len()
        invariant
            0 <= i <= stroke@.len(),
            v@ =~= fill@ + stroke@.take(i as int),
        decreases stroke@.len() - i,
    {
        v.push(stroke[i]);
        proof {
            assert(stroke@.take(i + 1) =~= stroke@.take(i as int).push(stroke@[i as int]));
        }
        i = i + 1;
    }
    let mut j: usize = 0;
    while j < complex.len()
        invariant
            0 <= j <= complex@.len(),
            v@ =~= fill@ + stroke@ + complex@.take(j as int),
        decreases complex@.len() - j,
    {
        v.push(complex[j]);
        proof {
            assert(complex@.take(j + 1) =~= complex@.take(j as int).push(complex@[j as int]));
        }
        j = j + 1;
    }
    proof {
        assert(stroke@.take(stroke@.len() as int) =~= stroke@);
        assert(complex@.take(complex@.len() as int) =~= complex@);
    }
    v
}

/// The first index of a fill contour once the index buffer is combined: complex fan
/// contours (topology code 2 and above) live after the simple indices, so they move
/// by `complex_index_offset`; the others keep their index.
pub fn patch_contour_first_index(simple_fill: u32, first_index: u32, complex_index_offset: u32) -> (r: u32)
    requires
        simple_fill >= 2 ==> first_index + complex_index_offset <= u32::MAX,
    ensures
        r == (if simple_fill >= 2 {
            (first_index + complex_index_offset) as u32
        } else {
            first_index
        }),
{
    if simple_fill >= 2 {
        first_index + complex_index_offset
    } else {
        first_index
    }
}

/// Moves the complex draws of an upload behind the `simple_index_count` simple indices.
pub fn rebase_complex_draws(draws: &Vec<ComplexFillDraw>, simple_index_count: u32) -> (r: Vec<ComplexFillDraw>)
    requires
        forall|i: int|
            0 <= i < draws@.len() ==> #[trigger] draws@[i].stencil_index_start + simple_index_count
                <= u32::MAX && draws@[i].cover_index_start + simple_index_count <= u32::MAX,
    ensures
        r@ == draws@.map_values(|d: ComplexFillDraw| shifted_complex(d, simple_index_count)),
{
    let mut r: Vec<ComplexFillDraw> = Vec::new();
    let mut i: usize = 0;
    while i < draws.len()
        invariant
            0 <= i <= draws@.len(),
            forall|j: int|
                0 <= j < draws@.len() ==> #[trigger] draws@[j].stencil_index_start
                    + simple_index_count <= u32::MAX && draws@[j].cover_index_start
                    + simple_index_count <= u32::MAX,
            r@ =~= draws@.take(i as int).map_values(
                |d: ComplexFillDraw| shifted_complex(d, simple_index_count),
            ),
        decreases draws@.len() - i,
    {
        let d = draws[i];
        r.push(
            ComplexFillDraw {
                stencil_index_start: d.stencil_index_start + simple_index_count,
                cover_index_start: d.cover_index_start + simple_index_count,
                ..d
            },
        );
        proof {
            assert(draws@.take(i + 1) =~= draws@.take(i as int).push(draws@[i as int]));
        }
        i = i + 1;
    }
    proof {
        assert(draws@.take(draws@.len() as int) =~= draws@);
    }
    r
}

/// An ordered draw at upload: complex draws move behind the simple indices, simple
/// draws stay.
pub open spec fn rebased_draw(d: EncodedDraw, simple_index_count: u32) -> EncodedDraw {
    match d {
        EncodedDraw::Simple { .. } => d,
        EncodedDraw::Complex(c) => EncodedDraw::Complex(shifted_complex(c, simple_index_count)),
    }
}

/// Rebases the ordered draws of an upload, keeping their order.
pub fn rebase_ordered_draws(draws: &Vec<EncodedDraw>, simple_index_count: u32) -> (r: Vec<EncodedDraw>)
    requires
        forall|i: int|
            0 <= i < draws@.len() ==> (#[trigger] draws@[i] matches EncodedDraw::Complex(c) ==> c.stencil_index_start
                + simple_index_count <= u32::MAX && c.cover_index_start + simple_index_count
                <= u32::MAX),
    ensures
        r@ == draws@.map_values(|d: EncodedDraw| rebased_draw(d, simple_index_count)),
{
    let mut r: Vec<EncodedDraw> = Vec::new();
    let mut i: usize = 0;
    while i < draws.len()
        invariant
            0 <= i <= draws@.len(),
            forall|j: int|
                0 <= j < draws@.len() ==> (#[trigger] draws@[j] matches EncodedDraw::Complex(c) ==> c.stencil_index_start
                    + simple_index_count <= u32::MAX && c.cover_index_start + simple_index_count
                    <= u32::MAX),
            r@ =~= draws@.take(i as int).map_values(
                |d: EncodedDraw| rebased_draw(d, simple_index_count),
            ),
        decreases draws@.len() - i,
    {
        let d = match draws[i] {
            EncodedDraw::Simple { source, index_start, index_count } => EncodedDraw::Simple {
                source,
                index_start,
                index_count,
            },
            EncodedDraw::Complex(c) => EncodedDraw::Complex(
                ComplexFillDraw {
                    stencil_index_start: c.stencil_index_start + simple_index_count,
                    cover_index_start: c.cover_index_start + simple_index_count,
                    ..c
                },
            ),
        };
        r.push(d);
        proof {
            assert(draws@.take(i + 1) =~= draws@.take(i as int).push(draws@[i as int]));
        }
        i = i + 1;
    }
    proof {
        assert(draws@.take(draws@.len() as int) =~= draws@);
    }
    r
}

// ─── Storage buffers ────────────────────────────────────────

/// What an upload does with one GPU buffer.
#[derive(Clone, Copy, Debug, PartialEq, Eq, Structural)]
pub enum BufferAction {
    /// Nothing to upload.
    Skip,
    /// Write into the buffer as it is.
    Write,
    /// Create the buffer anew with this capacity (in bytes), then write.
    Recreate(u64),
}

/// A storage or index buffer that must take `needed` bytes: nothing for no bytes; a new
/// buffer (at least 256 bytes) when there is none yet or it is too small; else a write.
pub fn storage_buffer_action(has_buffer: bool, cap: u64, needed: u64) -> (a: BufferAction)
    requires
        needed * 3 <= u64::MAX,
    ensures
        a == (if needed == 0 {
            BufferAction::Skip
        } else if !has_buffer || cap < needed {
            BufferAction::Recreate(spec_storage_capacity(needed, 256) as u64)
        } else {
            BufferAction::Write
        }),
{
    if needed == 0 {
        return BufferAction::Skip;
    }
    if !has_buffer || cap < needed {
        BufferAction::Recreate(next_storage_capacity(needed, 256))
    } else {
        BufferAction::Write
    }
}

/// The vertex buffer, which must take `needed` bytes: a new buffer (at least 4096
/// bytes) when `needed` exceeds the capacity, else the buffer as it is.
pub fn vertex_buffer_action(cap: u64, needed: u64) -> (a: BufferAction)
    requires
        needed * 3 <= u64::MAX,
    ensures
        a == (if needed > cap {
            BufferAction::Recreate(spec_storage_capacity(needed, 4096) as u64)
        } else {
            BufferAction::Write
        }),
{
    if needed > cap {
        BufferAction::Recreate(next_storage_capacity(needed, 4096))
    } else {
        BufferAction::Write
    }
}

// ─── Upload bookkeeping ─────────────────────────────────────

/// What the renderer keeps of the last uploaded frame to draw it.
pub struct DrawState {
    pub index_count: u32,
    pub simple_index_count: u32,
    pub instance_count: u32,
    pub complex_fill_draws: Vec<ComplexFillDraw>,
    pub ordered_draws: Vec<EncodedDraw>,
    pub segment_count: u32,
    pub total_vertices: u32,
    pub fill_contour_count: u32,
    pub fill_cubic_count: u32,
}

/// The contents of a `DrawState`.
pub struct DrawModel {
    pub index_count: u32,
    pub simple_index_count: u32,
    pub instance_count: u32,
    pub complex_fill_draws: Seq<ComplexFillDraw>,
    pub ordered_draws: Seq<EncodedDraw>,
    pub segment_count: u32,
    pub total_vertices: u32,
    pub fill_contour_count: u32,
    pub fill_cubic_count: u32,
}

impl View for DrawState {
    type V = DrawModel;

    open spec fn view(&self) -> DrawModel {
        DrawModel {
            index_count: self.index_count,
            simple_index_count: self.simple_index_count,
            instance_count: self.instance_count,
            complex_fill_draws: self.complex_fill_draws@,
            ordered_draws: self.ordered_draws@,
            segment_count: self.segment_count,
            total_vertices: self.total_vertices,
            fill_contour_count: self.fill_contour_count,
            fill_cubic_count: self.fill_cubic_count,
        }
    }
}

/// The state with nothing to draw.
pub open spec fn cleared_draw_state() -> DrawModel {
    DrawModel {
        index_count: 0,
        simple_index_count: 0,
        instance_count: 1,
        complex_fill_draws: Seq::empty(),
        ordered_draws: Seq::empty(),
        segment_count: 0,
        total_vertices: 0,
        fill_contour_count: 0,
        fill_cubic_count: 0,
    }
}

/// Whether a frame layout can be uploaded without a count overflowing 32 bits.
pub open spec fn upload_fits(data: EncodedModel) -> bool {
    let simple = data.fill_indices.len() + data.stroke_indices.len();
    &&& data.fill_vertex_count + data.stroke_vertex_count <= u32::MAX
    &&& simple + data.complex_fill_indices.len() <= u32::MAX
    &&& data.segments.len() <= u32::MAX
    &&& data.fill_contours.len() <= u32::MAX
    &&& data.fill_cubics.len() <= u32::MAX
    &&& forall|i: int|
        0 <= i < data.complex_fill_draws.len() ==> (#[trigger] data.complex_fill_draws[i]).stencil_index_start
            + simple <= u32::MAX && data.complex_fill_draws[i].cover_index_start + simple
            <= u32::MAX
    &&& forall|i: int|
        0 <= i < data.ordered_draws.len() ==> (#[trigger] data.ordered_draws[i] matches EncodedDraw::Complex(
            c,
        ) ==> c.stencil_index_start + simple <= u32::MAX && c.cover_index_start + simple
            <= u32::MAX)
    &&& forall|i: int|
        0 <= i < data.fill_contours.len() ==> (#[trigger] data.fill_contours[i]).topology >= 2
            ==> data.fill_contours[i].first_index + simple <= u32::MAX
}

/// The state after uploading `data`: cleared when the frame has no vertex or no index;
/// otherwise its counts, with every complex range moved behind the simple (fill and
/// stroke) indices of the combined index buffer.
pub open spec fn state_after_upload(data: EncodedModel) -> DrawModel {
    let total_vertices = data.fill_vertex_count + data.stroke_vertex_count;
    let simple = data.fill_indices.len() + data.stroke_indices.len();
    let total_indices = simple + data.complex_fill_indices.len();
    if total_vertices == 0 || total_indices == 0 {
        cleared_draw_state()
    } else {
        DrawModel {
            index_count: total_indices as u32,
            simple_index_count: simple as u32,
            instance_count: data.instance_count,
            complex_fill_draws: data.complex_fill_draws.map_values(
                |d: ComplexFillDraw| shifted_complex(d, simple as u32),
            ),
            ordered_draws: data.ordered_draws.map_values(
                |d: EncodedDraw| rebased_draw(d, simple as u32),
            ),
            segment_count: data.segments.len() as u32,
            total_vertices: total_vertices as u32,
            fill_contour_count: data.fill_contours.len() as u32,
            fill_cubic_count: data.fill_cubics.len() as u32,
        }
    }
}

/// The first index of each fill contour as uploaded (see `patch_contour_first_index`).
pub open spec fn uploaded_first_indices(data: EncodedModel) -> Seq<u32> {
    let simple = (data.fill_indices.len() + data.stroke_indices.len()) as u32;
    data.fill_contours.map_values(
        |c: crate::geometry::encoding::FillContourSlot|
            if c.topology >= 2 {
                (c.first_index + simple) as u32
            } else {
                c.first_index
            },
    )
}

/// Whether `DrawState::upload_encoded_paths` can take `data` (see `upload_fits`).
pub fn check_upload_fits(data: &EncodedLayout) -> (b: bool)
    ensures
        b == upload_fits(data@),
{
    if data.fill_vertex_count as u64 + data.stroke_vertex_count as u64 > 0xffff_ffff {
        return false;
    }
    let fi = data.fill_indices.len() as u64;
    let si = data.stroke_indices.len() as u64;
    let ci = data.complex_fill_indices.len() as u64;
    if fi > 0xffff_ffff || si > 0xffff_ffff || ci > 0xffff_ffff || fi + si + ci > 0xffff_ffff {
        return false;
    }
    if data.segments.len() as u64 > 0xffff_ffff || data.fill_contours.len() as u64 > 0xffff_ffff
        || data.fill_cubics.len() as u64 > 0xffff_ffff {
        return false;
    }
    let simple: u64 = fi + si;
    let mut i: usize = 0;
    while i < data.complex_fill_draws.len()
        invariant
            0 <= i <= data@.complex_fill_draws.len(),
            simple == data@.fill_indices.len() + data@.stroke_indices.len(),
            simple <= u32::MAX,
            forall|j: int|
                0 <= j < i ==> (#[trigger] data@.complex_fill_draws[j]).stencil_index_start
                    + simple <= u32::MAX && data@.complex_fill_draws[j].cover_index_start + simple
                    <= u32::MAX,
        decreases data@.complex_fill_draws.len() - i,
    {
        let d = data.complex_fill_draws[i];
        assert(d == data@.complex_fill_draws[i as int]);
        if d.stencil_index_start as u64 + simple > 0xffff_ffff || d.cover_index_start as u64 + simple > 0xffff_ffff {
            return false;
        }
        i = i + 1;
    }
    let mut i: usize = 0;
    while i < data.ordered_draws.len()
        invariant
            0 <= i <= data@.ordered_draws.len(),
            simple == data@.fill_indices.len() + data@.stroke_indices.len(),
            simple <= u32::MAX,
            forall|j: int|
                0 <= j < i ==> (#[trigger] data@.ordered_draws[j] matches EncodedDraw::Complex(
                    c,
                ) ==> c.stencil_index_start + simple <= u32::MAX && c.cover_index_start + simple
                    <= u32::MAX),
        decreases data@.ordered_draws.len() - i,
    {
        let d = data.ordered_draws[i];
        assert(d == data@.ordered_draws[i as int]);
        match d {
            EncodedDraw::Complex(c) => {
                if c.stencil_index_start as u64 + simple > 0xffff_ffff || c.cover_index_start as u64
                    + simple > 0xffff_ffff {
                    return false;
                }
            },
            EncodedDraw::Simple { .. } => {},
        }
        i = i + 1;
    }
    let mut i: usize = 0;
    while i < data.fill_contours.len()
        invariant
            0 <= i <= data@.fill_contours.len(),
            simple == data@.fill_indices.len() + data@.stroke_indices.len(),
            simple <= u32::MAX,
            forall|j: int|
                0 <= j < i ==> (#[trigger] data@.fill_contours[j]).topology >= 2
                    ==> data@.fill_contours[j].first_index + simple <= u32::MAX,
        decreases data@.fill_contours.len() - i,
    {
        let c = data.fill_contours[i];
        assert(c == data@.fill_contours[i as int]);
        if c.topology >= 2 && c.first_index as u64 + simple > 0xffff_ffff {
            return false;
        }
        i = i + 1;
    }
    true
}

impl DrawState {
    /// The state before any upload.
    pub fn new() -> (r: DrawState)
        ensures
            r@ == cleared_draw_state(),
    {
        let r = DrawState {
            index_count: 0,
            simple_index_count: 0,
            instance_count: 1,
            complex_fill_draws: Vec::new(),
            ordered_draws: Vec::new(),
            segment_count: 0,
            total_vertices: 0,
            fill_contour_count: 0,
            fill_cubic_count: 0,
        };
        assert(r@ =~= cleared_draw_state());
        r
    }

    /// Records the upload of `data` (see `state_after_upload`). For a frame with
    /// something to draw, returns the first index of each fill contour as uploaded.
    pub fn upload_encoded_paths(&mut self, data: &EncodedLayout) -> (r: Option<Vec<u32>>)
        requires
            upload_fits(data@),
        ensures
            final(self)@ == state_after_upload(data@),
            data@.fill_vertex_count + data@.stroke_vertex_count != 0 && data@.fill_indices.len()
                + data@.stroke_indices.len() + data@.complex_fill_indices.len() != 0 ==> {
                &&& final(self).instance_count == data@.instance_count
                &&& final(self).index_count == data@.fill_indices.len()
                    + data@.stroke_indices.len() + data@.complex_fill_indices.len()
                &&& final(self).simple_index_count == data@.fill_indices.len()
                    + data@.stroke_indices.len()
                &&& final(self).total_vertices == data@.fill_vertex_count
                    + data@.stroke_vertex_count
                &&& final(self).segment_count == data@.segments.len()
                &&& final(self).fill_contour_count == data@.fill_contours.len()
                &&& final(self).fill_cubic_count == data@.fill_cubics.len()
                &&& final(self).ordered_draws@.len() == data@.ordered_draws.len()
                &&& final(self).complex_fill_draws@.len() == data@.complex_fill_draws.len()
            },
            match r {
                None => data@.fill_vertex_count + data@.stroke_vertex_count == 0
                    || data@.fill_indices.len() + data@.stroke_indices.len()
                    + data@.complex_fill_indices.len() == 0,
                Some(v) => v@ == uploaded_first_indices(data@) && data@.fill_vertex_count
                    + data@.stroke_vertex_count != 0 && data@.fill_indices.len()
                    + data@.stroke_indices.len() + data@.complex_fill_indices.len() != 0,
            },
    {
        let total_verts = data.total_vertex_count();
        let total_idxs = data.total_index_count();
        if total_verts == 0 || total_idxs == 0 {
            self.segment_count = 0;
            self.total_vertices = 0;
            self.index_count = 0;
            self.simple_index_count = 0;
            self.instance_count = 1;
            self.complex_fill_draws = Vec::new();
            self.ordered_draws = Vec::new();
            self.fill_contour_count = 0;
            self.fill_cubic_count = 0;
            assert(self@ =~= cleared_draw_state());
            return None;
        }
        let simple = (data.fill_indices.len() + data.stroke_indices.len()) as u32;
        let mut first_indices: Vec<u32> = Vec::new();
        let mut i: usize = 0;
        while i < data.fill_contours.len()
            invariant
                0 <= i <= data@.fill_contours.len(),
                simple as int == data@.fill_indices.len() + data@.stroke_indices.len(),
                upload_fits(data@),
                first_indices@ =~= uploaded_first_indices(data@).take(i as int),
            decreases data@.fill_contours.len() - i,
        {
            let c = data.fill_contours[i];
            let fi = patch_contour_first_index(c.topology, c.first_index, simple);
            first_indices.push(fi);
            proof {
                assert(uploaded_first_indices(data@).take(i + 1) =~= uploaded_first_indices(
                    data@,
                ).take(i as int).push(uploaded_first_indices(data@)[i as int]));
            }
            i = i + 1;
        }
        proof {
            assert(uploaded_first_indices(data@).take(data@.fill_contours.len() as int)
                =~= uploaded_first_indices(data@));
        }
        self.segment_count = data.segments.len() as u32;
        self.total_vertices = total_verts;
        self.index_count = total_idxs;
        self.simple_index_count = simple;
        self.instance_count = data.instance_count;
        self.complex_fill_draws = rebase_complex_draws(&data.complex_fill_draws, simple);
        self.ordered_draws = rebase_ordered_draws(&data.ordered_draws, simple);
        self.fill_contour_count = data.fill_contours.len() as u32;
        self.fill_cubic_count = data.fill_cubics.len() as u32;
        Some(first_indices)
    }
}

/// An upload with something to draw keeps the frame's instance count (a synced
/// layout is drawn once per sprite) and all its counts: indices, vertices, segments,
/// contours, cubics and draws; each complex fill's ranges move behind the simple
/// (fill and stroke) indices, and simple draws stay as they are. One with no vertex or no index clears the state to a
/// single instance of nothing.
pub proof fn lemma_upload_keeps_counts(data: EncodedModel)
    requires
        upload_fits(data),
    ensures
        ({
            let s = state_after_upload(data);
            let simple = data.fill_indices.len() + data.stroke_indices.len();
            if data.fill_vertex_count + data.stroke_vertex_count != 0 && simple
                + data.complex_fill_indices.len() != 0 {
                &&& s.instance_count == data.instance_count
                &&& s.index_count == simple + data.complex_fill_indices.len()
                &&& s.simple_index_count == simple
                &&& s.total_vertices == data.fill_vertex_count + data.stroke_vertex_count
                &&& s.segment_count == data.segments.len()
                &&& s.fill_contour_count == data.fill_contours.len()
                &&& s.fill_cubic_count == data.fill_cubics.len()
                &&& s.ordered_draws.len() == data.ordered_draws.len()
                &&& s.complex_fill_draws.len() == data.complex_fill_draws.len()
                &&& forall|i: int|
                    0 <= i < data.ordered_draws.len() ==> match #[trigger] data.ordered_draws[i] {
                        EncodedDraw::Simple { .. } => s.ordered_draws[i] == data.ordered_draws[i],
                        EncodedDraw::Complex(c) => s.ordered_draws[i] matches EncodedDraw::Complex(
                            u,
                        ) && u.stencil_index_start == c.stencil_index_start + simple
                            && u.cover_index_start == c.cover_index_start + simple
                            && u.stencil_index_count == c.stencil_index_count
                            && u.cover_index_count == c.cover_index_count && u.fill_rule
                            == c.fill_rule,
                    }
                &&& forall|i: int|
                    0 <= i < data.complex_fill_draws.len() ==> {
                        let c = #[trigger] data.complex_fill_draws[i];
                        let u = s.complex_fill_draws[i];
                        &&& u.stencil_index_start == c.stencil_index_start + simple
                        &&& u.cover_index_start == c.cover_index_start + simple
                        &&& u.stencil_index_count == c.stencil_index_count
                        &&& u.cover_index_count == c.cover_index_count
                        &&& u.fill_rule == c.fill_rule
                    }
            } else {
                &&& s.instance_count == 1
                &&& s.index_count == 0
                &&& s.total_vertices == 0
                &&& s.ordered_draws.len() == 0
                &&& s.complex_fill_draws.len() == 0
            }
        }),
{
}

} // verus!
