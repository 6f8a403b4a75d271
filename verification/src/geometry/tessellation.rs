//! Index and vertex bookkeeping of the GPU path encoding: where each contour's
//! vertices and indices go, how draws are shifted when per-sprite encodings are
//! concatenated, and the draw records that keep the painter's order.
use vstd::prelude::*;
use crate::geometry::path::FillRule;

verus! {

/// Minimum number of segments per cubic of a fill contour.
pub const MIN_FILL_CUBIC_SEGMENTS: u32 = 4;

/// Topology codes stored in a fill contour record.
pub const FILL_TOPOLOGY_NONE: u32 = 0;
pub const FILL_TOPOLOGY_SIMPLE: u32 = 1;
pub const FILL_TOPOLOGY_COMPLEX_FAN: u32 = 2;

/// Per-dispatch metadata for the stroke compute pass.
#[derive(Clone, Copy, Debug, Default)]
pub struct TessellateUniforms {
    pub total_vertices: u32,
    pub total_segments: u32,
    pub _pad: [u32; 2],
}

/// Per-dispatch metadata for the fill compute pass.
#[derive(Clone, Copy, Debug, Default)]
pub struct FillTessUniforms {
    pub total_cubics: u32,
    pub total_contours: u32,
    pub _pad: [u32; 2],
}

/// Stencil fill rule of a complex fill.
#[derive(Clone, Copy, Debug, PartialEq, Eq, Structural, Default)]
pub enum ComplexFillRule {
    #[default]
    NonZero,
    EvenOdd,
}

/// A complex fill: a stencil pass over the fan triangles, then a cover pass.
#[derive(Clone, Copy, Debug, Default)]
pub struct ComplexFillDraw {
    pub stencil_index_start: u32,
    pub stencil_index_count: u32,
    pub cover_index_start: u32,
    pub cover_index_count: u32,
    pub fill_rule: ComplexFillRule,
}

/// Which index range a simple draw reads from.
#[derive(Clone, Copy, Debug, PartialEq, Eq, Structural)]
pub enum SimpleDrawSource {
    Fill,
    Stroke,
}

/// One draw of the encoded frame, in painter's order.
#[derive(Clone, Copy, Debug)]
pub enum EncodedDraw {
    Simple { source: SimpleDrawSource, index_start: u32, index_count: u32 },
    Complex(ComplexFillDraw),
}

/// The stencil rule that a path fill rule asks for.
pub fn complex_fill_rule(rule: FillRule) -> (r: ComplexFillRule)
    ensures
        r == (match rule {
            FillRule::EvenOdd => ComplexFillRule::EvenOdd,
            FillRule::NonZero => ComplexFillRule::NonZero,
        }),
{
    match rule {
        FillRule::EvenOdd => ComplexFillRule::EvenOdd,
        FillRule::NonZero => ComplexFillRule::NonZero,
    }
}

/// A draw whose index ranges are shifted: a simple draw by the offset of its source,
/// a complex draw's stencil and cover ranges by the complex offset.
pub open spec fn spec_remap_draw(
    draw: EncodedDraw,
    fill_index_offset: u32,
    stroke_index_offset: u32,
    complex_index_offset: u32,
) -> EncodedDraw {
    match draw {
        EncodedDraw::Simple { source, index_start, index_count } => EncodedDraw::Simple {
            source,
            index_start: (index_start + match source {
                SimpleDrawSource::Fill => fill_index_offset,
                SimpleDrawSource::Stroke => stroke_index_offset,
            }) as u32,
            index_count,
        },
        EncodedDraw::Complex(d) => EncodedDraw::Complex(
            ComplexFillDraw {
                stencil_index_start: (d.stencil_index_start + complex_index_offset) as u32,
                cover_index_start: (d.cover_index_start + complex_index_offset) as u32,
                ..d
            },
        ),
    }
}

/// The shifts of `spec_remap_draw` stay within 32 bits.
pub open spec fn remap_fits(
    draw: EncodedDraw,
    fill_index_offset: u32,
    stroke_index_offset: u32,
    complex_index_offset: u32,
) -> bool {
    match draw {
        EncodedDraw::Simple { source, index_start, .. } => index_start + match source {
            SimpleDrawSource::Fill => fill_index_offset,
            SimpleDrawSource::Stroke => stroke_index_offset,
        } <= u32::MAX,
        EncodedDraw::Complex(d) => d.stencil_index_start + complex_index_offset <= u32::MAX
            && d.cover_index_start + complex_index_offset <= u32::MAX,
    }
}

pub fn remap_local_draw(
    draw: EncodedDraw,
    fill_index_offset: u32,
    stroke_index_offset: u32,
    complex_index_offset: u32,
) -> (r: EncodedDraw)
    requires
        remap_fits(draw, fill_index_offset, stroke_index_offset, complex_index_offset),
    ensures
        r == spec_remap_draw(draw, fill_index_offset, stroke_index_offset, complex_index_offset),
{
    match draw {
        EncodedDraw::Simple { source, index_start, index_count } => {
            let base = match source {
                SimpleDrawSource::Fill => fill_index_offset,
                SimpleDrawSource::Stroke => stroke_index_offset,
            };
            EncodedDraw::Simple { source, index_start: index_start + base, index_count }
        },
        EncodedDraw::Complex(mut d) => {
            d.stencil_index_start = d.stencil_index_start + complex_index_offset;
            d.cover_index_start = d.cover_index_start + complex_index_offset;
            EncodedDraw::Complex(d)
        },
    }
}

/// Remapping keeps the kind of a draw, the source of a simple draw, every count and
/// the fill rule: only index starts move.
pub proof fn lemma_remap_keeps_shape(
    draw: EncodedDraw,
    fill_index_offset: u32,
    stroke_index_offset: u32,
    complex_index_offset: u32,
)
    requires
        remap_fits(draw, fill_index_offset, stroke_index_offset, complex_index_offset),
    ensures
        ({
            let r = spec_remap_draw(
                draw,
                fill_index_offset,
                stroke_index_offset,
                complex_index_offset,
            );
            match (draw, r) {
                (
                    EncodedDraw::Simple { source: s1, index_start: a, index_count: n1 },
                    EncodedDraw::Simple { source: s2, index_start: b, index_count: n2 },
                ) => s1 == s2 && n1 == n2 && b >= a,
                (EncodedDraw::Complex(d1), EncodedDraw::Complex(d2)) => d1.stencil_index_count
                    == d2.stencil_index_count && d1.cover_index_count == d2.cover_index_count
                    && d1.fill_rule == d2.fill_rule && d2.cover_index_start - d2.stencil_index_start
                    == d1.cover_index_start - d1.stencil_index_start,
                _ => false,
            }
        }),
{
}

/// Remaps every draw of `draws` (in order) and appends the results to `out`.
pub fn remap_local_draws(
    draws: &Vec<EncodedDraw>,
    fill_index_offset: u32,
    stroke_index_offset: u32,
    complex_index_offset: u32,
    out: &mut Vec<EncodedDraw>,
)
    requires
        forall|i: int|
            0 <= i < draws@.len() ==> remap_fits(
                #[trigger] draws@[i],
                fill_index_offset,
                stroke_index_offset,
                complex_index_offset,
            ),
    ensures
        final(out)@.len() == old(out)@.len() + draws@.len(),
        final(out)@.subrange(0, old(out)@.len() as int) == old(out)@,
        forall|i: int|
            0 <= i < draws@.len() ==> #[trigger] final(out)@[old(out)@.len() + i]
                == spec_remap_draw(
                draws@[i],
                fill_index_offset,
                stroke_index_offset,
                complex_index_offset,
            ),
{
    let ghost start = out@.len();
    let mut i: usize = 0;
    while i < draws.len()
        invariant
            0 <= i <= draws@.len(),
            out@.len() == start + i,
            start == old(out)@.len(),
            out@.subrange(0, start as int) == old(out)@,
            forall|j: int|
                0 <= j < draws@.len() ==> remap_fits(
                    #[trigger] draws@[j],
                    fill_index_offset,
                    stroke_index_offset,
                    complex_index_offset,
                ),
            forall|j: int|
                0 <= j < i ==> #[trigger] out@[start + j] == spec_remap_draw(
                    draws@[j],
                    fill_index_offset,
                    stroke_index_offset,
                    complex_index_offset,
                ),
        decreases draws@.len() - i,
    {
        let d = remap_local_draw(
            draws[i],
            fill_index_offset,
            stroke_index_offset,
            complex_index_offset,
        );
        out.push(d);
        i = i + 1;
    }
}


// ─── Segment counts and vertex layout ───────────────────────

/// A segment count raised to at least `min`.
pub open spec fn clamped(c: u32, min: u32) -> int {
    if c < min {
        min as int
    } else {
        c as int
    }
}

/// Vertices that cubic `k` of a contour contributes: its (clamped) segment count, plus
/// one closing vertex for the last cubic.
pub open spec fn edge_count(raw: Seq<u32>, k: int, min: u32) -> int {
    clamped(raw[k], min) + if k == raw.len() - 1 {
        1int
    } else {
        0int
    }
}

/// Vertices contributed by the cubics before cubic `i`.
pub open spec fn edges_before(raw: Seq<u32>, i: int, min: u32) -> int
    decreases i,
{
    if i <= 0 {
        0
    } else {
        edges_before(raw, i - 1, min) + edge_count(raw, i - 1, min)
    }
}

/// Vertices contributed by the whole contour.
pub open spec fn total_edges(raw: Seq<u32>, min: u32) -> int {
    edges_before(raw, raw.len() as int, min)
}

/// Vertices before a cubic never exceed those of the whole contour, and grow with `i`.
pub proof fn lemma_edges_before_monotone(raw: Seq<u32>, i: int, j: int, min: u32)
    requires
        0 <= i <= j <= raw.len(),
    ensures
        0 <= edges_before(raw, i, min) <= edges_before(raw, j, min),
    decreases j - i,
{
    if i < j {
        lemma_edges_before_monotone(raw, i, j - 1, min);
    } else {
        lemma_edges_before_nonneg(raw, i, min);
    }
}

/// With every segment count raised to at least one, each cubic before `i` contributes at
/// least one vertex.
pub proof fn lemma_edges_before_at_least_count(raw: Seq<u32>, i: int, min: u32)
    requires
        min >= 1,
        0 <= i <= raw.len(),
    ensures
        edges_before(raw, i, min) >= i,
    decreases i,
{
    if i > 0 {
        lemma_edges_before_at_least_count(raw, i - 1, min);
    }
}

proof fn lemma_edges_before_nonneg(raw: Seq<u32>, i: int, min: u32)
    ensures
        edges_before(raw, i, min) >= 0,
    decreases i,
{
    if i > 0 {
        lemma_edges_before_nonneg(raw, i - 1, min);
    }
}

fn clamp_count(c: u32, min: u32) -> (r: u32)
    ensures
        r as int == clamped(c, min),
{
    if c < min {
        min
    } else {
        c
    }
}

/// Where a fill contour's cubics put their edge vertices.
pub struct FillContourLayout {
    /// Segment count of each cubic (at least `MIN_FILL_CUBIC_SEGMENTS`).
    pub segment_counts: Vec<u32>,
    /// First edge vertex of each cubic, relative to the contour's first vertex.
    pub first_edge_vertex: Vec<u32>,
    /// Edge vertices of the contour; the midpoint vertex follows them.
    pub total_edge_verts: u32,
}

/// Lays out a fill contour from the raw segment count of each cubic: each count is
/// raised to `MIN_FILL_CUBIC_SEGMENTS`, each cubic starts where the previous ones end,
/// and the last cubic adds a closing vertex. `None` for a contour without cubics or
/// with fewer than three edge vertices.
pub fn plan_fill_contour(raw_counts: &Vec<u32>) -> (r: Option<FillContourLayout>)
    requires
        total_edges(raw_counts@, MIN_FILL_CUBIC_SEGMENTS) <= u32::MAX,
    ensures
        match r {
            None => raw_counts@.len() == 0 || total_edges(raw_counts@, MIN_FILL_CUBIC_SEGMENTS)
                < 3,
            Some(l) => {
                &&& raw_counts@.len() > 0
                &&& total_edges(raw_counts@, MIN_FILL_CUBIC_SEGMENTS) >= 3
                &&& l.total_edge_verts as int == total_edges(raw_counts@, MIN_FILL_CUBIC_SEGMENTS)
                &&& l.segment_counts@.len() == raw_counts@.len()
                &&& l.first_edge_vertex@.len() == raw_counts@.len()
                &&& forall|k: int|
                    0 <= k < raw_counts@.len() ==> #[trigger] l.segment_counts@[k] as int
                        == clamped(raw_counts@[k], MIN_FILL_CUBIC_SEGMENTS)
                        && l.first_edge_vertex@[k] as int == edges_before(
                        raw_counts@,
                        k,
                        MIN_FILL_CUBIC_SEGMENTS,
                    )
            },
        },
{
    let n = raw_counts.len();
    if n == 0 {
        return None;
    }
    let ghost raw = raw_counts@;
    let mut segment_counts: Vec<u32> = Vec::new();
    let mut first_edge_vertex: Vec<u32> = Vec::new();
    let mut total: u32 = 0;
    let mut i: usize = 0;
    while i < n
        invariant
            n == raw.len(),
            raw == raw_counts@,
            n > 0,
            0 <= i <= n,
            total as int == edges_before(raw, i as int, MIN_FILL_CUBIC_SEGMENTS),
            total_edges(raw, MIN_FILL_CUBIC_SEGMENTS) <= u32::MAX,
            segment_counts@.len() == i,
            first_edge_vertex@.len() == i,
            forall|k: int|
                0 <= k < i ==> #[trigger] segment_counts@[k] as int == clamped(
                    raw[k],
                    MIN_FILL_CUBIC_SEGMENTS,
                ) && first_edge_vertex@[k] as int == edges_before(
                    raw,
                    k,
                    MIN_FILL_CUBIC_SEGMENTS,
                ),
        decreases n - i,
    {
        let seg = clamp_count(raw_counts[i], MIN_FILL_CUBIC_SEGMENTS);
        let edges: u32 = if i == n - 1 {
            proof {
                lemma_edges_before_monotone(raw, i + 1, n as int, MIN_FILL_CUBIC_SEGMENTS);
            }
            seg + 1
        } else {
            proof {
                lemma_edges_before_monotone(raw, i + 1, n as int, MIN_FILL_CUBIC_SEGMENTS);
            }
            seg
        };
        segment_counts.push(seg);
        first_edge_vertex.push(total);
        total = total + edges;
        i = i + 1;
    }
    if total < 3 {
        return None;
    }
    Some(FillContourLayout { segment_counts, first_edge_vertex, total_edge_verts: total })
}

/// Which side of the centre line a stroke segment record offsets to.
#[derive(Clone, Copy, Debug, PartialEq, Eq, Structural)]
pub enum StrokeSide {
    /// Offset by plus half the stroke width.
    Positive,
    /// Offset by minus half the stroke width.
    Negative,
}

/// The shape command (of a sprite group) that a record's control points, colour and
/// paint come from.
#[derive(Clone, Copy, Debug, PartialEq, Eq, Structural)]
pub struct ShapeRef {
    pub group: u32,
    pub command: u32,
}

/// The integer part of a stroke segment record: which cubic it offsets, how many
/// segments the compute pass evaluates, where it writes them, and its paint.
#[derive(Clone, Copy, Debug, PartialEq, Eq, Structural)]
pub struct StrokeSegmentSlot {
    pub shape: ShapeRef,
    pub contour: u32,
    pub cubic: u32,
    pub side: StrokeSide,
    pub segment_count: u32,
    pub first_vertex_idx: u32,
    pub flags: u32,
    pub paint_index: u32,
    pub sprite_index: u32,
}

/// Flags of a stroke segment record: bit 0 always, bit 1 for the contour's last cubic.
pub open spec fn stroke_flags(raw: Seq<u32>, k: int) -> u32 {
    if k == raw.len() - 1 {
        3
    } else {
        1
    }
}

/// Index `k` of the triangle strip joining `pairs` left vertices starting at `base` to
/// the `pairs` right vertices after them: quad `q = k / 6` is the two triangles
/// (l_q, r_q, l_q+1) and (r_q, r_q+1, l_q+1).
pub open spec fn strip_index(base: int, pairs: int, k: int) -> int {
    let q = k / 6;
    let r = k % 6;
    if r == 0 {
        base + q
    } else if r == 1 {
        base + pairs + q
    } else if r == 2 {
        base + q + 1
    } else if r == 3 {
        base + pairs + q
    } else if r == 4 {
        base + pairs + q + 1
    } else {
        base + q + 1
    }
}

/// Number of strip indices for `pairs` vertex pairs.
pub open spec fn strip_len(pairs: int) -> int {
    if pairs >= 2 {
        6 * (pairs - 1)
    } else {
        0
    }
}

/// Lays out a stroke contour from the raw segment count of each cubic (raised to at
/// least one). Each cubic gets two segment records, a positive and a negative offset
/// one, each taking as many vertices as the cubic contributes (its segment count, plus
/// one for the last cubic), from `fill_count + cursor` on. The strip indices over all
/// those vertex pairs are appended to `indices`; the returned cursor is past the last
/// vertex written.
pub fn encode_stroke_contour(
    raw_counts: &Vec<u32>,
    shape: ShapeRef,
    contour: u32,
    paint_index: u32,
    sprite_index: u32,
    fill_count: u32,
    cursor: u32,
    slots: &mut Vec<StrokeSegmentSlot>,
    indices: &mut Vec<u32>,
) -> (new_cursor: u32)
    requires
        fill_count + cursor + 2 * total_edges(raw_counts@, 1) <= u32::MAX,
    ensures
        new_cursor as int == cursor + 2 * total_edges(raw_counts@, 1),
        final(slots)@.len() == old(slots)@.len() + 2 * raw_counts@.len(),
        final(slots)@.subrange(0, old(slots)@.len() as int) == old(slots)@,
        forall|k: int|
            0 <= k < raw_counts@.len() ==> {
                let a = #[trigger] final(slots)@[old(slots)@.len() + 2 * k];
                let b = final(slots)@[old(slots)@.len() + 2 * k + 1];
                let start = fill_count + cursor + 2 * edges_before(raw_counts@, k, 1);
                &&& a.segment_count as int == clamped(raw_counts@[k], 1)
                &&& b.segment_count as int == clamped(raw_counts@[k], 1)
                &&& a.first_vertex_idx as int == start
                &&& b.first_vertex_idx as int == start + edge_count(raw_counts@, k, 1)
                &&& a.flags == stroke_flags(raw_counts@, k)
                &&& b.flags == stroke_flags(raw_counts@, k)
                &&& a.side == StrokeSide::Positive
                &&& b.side == StrokeSide::Negative
                &&& a.shape == shape && b.shape == shape
                &&& a.contour == contour && b.contour == contour
                &&& a.cubic == k && b.cubic == k
                &&& a.paint_index == paint_index && b.paint_index == paint_index
                &&& a.sprite_index == sprite_index && b.sprite_index == sprite_index
            },
        final(indices)@.len() == old(indices)@.len() + strip_len(total_edges(raw_counts@, 1)),
        final(indices)@.subrange(0, old(indices)@.len() as int) == old(indices)@,
        forall|k: int|
            0 <= k < strip_len(total_edges(raw_counts@, 1)) ==> #[trigger] final(indices)@[old(
                indices,
            )@.len() + k] as int == strip_index(
                fill_count + cursor,
                total_edges(raw_counts@, 1),
                k,
            ),
{
    let n = raw_counts.len();
    let ghost raw = raw_counts@;
    let ghost s0 = slots@.len();
    let ghost total = total_edges(raw, 1);
    let mut cur: u32 = cursor;
    let mut pairs: u32 = 0;
    let mut i: usize = 0;
    while i < n
        invariant
            n == raw.len(),
            raw == raw_counts@,
            total == total_edges(raw, 1),
            0 <= i <= n,
            fill_count + cursor + 2 * total <= u32::MAX,
            pairs as int == edges_before(raw, i as int, 1),
            cur as int == cursor + 2 * edges_before(raw, i as int, 1),
            s0 == old(slots)@.len(),
            slots@.len() == s0 + 2 * i,
            slots@.subrange(0, s0 as int) == old(slots)@,
            indices@ == old(indices)@,
            forall|k: int|
                0 <= k < i ==> {
                    let a = #[trigger] slots@[s0 + 2 * k];
                    let b = slots@[s0 + 2 * k + 1];
                    let start = fill_count + cursor + 2 * edges_before(raw, k, 1);
                    &&& a.segment_count as int == clamped(raw[k], 1)
                    &&& b.segment_count as int == clamped(raw[k], 1)
                    &&& a.first_vertex_idx as int == start
                    &&& b.first_vertex_idx as int == start + edge_count(raw, k, 1)
                    &&& a.flags == stroke_flags(raw, k)
                    &&& b.flags == stroke_flags(raw, k)
                    &&& a.side == StrokeSide::Positive
                    &&& b.side == StrokeSide::Negative
                    &&& a.shape == shape && b.shape == shape
                    &&& a.contour == contour && b.contour == contour
                    &&& a.cubic == k && b.cubic == k
                    &&& a.paint_index == paint_index && b.paint_index == paint_index
                    &&& a.sprite_index == sprite_index && b.sprite_index == sprite_index
                },
        decreases n - i,
    {
        proof {
            lemma_edges_before_monotone(raw, i + 1, n as int, 1);
            lemma_edges_before_at_least_count(raw, i + 1, 1);
        }
        let seg = clamp_count(raw_counts[i], 1);
        let is_last = i == n - 1;
        let num_new: u32 = if is_last {
            seg + 1
        } else {
            seg
        };
        let flags: u32 = if is_last {
            3
        } else {
            1
        };
        let ghost before = slots@;
        slots.push(
            StrokeSegmentSlot {
                shape,
                contour,
                cubic: i as u32,
                side: StrokeSide::Positive,
                segment_count: seg,
                first_vertex_idx: fill_count + cur,
                flags,
                paint_index,
                sprite_index,
            },
        );
        cur = cur + num_new;
        slots.push(
            StrokeSegmentSlot {
                shape,
                contour,
                cubic: i as u32,
                side: StrokeSide::Negative,
                segment_count: seg,
                first_vertex_idx: fill_count + cur,
                flags,
                paint_index,
                sprite_index,
            },
        );
        cur = cur + num_new;
        pairs = pairs + num_new;
        proof {
            assert forall|k: int| 0 <= k < i + 1 implies {
                let a = #[trigger] slots@[s0 + 2 * k];
                let b = slots@[s0 + 2 * k + 1];
                let start = fill_count + cursor + 2 * edges_before(raw, k, 1);
                &&& a.segment_count as int == clamped(raw[k], 1)
                &&& b.segment_count as int == clamped(raw[k], 1)
                &&& a.first_vertex_idx as int == start
                &&& b.first_vertex_idx as int == start + edge_count(raw, k, 1)
                &&& a.flags == stroke_flags(raw, k)
                &&& b.flags == stroke_flags(raw, k)
                &&& a.side == StrokeSide::Positive
                &&& b.side == StrokeSide::Negative
                &&& a.shape == shape && b.shape == shape
                &&& a.contour == contour && b.contour == contour
                &&& a.cubic == k && b.cubic == k
                &&& a.paint_index == paint_index && b.paint_index == paint_index
                &&& a.sprite_index == sprite_index && b.sprite_index == sprite_index
            } by {
                if k < i {
                    assert(slots@[s0 + 2 * k] == before[s0 + 2 * k]);
                    assert(slots@[s0 + 2 * k + 1] == before[s0 + 2 * k + 1]);
                }
            }
            assert(slots@.subrange(0, s0 as int) =~= old(slots)@) by {
                assert forall|j: int| 0 <= j < s0 implies slots@[j] == old(slots)@[j] by {
                    assert(slots@[j] == before[j]);
                    assert(before.subrange(0, s0 as int)[j] == old(slots)@[j]);
                }
            }
        }
        i = i + 1;
    }
    proof {
        assert(pairs as int == total);
    }
    if pairs >= 2 {
        let base: u32 = fill_count + cursor;
        let ghost i0 = indices@.len();
        let mut q: u32 = 0;
        while q < pairs - 1
            invariant
                0 <= q <= pairs - 1,
                pairs >= 2,
                pairs as int == total,
                base as int == fill_count + cursor,
                base + 2 * pairs <= u32::MAX,
                i0 == old(indices)@.len(),
                indices@.len() == i0 + 6 * q,
                indices@.subrange(0, i0 as int) == old(indices)@,
                forall|k: int|
                    0 <= k < 6 * q ==> #[trigger] indices@[i0 + k] as int == strip_index(
                        base as int,
                        pairs as int,
                        k,
                    ),
            decreases pairs - 1 - q,
        {
            let l0 = base + q;
            let r0 = base + pairs + q;
            let l1 = base + q + 1;
            let r1 = base + pairs + q + 1;
            let ghost before = indices@;
            indices.push(l0);
            indices.push(r0);
            indices.push(l1);
            indices.push(r0);
            indices.push(r1);
            indices.push(l1);
            proof {
                assert forall|k: int| 0 <= k < 6 * (q + 1) implies #[trigger] indices@[i0 + k] as int
                    == strip_index(base as int, pairs as int, k) by {
                    if k < 6 * q {
                        assert(indices@[i0 + k] == before[i0 + k]);
                    } else {
                        let r = k - 6 * q;
                        assert(k / 6 == q as int && k % 6 == r) by (nonlinear_arith)
                            requires
                                6 * q <= k < 6 * q + 6,
                                r == k - 6 * q,
                        ;
                    }
                }
                assert(indices@.subrange(0, i0 as int) =~= old(indices)@) by {
                    assert forall|j: int| 0 <= j < i0 implies indices@[j] == old(indices)@[j] by {
                        assert(indices@[j] == before[j]);
                        assert(before.subrange(0, i0 as int)[j] == old(indices)@[j]);
                    }
                }
            }
            q = q + 1;
        }
    }
    cur
}

/// Every strip index lies among the strip's own vertices: at least `base` and below
/// `base + 2 * pairs`.
pub proof fn lemma_strip_indices_in_range(base: int, pairs: int, k: int)
    requires
        pairs >= 2,
        0 <= k < strip_len(pairs),
    ensures
        base <= strip_index(base, pairs, k) < base + 2 * pairs,
{
    assert(0 <= k / 6 < pairs - 1) by (nonlinear_arith)
        requires
            0 <= k < 6 * (pairs - 1),
    ;
}


// ─── Fill topology indices ──────────────────────────────────

/// Appends the index block of a midpoint fan over `total_edge_verts` edge vertices:
/// three indices per edge, each `value` until the compute pass writes them. Returns
/// the block's first index (the old length, cut to 32 bits).
pub fn append_fan_indices(indices: &mut Vec<u32>, total_edge_verts: u32, value: u32) -> (first_index: u32)
    requires
        old(indices)@.len() + 3 * total_edge_verts <= usize::MAX,
    ensures
        first_index == old(indices)@.len() as u32,
        final(indices)@ == old(indices)@ + Seq::new(
            (3 * total_edge_verts) as nat,
            |_k: int| value,
        ),
{
    let first_index = indices.len() as u32;
    let ghost start = indices@.len();
    let count: usize = 3 * (total_edge_verts as usize);
    let mut k: usize = 0;
    while k < count
        invariant
            0 <= k <= count,
            count == 3 * total_edge_verts,
            start == old(indices)@.len(),
            indices@ =~= old(indices)@ + Seq::new(k as nat, |_k: int| value),
        decreases count - k,
    {
        indices.push(value);
        k = k + 1;
    }
    first_index
}

/// Appends the two cover triangles over the four cover vertices starting at
/// `cover_vertex_start`. Returns the first index of the cover block.
pub fn append_cover_quad(indices: &mut Vec<u32>, cover_vertex_start: u32) -> (cover_index_start: u32)
    requires
        cover_vertex_start + 3 <= u32::MAX,
    ensures
        cover_index_start == old(indices)@.len() as u32,
        final(indices)@ == old(indices)@ + seq![
            cover_vertex_start,
            (cover_vertex_start + 1) as u32,
            (cover_vertex_start + 2) as u32,
            cover_vertex_start,
            (cover_vertex_start + 2) as u32,
            (cover_vertex_start + 3) as u32,
        ],
{
    let cover_index_start = indices.len() as u32;
    indices.push(cover_vertex_start);
    indices.push(cover_vertex_start + 1);
    indices.push(cover_vertex_start + 2);
    indices.push(cover_vertex_start);
    indices.push(cover_vertex_start + 2);
    indices.push(cover_vertex_start + 3);
    proof {
        assert(indices@ =~= old(indices)@ + seq![
            cover_vertex_start,
            (cover_vertex_start + 1) as u32,
            (cover_vertex_start + 2) as u32,
            cover_vertex_start,
            (cover_vertex_start + 2) as u32,
            (cover_vertex_start + 3) as u32,
        ]);
    }
    cover_index_start
}

/// The draw record of a complex fill whose stencil indices run from
/// `stencil_index_start` up to its cover block, which holds six indices.
pub fn complex_fill_draw(stencil_index_start: u32, cover_index_start: u32, rule: FillRule) -> (d: ComplexFillDraw)
    requires
        stencil_index_start <= cover_index_start,
    ensures
        d.stencil_index_start == stencil_index_start,
        d.stencil_index_count == cover_index_start - stencil_index_start,
        d.cover_index_start == cover_index_start,
        d.cover_index_count == 6,
        d.fill_rule == (match rule {
            FillRule::EvenOdd => ComplexFillRule::EvenOdd,
            FillRule::NonZero => ComplexFillRule::NonZero,
        }),
{
    ComplexFillDraw {
        stencil_index_start,
        stencil_index_count: cover_index_start - stencil_index_start,
        cover_index_start,
        cover_index_count: 6,
        fill_rule: complex_fill_rule(rule),
    }
}

// ─── Concatenating per-sprite encodings ─────────────────────

/// A complex draw with its stencil and cover starts moved by `offset`.
pub open spec fn shifted_complex(d: ComplexFillDraw, offset: u32) -> ComplexFillDraw {
    ComplexFillDraw {
        stencil_index_start: (d.stencil_index_start + offset) as u32,
        cover_index_start: (d.cover_index_start + offset) as u32,
        ..d
    }
}


} // verus!
