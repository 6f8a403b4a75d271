//! The decisions of a rendered frame: whether the geometry is encoded again, which
//! compute passes run and with how many workgroups, and the GPU calls that replay the
//! ordered draws.
use vstd::prelude::*;
use crate::geometry::tessellation::{ComplexFillRule, EncodedDraw};
use crate::renderer::buffers::{draw_call_cost, draw_call_total, DrawModel, DrawState};

verus! {

/// What a frame does with the uploaded geometry.
#[derive(Clone, Copy, Debug, PartialEq, Eq, Structural)]
pub enum FramePlan {
    /// The geometry changed: encode and upload it again, then tessellate.
    Reencode,
    /// The geometry is the same and shared by synced sprites: draw it again with this
    /// many instances.
    KeepInstanced { instance_count: u32 },
    /// The geometry is the same: draw what was uploaded.
    Keep,
}

/// The plan of a frame whose geometry has stamp `stamp`, the last upload having had
/// `last_stamp`, with `visible` sprites on screen.
pub open spec fn spec_plan_frame(last_stamp: u64, stamp: u64, batch_synced: bool, visible: u32) -> FramePlan {
    if stamp != last_stamp {
        FramePlan::Reencode
    } else if batch_synced {
        FramePlan::KeepInstanced { instance_count: if visible >= 1 { visible } else { 1 } }
    } else {
        FramePlan::Keep
    }
}

/// Decides what a frame does with its geometry: encode it again when its stamp
/// changed; otherwise keep it, and for synced sprites draw it once per visible sprite
/// (at least once).
pub fn plan_frame(last_stamp: u64, stamp: u64, batch_synced: bool, visible: u32) -> (r: FramePlan)
    ensures
        r == spec_plan_frame(last_stamp, stamp, batch_synced, visible),
{
    if stamp != last_stamp {
        FramePlan::Reencode
    } else if batch_synced {
        let instance_count = if visible >= 1 { visible } else { 1 };
        FramePlan::KeepInstanced { instance_count }
    } else {
        FramePlan::Keep
    }
}

/// The compute passes of a tessellation, each with its workgroup count.
#[derive(Clone, Copy, Debug, PartialEq, Eq, Structural)]
pub struct Dispatches {
    /// Subdividing the fill cubics into vertices.
    pub fill_tessellate: Option<u32>,
    /// Building the fan topology of the complex fill contours.
    pub fill_topology: Option<u32>,
    /// Expanding the stroke segments into strips.
    pub stroke_tessellate: Option<u32>,
}

/// Workgroups of 64 invocations that cover `n` items.
pub open spec fn workgroups(n: u32) -> u32 {
    ((n + 63) / 64) as u32
}

/// The compute passes for the uploaded state `s`: the fill passes only with fill
/// contours, the cubic pass with cubics, the topology pass (one workgroup per contour)
/// with complex fills, and the stroke pass with segments.
pub open spec fn spec_dispatches(s: DrawModel) -> Dispatches {
    Dispatches {
        fill_tessellate: if s.fill_contour_count > 0 && s.fill_cubic_count > 0 {
            Some(workgroups(s.fill_cubic_count))
        } else {
            None
        },
        fill_topology: if s.fill_contour_count > 0 && s.complex_fill_draws.len() > 0 {
            Some(s.fill_contour_count)
        } else {
            None
        },
        stroke_tessellate: if s.segment_count > 0 {
            Some(workgroups(s.segment_count))
        } else {
            None
        },
    }
}

fn workgroups_for(n: u32) -> (w: u32)
    ensures
        w == workgroups(n),
{
    let w64: u64 = (n as u64 + 63) / 64;
    w64 as u32
}

/// Picks the compute passes that tessellate the uploaded state (see `spec_dispatches`).
pub fn plan_dispatches(s: &DrawState) -> (d: Dispatches)
    ensures
        d == spec_dispatches(s@),
        d.stroke_tessellate == if s.segment_count > 0 {
            Some(((s.segment_count + 63) / 64) as u32)
        } else {
            None
        },
        d.fill_tessellate == if s.fill_contour_count > 0 && s.fill_cubic_count > 0 {
            Some(((s.fill_cubic_count + 63) / 64) as u32)
        } else {
            None
        },
        d.fill_topology == if s.fill_contour_count > 0 && s.complex_fill_draws@.len() > 0 {
            Some(s.fill_contour_count)
        } else {
            None
        },
{
    let fill_tessellate = if s.fill_contour_count > 0 && s.fill_cubic_count > 0 {
        Some(workgroups_for(s.fill_cubic_count))
    } else {
        None
    };
    let fill_topology = if s.fill_contour_count > 0 && s.complex_fill_draws.len() > 0 {
        Some(s.fill_contour_count)
    } else {
        None
    };
    let stroke_tessellate = if s.segment_count > 0 {
        Some(workgroups_for(s.segment_count))
    } else {
        None
    };
    Dispatches { fill_tessellate, fill_topology, stroke_tessellate }
}

/// Each compute pass runs exactly when it has work, with just enough workgroups of 64:
/// the stroke pass on the stroke segments alone, whatever the fills; the cubic pass on
/// the fill cubics of a frame with fill contours; the topology pass, one workgroup per
/// fill contour, for a frame with complex fills.
pub proof fn lemma_dispatches_cover_work(s: DrawModel)
    ensures
        (spec_dispatches(s).stroke_tessellate is Some) == (s.segment_count > 0),
        spec_dispatches(s).stroke_tessellate matches Some(w) ==> w * 64 >= s.segment_count
            && (w - 1) * 64 < s.segment_count,
        (spec_dispatches(s).fill_tessellate is Some) == (s.fill_contour_count > 0
            && s.fill_cubic_count > 0),
        spec_dispatches(s).fill_tessellate matches Some(w) ==> w * 64 >= s.fill_cubic_count
            && (w - 1) * 64 < s.fill_cubic_count,
        (spec_dispatches(s).fill_topology is Some) == (s.fill_contour_count > 0
            && s.complex_fill_draws.len() > 0),
        spec_dispatches(s).fill_topology matches Some(w) ==> w == s.fill_contour_count,
        forall|t: DrawModel|
            t.segment_count == s.segment_count ==> #[trigger] spec_dispatches(t).stroke_tessellate
                == spec_dispatches(s).stroke_tessellate,
{
}

/// One indexed GPU draw call: `index_count` indices from `index_start`, drawn
/// `instance_count` times.
#[derive(Clone, Copy, Debug, PartialEq, Eq, Structural)]
pub enum DrawCall {
    /// A simple fill or a stroke, through the path pipeline.
    Path { index_start: u32, index_count: u32, instance_count: u32 },
    /// The stencil pass of a complex fill, under its fill rule.
    Stencil { rule: ComplexFillRule, index_start: u32, index_count: u32, instance_count: u32 },
    /// The cover pass of a complex fill.
    Cover { index_start: u32, index_count: u32, instance_count: u32 },
}

/// The calls that replay one draw: none for an empty simple draw, one path call for
/// another simple draw, a stencil call then a cover call for a complex fill.
pub open spec fn calls_of(d: EncodedDraw, instance_count: u32) -> Seq<DrawCall> {
    match d {
        EncodedDraw::Simple { index_start, index_count, .. } => if index_count == 0 {
            Seq::empty()
        } else {
            seq![DrawCall::Path { index_start, index_count, instance_count }]
        },
        EncodedDraw::Complex(c) => seq![
            DrawCall::Stencil {
                rule: c.fill_rule,
                index_start: c.stencil_index_start,
                index_count: c.stencil_index_count,
                instance_count,
            },
            DrawCall::Cover {
                index_start: c.cover_index_start,
                index_count: c.cover_index_count,
                instance_count,
            },
        ],
    }
}

/// The calls that replay `draws` in order.
pub open spec fn spec_draw_calls(draws: Seq<EncodedDraw>, instance_count: u32) -> Seq<DrawCall>
    decreases draws.len(),
{
    if draws.len() == 0 {
        Seq::empty()
    } else {
        spec_draw_calls(draws.drop_last(), instance_count) + calls_of(draws.last(), instance_count)
    }
}

/// The calls that replay the ordered draws of the uploaded state, each drawn with its
/// instance count (see `spec_draw_calls`).
pub fn plan_draw_calls(s: &DrawState) -> (calls: Vec<DrawCall>)
    ensures
        calls@ == spec_draw_calls(s@.ordered_draws, s@.instance_count),
{
    let inst = s.instance_count;
    let mut calls: Vec<DrawCall> = Vec::new();
    let mut i: usize = 0;
    while i < s.ordered_draws.len()
        invariant
            0 <= i <= s.ordered_draws@.len(),
            inst == s.instance_count,
            calls@ == spec_draw_calls(s.ordered_draws@.take(i as int), inst),
        decreases s.ordered_draws@.len() - i,
    {
        let ghost before = calls@;
        let d = s.ordered_draws[i];
        match d {
            EncodedDraw::Simple { index_start, index_count, .. } => {
                if index_count != 0 {
                    calls.push(DrawCall::Path { index_start, index_count, instance_count: inst });
                }
            },
            EncodedDraw::Complex(c) => {
                calls.push(
                    DrawCall::Stencil {
                        rule: c.fill_rule,
                        index_start: c.stencil_index_start,
                        index_count: c.stencil_index_count,
                        instance_count: inst,
                    },
                );
                calls.push(
                    DrawCall::Cover {
                        index_start: c.cover_index_start,
                        index_count: c.cover_index_count,
                        instance_count: inst,
                    },
                );
            },
        }
        proof {
            let t = s.ordered_draws@.take(i + 1);
            assert(t.drop_last() =~= s.ordered_draws@.take(i as int));
            assert(t.last() == d);
            assert(calls@ =~= before + calls_of(d, inst));
        }
        i = i + 1;
    }
    proof {
        assert(s.ordered_draws@.take(s.ordered_draws@.len() as int) =~= s.ordered_draws@);
    }
    calls
}

/// Replaying draws issues at most the counted draw calls (see `draw_call_total`), and
/// exactly that many when no simple draw is empty.
pub proof fn lemma_draw_calls_counted(draws: Seq<EncodedDraw>, instance_count: u32)
    ensures
        spec_draw_calls(draws, instance_count).len() <= draw_call_total(draws),
        (forall|i: int|
            0 <= i < draws.len() ==> !(#[trigger] draws[i] matches EncodedDraw::Simple {
                index_count,
                ..
            } && index_count == 0)) ==> spec_draw_calls(draws, instance_count).len()
            == draw_call_total(draws),
    decreases draws.len(),
{
    if draws.len() > 0 {
        let prev = draws.drop_last();
        lemma_draw_calls_counted(prev, instance_count);
        let d = draws.last();
        assert(calls_of(d, instance_count).len() <= draw_call_cost(d));
        if forall|i: int|
            0 <= i < draws.len() ==> !(#[trigger] draws[i] matches EncodedDraw::Simple {
                index_count,
                ..
            } && index_count == 0) {
            assert forall|i: int|
                0 <= i < prev.len() implies !(#[trigger] prev[i] matches EncodedDraw::Simple {
                    index_count,
                    ..
                } && index_count == 0) by {
                assert(prev[i] == draws[i]);
            }
            assert(draws[draws.len() - 1] == d);
        }
    }
}

/// A frame encodes its geometry again exactly when the stamp changed. Otherwise synced
/// sprites are drawn once per visible sprite, and at least once; unsynced ones keep
/// what was uploaded.
pub proof fn lemma_frame_plan(last_stamp: u64, stamp: u64, batch_synced: bool, visible: u32)
    ensures
        (spec_plan_frame(last_stamp, stamp, batch_synced, visible) == FramePlan::Reencode) == (
        stamp != last_stamp),
        stamp == last_stamp && batch_synced ==> (spec_plan_frame(
            last_stamp,
            stamp,
            batch_synced,
            visible,
        ) matches FramePlan::KeepInstanced { instance_count } && instance_count >= 1
            && instance_count >= visible && (visible > 0 ==> instance_count == visible)),
        stamp == last_stamp && !batch_synced ==> spec_plan_frame(
            last_stamp,
            stamp,
            batch_synced,
            visible,
        ) == FramePlan::Keep,
{
}

/// Replaying draws keeps their order: the calls of two runs of draws one after the
/// other are the calls of the first run, then those of the second.
pub proof fn lemma_draw_calls_concat(a: Seq<EncodedDraw>, b: Seq<EncodedDraw>, instance_count: u32)
    ensures
        spec_draw_calls(a + b, instance_count) == spec_draw_calls(a, instance_count)
            + spec_draw_calls(b, instance_count),
    decreases b.len(),
{
    if b.len() == 0 {
        assert(a + b =~= a);
        assert(spec_draw_calls(a, instance_count) + spec_draw_calls(b, instance_count)
            =~= spec_draw_calls(a, instance_count));
    } else {
        lemma_draw_calls_concat(a, b.drop_last(), instance_count);
        assert((a + b).drop_last() =~= a + b.drop_last());
        assert((a + b).last() == b.last());
        assert(spec_draw_calls(a + b, instance_count) =~= spec_draw_calls(a, instance_count)
            + spec_draw_calls(b, instance_count));
    }
}

/// What one draw replays as: a complex fill is a stencil call over its stencil range
/// under its fill rule, then a cover call over its cover range; a simple draw is one
/// path call over its range, or nothing when the range is empty. Every call is drawn
/// with the given instance count.
pub proof fn lemma_draw_calls_of_one(d: EncodedDraw, instance_count: u32)
    ensures
        ({
            let calls = spec_draw_calls(seq![d], instance_count);
            match d {
                EncodedDraw::Complex(c) => calls.len() == 2 && calls[0] == (DrawCall::Stencil {
                    rule: c.fill_rule,
                    index_start: c.stencil_index_start,
                    index_count: c.stencil_index_count,
                    instance_count: instance_count,
                }) && calls[1] == (DrawCall::Cover {
                    index_start: c.cover_index_start,
                    index_count: c.cover_index_count,
                    instance_count: instance_count,
                }),
                EncodedDraw::Simple { index_start, index_count, .. } => if index_count == 0 {
                    calls.len() == 0
                } else {
                    calls.len() == 1 && calls[0] == (DrawCall::Path {
                        index_start: index_start,
                        index_count: index_count,
                        instance_count: instance_count,
                    })
                },
            }
        }),
{
    assert(seq![d].drop_last() =~= Seq::<EncodedDraw>::empty());
    assert(seq![d].last() == d);
    assert(spec_draw_calls(Seq::<EncodedDraw>::empty(), instance_count) == Seq::<DrawCall>::empty());
    assert(Seq::<DrawCall>::empty() + calls_of(d, instance_count) =~= calls_of(d, instance_count));
    assert(spec_draw_calls(seq![d], instance_count) =~= calls_of(d, instance_count));
}

} // verus!
