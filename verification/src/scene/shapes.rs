//! How the items of one shape group become draws: each visible paint paints every
//! visible geometry listed before it in the group, and each visible sub-group is drawn
//! where it stands; hidden items are skipped.
use vstd::prelude::*;
use crate::lottie::schema::ShapeKind;

verus! {

/// What the draw plan reads of a shape item: its kind and whether it is hidden.
#[derive(Clone, Copy, Debug, PartialEq, Eq, Structural)]
pub struct ShapeEntry {
    pub kind: ShapeKind,
    pub hidden: bool,
}

/// One step of a group's draws.
#[derive(Clone, Copy, Debug, PartialEq, Eq, Structural)]
pub enum ShapeStep {
    /// Draw sub-group `item` (its own steps, under its transform).
    Group { item: usize },
    /// Paint `item` applied to the first `geometry_count` visible geometries of the
    /// group, in order.
    Paint { item: usize, geometry_count: usize },
}

/// A rectangle, ellipse, path or polystar.
pub open spec fn is_geometry(k: ShapeKind) -> bool {
    k == ShapeKind::Rect || k == ShapeKind::Ellipse || k == ShapeKind::Path || k
        == ShapeKind::Polystar
}

/// A solid or gradient fill or stroke.
pub open spec fn is_paint(k: ShapeKind) -> bool {
    k == ShapeKind::Fill || k == ShapeKind::Stroke || k == ShapeKind::GradientFill || k
        == ShapeKind::GradientStroke
}

/// The number of visible geometries among the first `i` items.
pub open spec fn geometries_before(items: Seq<ShapeEntry>, i: int) -> int
    decreases i,
{
    if i <= 0 {
        0
    } else {
        geometries_before(items, i - 1) + if !items[i - 1].hidden && is_geometry(items[i - 1].kind) {
            1int
        } else {
            0int
        }
    }
}

/// The steps of the first `i` items: a step for each visible group and each visible
/// paint, in item order.
pub open spec fn shape_steps(items: Seq<ShapeEntry>, i: int) -> Seq<ShapeStep>
    decreases i,
{
    if i <= 0 {
        Seq::empty()
    } else {
        let prev = shape_steps(items, i - 1);
        let e = items[i - 1];
        if e.hidden {
            prev
        } else if e.kind == ShapeKind::Group {
            prev.push(ShapeStep::Group { item: (i - 1) as usize })
        } else if is_paint(e.kind) {
            prev.push(
                ShapeStep::Paint {
                    item: (i - 1) as usize,
                    geometry_count: geometries_before(items, i - 1) as usize,
                },
            )
        } else {
            prev
        }
    }
}

proof fn lemma_geometries_before_bounds(items: Seq<ShapeEntry>, i: int)
    requires
        0 <= i,
    ensures
        0 <= geometries_before(items, i) <= i,
    decreases i,
{
    if i > 0 {
        lemma_geometries_before_bounds(items, i - 1);
    }
}

/// The draw steps of one group's items (see `shape_steps`).
pub fn plan_shape_steps(items: &Vec<ShapeEntry>) -> (steps: Vec<ShapeStep>)
    ensures
        steps@ == shape_steps(items@, items@.len() as int),
{
    let mut steps: Vec<ShapeStep> = Vec::new();
    let mut geometries: usize = 0;
    let mut i: usize = 0;
    while i < items.len()
        invariant
            0 <= i <= items@.len(),
            geometries as int == geometries_before(items@, i as int),
            steps@ == shape_steps(items@, i as int),
        decreases items@.len() - i,
    {
        proof {
            lemma_geometries_before_bounds(items@, i as int);
        }
        let e = items[i];
        if !e.hidden {
            match e.kind {
                ShapeKind::Group => {
                    steps.push(ShapeStep::Group { item: i });
                },
                ShapeKind::Fill | ShapeKind::Stroke | ShapeKind::GradientFill
                | ShapeKind::GradientStroke => {
                    steps.push(ShapeStep::Paint { item: i, geometry_count: geometries });
                },
                ShapeKind::Rect | ShapeKind::Ellipse | ShapeKind::Path | ShapeKind::Polystar => {
                    geometries = geometries + 1;
                },
                _ => {},
            }
        }
        i = i + 1;
    }
    steps
}

/// The steps list each visible group and paint once, in item order, and nothing else;
/// a paint's geometries are the visible geometries before it, never more than the
/// group's visible geometries in all.
pub proof fn lemma_shape_steps(items: Seq<ShapeEntry>, i: int)
    requires
        0 <= i <= items.len(),
        items.len() <= usize::MAX,
    ensures
        forall|a: int, b: int|
            0 <= a < b < shape_steps(items, i).len() ==> step_item(#[trigger] shape_steps(
                items,
                i,
            )[a]) < step_item(#[trigger] shape_steps(items, i)[b]),
        forall|a: int|
            0 <= a < shape_steps(items, i).len() ==> {
                let j = step_item(#[trigger] shape_steps(items, i)[a]) as int;
                &&& 0 <= j < i
                &&& !items[j].hidden
                &&& (items[j].kind == ShapeKind::Group || is_paint(items[j].kind))
                &&& (shape_steps(items, i)[a] matches ShapeStep::Paint { geometry_count, .. }
                    ==> geometry_count == geometries_before(items, j) && geometry_count
                    <= geometries_before(items, items.len() as int))
            },
        forall|j: int|
            0 <= j < i && !(#[trigger] items[j]).hidden && (items[j].kind == ShapeKind::Group
                || is_paint(items[j].kind)) ==> exists|a: int|
                0 <= a < shape_steps(items, i).len() && step_item(
                    #[trigger] shape_steps(items, i)[a],
                ) == j,
    decreases i,
{
    if i > 0 {
        lemma_shape_steps(items, i - 1);
        lemma_geometries_before_bounds(items, i - 1);
        lemma_geometries_monotone(items, i - 1, items.len() as int);
        let prev = shape_steps(items, i - 1);
        let cur = shape_steps(items, i);
        let e = items[i - 1];
        if !e.hidden && (e.kind == ShapeKind::Group || is_paint(e.kind)) {
            assert(cur.len() == prev.len() + 1);
            assert forall|a: int| 0 <= a < prev.len() implies cur[a] == prev[a] by {}
            assert(step_item(cur[prev.len() as int]) == i - 1);
            assert forall|j: int|
                0 <= j < i && !(#[trigger] items[j]).hidden && (items[j].kind == ShapeKind::Group
                    || is_paint(items[j].kind)) implies exists|a: int|
                    0 <= a < cur.len() && step_item(#[trigger] cur[a]) == j by {
                if j < i - 1 {
                    let a = choose|a: int| 0 <= a < prev.len() && step_item(#[trigger] prev[a]) == j;
                    assert(cur[a] == prev[a]);
                } else {
                    assert(step_item(cur[prev.len() as int]) == j);
                }
            }
            assert forall|a: int| 0 <= a < cur.len() implies {
                let j = step_item(#[trigger] cur[a]) as int;
                &&& 0 <= j < i
                &&& !items[j].hidden
                &&& (items[j].kind == ShapeKind::Group || is_paint(items[j].kind))
                &&& (cur[a] matches ShapeStep::Paint { geometry_count, .. } ==> geometry_count
                    == geometries_before(items, j) && geometry_count <= geometries_before(
                    items,
                    items.len() as int,
                ))
            } by {
                if a < prev.len() {
                    assert(cur[a] == prev[a]);
                }
            }
        } else {
            assert(cur == prev);
            assert forall|j: int|
                0 <= j < i && !(#[trigger] items[j]).hidden && (items[j].kind == ShapeKind::Group
                    || is_paint(items[j].kind)) implies exists|a: int|
                    0 <= a < cur.len() && step_item(#[trigger] cur[a]) == j by {
                if j < i - 1 {
                    let a = choose|a: int| 0 <= a < prev.len() && step_item(#[trigger] prev[a]) == j;
                }
            }
        }
    }
}

/// Whether an entry is a visible rectangle, ellipse, path or polystar.
pub open spec fn visible_outline(e: ShapeEntry) -> bool {
    !e.hidden && (e.kind == ShapeKind::Rect || e.kind == ShapeKind::Ellipse || e.kind
        == ShapeKind::Path || e.kind == ShapeKind::Polystar)
}

proof fn lemma_geometries_count(items: Seq<ShapeEntry>, i: int)
    requires
        0 <= i <= items.len(),
    ensures
        geometries_before(items, i) == items.take(i).filter(|e: ShapeEntry| visible_outline(e)).len(),
    decreases i,
{
    reveal(Seq::filter);
    if i > 0 {
        lemma_geometries_count(items, i - 1);
        assert(items.take(i).drop_last() =~= items.take(i - 1));
        assert(items.take(i).last() == items[i - 1]);
    } else {
        assert(items.take(0).len() == 0);
    }
}

/// Each paint step paints exactly the visible rectangles, ellipses, paths and
/// polystars listed before the paint in its group.
pub proof fn lemma_paint_covers_outlines_before(items: Seq<ShapeEntry>)
    requires
        items.len() <= usize::MAX,
    ensures
        forall|a: int|
            0 <= a < shape_steps(items, items.len() as int).len() ==> (#[trigger] shape_steps(
                items,
                items.len() as int,
            )[a] matches ShapeStep::Paint { item, geometry_count } ==> geometry_count == items.take(
                item as int,
            ).filter(|e: ShapeEntry| visible_outline(e)).len()),
{
    lemma_shape_steps(items, items.len() as int);
    assert forall|a: int|
        0 <= a < shape_steps(items, items.len() as int).len() implies (#[trigger] shape_steps(
            items,
            items.len() as int,
        )[a] matches ShapeStep::Paint { item, geometry_count } ==> geometry_count == items.take(
            item as int,
        ).filter(|e: ShapeEntry| visible_outline(e)).len()) by {
        let st = shape_steps(items, items.len() as int)[a];
        let j = step_item(st) as int;
        lemma_geometries_count(items, j);
    }
}

/// The item that a step stands for.
pub open spec fn step_item(s: ShapeStep) -> usize {
    match s {
        ShapeStep::Group { item } => item,
        ShapeStep::Paint { item, .. } => item,
    }
}

proof fn lemma_geometries_monotone(items: Seq<ShapeEntry>, i: int, j: int)
    requires
        0 <= i <= j,
    ensures
        geometries_before(items, i) <= geometries_before(items, j),
    decreases j - i,
{
    if i < j {
        lemma_geometries_monotone(items, i, j - 1);
    }
}

} // verus!
