use vstd::prelude::*;

verus! {

/// Path commands.
#[derive(Clone, Copy, Debug, PartialEq, Eq, Structural)]
pub enum PathVerb {
    Move,
    Line,
    Quad,
    Cubic,
    Close,
}

/// Fill rule of a filled path.
#[derive(Clone, Copy, Debug, PartialEq, Eq, Structural, Default)]
pub enum FillRule {
    #[default]
    NonZero,
    EvenOdd,
}

/// Stroke cap style.
#[derive(Clone, Copy, Debug, PartialEq, Eq, Structural, Default)]
pub enum StrokeCap {
    #[default]
    Butt,
    Round,
    Square,
}

/// Stroke join style.
#[derive(Clone, Copy, Debug, PartialEq, Eq, Structural, Default)]
pub enum StrokeJoin {
    #[default]
    Miter,
    Round,
    Bevel,
}


/// Points that a verb consumes: one for a move or line, two for a quad, three for a
/// cubic, none for a close.
pub open spec fn verb_points(v: PathVerb) -> int {
    match v {
        PathVerb::Move => 1,
        PathVerb::Line => 1,
        PathVerb::Quad => 2,
        PathVerb::Cubic => 3,
        PathVerb::Close => 0,
    }
}

/// Points that a sequence of verbs consumes.
pub open spec fn points_of(verbs: Seq<PathVerb>) -> int
    decreases verbs.len(),
{
    if verbs.len() == 0 {
        0
    } else {
        points_of(verbs.drop_last()) + verb_points(verbs.last())
    }
}

/// Verbs that end a contour scan: a move starts the next contour, a close ends this one.
pub open spec fn is_contour_break(v: PathVerb) -> bool {
    v == PathVerb::Move || v == PathVerb::Close
}

pub proof fn lemma_points_of_prefix_monotone(verbs: Seq<PathVerb>, i: int, j: int)
    requires
        0 <= i <= j <= verbs.len(),
    ensures
        0 <= points_of(verbs.take(i)) <= points_of(verbs.take(j)),
    decreases j - i,
{
    if i < j {
        lemma_points_of_prefix_monotone(verbs, i, j - 1);
        assert(verbs.take(j).drop_last() =~= verbs.take(j - 1));
    } else {
        lemma_points_of_nonneg(verbs.take(i));
    }
}

proof fn lemma_points_of_nonneg(verbs: Seq<PathVerb>)
    ensures
        points_of(verbs) >= 0,
    decreases verbs.len(),
{
    if verbs.len() > 0 {
        lemma_points_of_nonneg(verbs.drop_last());
    }
}

/// One contour of a path: verbs `verb_start..verb_end` and points
/// `point_start..point_end`.
#[derive(Clone, Copy, Debug)]
pub struct ContourSpan {
    pub verb_start: usize,
    pub verb_end: usize,
    pub point_start: usize,
    pub point_end: usize,
    pub closed: bool,
}

/// Walks the contours (subpaths) of a path, given its verbs.
#[derive(Clone, Copy, Debug)]
pub struct ContourIter {
    pub verb_idx: usize,
    pub point_idx: usize,
}

impl ContourIter {
    /// The cursor is at verb `verb_idx`, and `point_idx` counts the points of the verbs
    /// before it.
    pub open spec fn at_verb_boundary(self, verbs: Seq<PathVerb>) -> bool {
        &&& self.verb_idx <= verbs.len()
        &&& self.point_idx as int == points_of(verbs.take(self.verb_idx as int))
    }

    pub fn new() -> (it: ContourIter)
        ensures
            it.verb_idx == 0,
            it.point_idx == 0,
    {
        ContourIter { verb_idx: 0, point_idx: 0 }
    }

    /// The next contour. A contour starts at the cursor's verb and takes every
    /// following verb up to the next move (which starts the next contour) or up to and
    /// including the next close (which closes this one). A contour that would hold no
    /// point (a close at the cursor) ends the walk: the cursor steps over it and `None`
    /// comes back, as it does at the end of the verbs.
    pub fn next(&mut self, verbs: &Vec<PathVerb>, points_len: usize) -> (r: Option<ContourSpan>)
        requires
            old(self).at_verb_boundary(verbs@),
            points_of(verbs@) <= points_len,
        ensures
            final(self).at_verb_boundary(verbs@),
            old(self).verb_idx >= verbs@.len() ==> r is None && *final(self) == *old(self),
            old(self).verb_idx < verbs@.len() && verbs@[old(self).verb_idx as int]
                == PathVerb::Close ==> r is None && final(self).verb_idx == old(self).verb_idx + 1,
            old(self).verb_idx < verbs@.len() && verbs@[old(self).verb_idx as int]
                != PathVerb::Close ==> r is Some,
            r matches Some(c) ==> {
                &&& c.verb_start == old(self).verb_idx
                &&& c.verb_start < c.verb_end <= verbs@.len()
                &&& verbs@[c.verb_start as int] != PathVerb::Close
                &&& c.point_start == old(self).point_idx
                &&& c.point_end as int == points_of(verbs@.take(c.verb_end as int))
                &&& c.point_end <= points_len
                &&& c.closed <==> verbs@[c.verb_end - 1] == PathVerb::Close
                &&& forall|k: int|
                    c.verb_start < k < c.verb_end - 1 ==> !is_contour_break(#[trigger] verbs@[k])
                &&& c.verb_end - 1 > c.verb_start ==> verbs@[c.verb_end - 1] != PathVerb::Move
                &&& !c.closed ==> (c.verb_end == verbs@.len() || verbs@[c.verb_end as int]
                    == PathVerb::Move)
                &&& final(self).verb_idx == c.verb_end
                &&& final(self).point_idx == c.point_end
            },
    {
        let n = verbs.len();
        let ghost vs = verbs@;
        if self.verb_idx >= n {
            return None;
        }
        let start_verb = self.verb_idx;
        let start_point = self.point_idx;
        let mut has_points = false;
        let mut closed = false;
        proof {
            lemma_points_of_prefix_monotone(vs, self.verb_idx as int, n as int);
            assert(vs.take(n as int) =~= vs);
        }
        while self.verb_idx < n
            invariant_except_break
                n == vs.len(),
                vs == verbs@,
                start_verb < n,
                start_verb <= self.verb_idx <= n,
                self.point_idx as int == points_of(vs.take(self.verb_idx as int)),
                points_of(vs) <= points_len,
                start_point as int == points_of(vs.take(start_verb as int)),
                has_points <==> self.verb_idx > start_verb,
                !closed,
                forall|k: int| start_verb < k < self.verb_idx ==> !is_contour_break(#[trigger] vs[k]),
                self.verb_idx > start_verb ==> vs[start_verb as int] != PathVerb::Close,
            ensures
                n == vs.len(),
                start_verb < self.verb_idx <= n,
                self.point_idx as int == points_of(vs.take(self.verb_idx as int)),
                start_point as int == points_of(vs.take(start_verb as int)),
                points_of(vs) <= points_len,
                closed <==> vs[self.verb_idx - 1] == PathVerb::Close,
                vs[start_verb as int] == PathVerb::Close ==> self.verb_idx == start_verb + 1,
                forall|k: int|
                    start_verb < k < self.verb_idx - 1 ==> !is_contour_break(#[trigger] vs[k]),
                self.verb_idx - 1 > start_verb ==> vs[self.verb_idx - 1] != PathVerb::Move,
                !closed ==> (self.verb_idx == n || vs[self.verb_idx as int] == PathVerb::Move),
                has_points <==> vs[start_verb as int] != PathVerb::Close,
            decreases n - self.verb_idx,
        {
            let verb = verbs[self.verb_idx];
            proof {
                assert(vs.take(self.verb_idx + 1).drop_last() =~= vs.take(self.verb_idx as int));
                assert(vs.take(self.verb_idx + 1).last() == vs[self.verb_idx as int]);
                lemma_points_of_prefix_monotone(vs, self.verb_idx + 1, n as int);
                assert(vs.take(n as int) =~= vs);
                assert(points_of(vs.take(self.verb_idx + 1)) == self.point_idx + verb_points(verb));
            }
            match verb {
                PathVerb::Move => {
                    if has_points {
                        break;
                    }
                    has_points = true;
                    self.point_idx = self.point_idx + 1;
                },
                PathVerb::Line => {
                    has_points = true;
                    self.point_idx = self.point_idx + 1;
                },
                PathVerb::Quad => {
                    has_points = true;
                    self.point_idx = self.point_idx + 2;
                },
                PathVerb::Cubic => {
                    has_points = true;
                    self.point_idx = self.point_idx + 3;
                },
                PathVerb::Close => {
                    closed = true;
                    self.verb_idx = self.verb_idx + 1;
                    break;
                },
            }
            self.verb_idx = self.verb_idx + 1;
        }
        if !has_points {
            None
        } else {
            proof {
                lemma_points_of_prefix_monotone(vs, self.verb_idx as int, n as int);
                assert(vs.take(n as int) =~= vs);
            }
            Some(
                ContourSpan {
                    verb_start: start_verb,
                    verb_end: self.verb_idx,
                    point_start: start_point,
                    point_end: self.point_idx,
                    closed,
                },
            )
        }
    }
}

} // verus!
