//! The artboard's component tree: a flat array of nodes with transform parents
//! (resolved from Lottie parent references) and draw owners (root or precomp),
//! the depth order in which transforms are updated, and the back-to-front order in
//! which layers are drawn.
use vstd::prelude::*;
use crate::lottie::model::LayerType;

verus! {

/// Role of a node in the artboard.
#[derive(Clone, Copy, Debug, PartialEq, Eq, Structural)]
pub enum NodeType {
    Root,
    Layer,
    Shape,
}

/// The structural part of an artboard node.
#[derive(Clone, Copy, Debug)]
pub struct NodeLinks {
    pub node_type: NodeType,
    /// Transform parent in the node array.
    pub parent_idx: Option<usize>,
    /// Draw-order owner: the root or a precomp layer.
    pub draw_parent_idx: Option<usize>,
    /// Lottie `parent` reference of the layer.
    pub lottie_parent: Option<i32>,
    /// Lottie `ind` of the layer.
    pub lottie_index: Option<i32>,
    /// Depth in the transform tree.
    pub depth: u32,
}

/// Node `j` can be the transform parent of node `i`: another node with the Lottie index
/// that `i` refers to, owned by the same draw owner.
pub open spec fn is_parent_candidate(nodes: Seq<NodeLinks>, i: int, j: int, lp: i32) -> bool {
    &&& j != i
    &&& nodes[j].lottie_index == Some(lp)
    &&& nodes[j].draw_parent_idx == nodes[i].draw_parent_idx
}

/// The first node from `from` on that can be the transform parent of `i`.
pub open spec fn first_parent_candidate(nodes: Seq<NodeLinks>, i: int, lp: i32, from: int) -> Option<int>
    decreases nodes.len() - from,
{
    if from >= nodes.len() || from < 0 {
        None
    } else if is_parent_candidate(nodes, i, from, lp) {
        Some(from)
    } else {
        first_parent_candidate(nodes, i, lp, from + 1)
    }
}

/// The transform parent of node `i`: the first node that carries the Lottie index that
/// `i` names as its parent within the same draw owner; without such a node, or without
/// a parent reference, the draw owner (the root when there is none).
pub open spec fn resolved_parent(nodes: Seq<NodeLinks>, i: int) -> int {
    let fallback = match nodes[i].draw_parent_idx {
        Some(p) => p as int,
        None => 0,
    };
    match nodes[i].lottie_parent {
        Some(lp) => match first_parent_candidate(nodes, i, lp, 0) {
            Some(j) => j,
            None => fallback,
        },
        None => fallback,
    }
}

proof fn lemma_first_candidate_bounds(nodes: Seq<NodeLinks>, i: int, lp: i32, from: int)
    ensures
        first_parent_candidate(nodes, i, lp, from) matches Some(j) ==> from <= j < nodes.len()
            && is_parent_candidate(nodes, i, j, lp),
    decreases nodes.len() - from,
{
    if from >= 0 && from < nodes.len() && !is_parent_candidate(nodes, i, from, lp) {
        lemma_first_candidate_bounds(nodes, i, lp, from + 1);
    }
}

/// Resolves every non-root node's transform parent (see `resolved_parent`); nothing else
/// changes.
pub fn resolve_parent_indices(nodes: &mut Vec<NodeLinks>)
    ensures
        final(nodes)@.len() == old(nodes)@.len(),
        old(nodes)@.len() > 0 ==> final(nodes)@[0] == old(nodes)@[0],
        forall|i: int|
            1 <= i < old(nodes)@.len() ==> {
                let n = #[trigger] final(nodes)@[i];
                let o = old(nodes)@[i];
                &&& n.parent_idx == Some(resolved_parent(old(nodes)@, i) as usize)
                &&& n.node_type == o.node_type
                &&& n.draw_parent_idx == o.draw_parent_idx
                &&& n.lottie_parent == o.lottie_parent
                &&& n.lottie_index == o.lottie_index
                &&& n.depth == o.depth
            },
{
    let ghost orig = nodes@;
    let n = nodes.len();
    let mut i: usize = 1;
    while i < n
        invariant
            n == orig.len(),
            nodes@.len() == n,
            1 <= i <= n || n == 0,
            n > 0 ==> nodes@[0] == orig[0],
            forall|k: int|
                0 <= k < n ==> (#[trigger] nodes@[k]).lottie_index == orig[k].lottie_index
                    && nodes@[k].draw_parent_idx == orig[k].draw_parent_idx,
            forall|k: int| i <= k < n ==> #[trigger] nodes@[k] == orig[k],
            forall|k: int|
                1 <= k < i ==> {
                    let m = #[trigger] nodes@[k];
                    let o = orig[k];
                    &&& m.parent_idx == Some(resolved_parent(orig, k) as usize)
                    &&& m.node_type == o.node_type
                    &&& m.draw_parent_idx == o.draw_parent_idx
                    &&& m.lottie_parent == o.lottie_parent
                    &&& m.lottie_index == o.lottie_index
                    &&& m.depth == o.depth
                },
        decreases n - i,
    {
        let scope = nodes[i].draw_parent_idx;
        let fallback: usize = match scope {
            Some(p) => p,
            None => 0,
        };
        let parent: usize = match nodes[i].lottie_parent {
            Some(lp) => {
                let mut found: Option<usize> = None;
                let mut j: usize = 0;
                while j < n
                    invariant_except_break
                        n == orig.len(),
                        nodes@.len() == n,
                        1 <= i < n,
                        0 <= j <= n,
                        found is None,
                        orig[i as int].lottie_parent == Some(lp),
                        scope == orig[i as int].draw_parent_idx,
                        forall|k: int|
                            0 <= k < n ==> (#[trigger] nodes@[k]).lottie_index
                                == orig[k].lottie_index && nodes@[k].draw_parent_idx
                                == orig[k].draw_parent_idx,
                        first_parent_candidate(orig, i as int, lp, 0) == first_parent_candidate(
                            orig,
                            i as int,
                            lp,
                            j as int,
                        ),
                    ensures
                        found matches Some(f) ==> first_parent_candidate(orig, i as int, lp, 0)
                            == Some(f as int),
                        found is None ==> first_parent_candidate(orig, i as int, lp, 0) is None,
                    decreases n - j,
                {
                    if j != i && nodes[j].lottie_index == Some(lp) && nodes[j].draw_parent_idx
                        == scope {
                        found = Some(j);
                        break;
                    }
                    j = j + 1;
                }
                match found {
                    Some(f) => f,
                    None => fallback,
                }
            },
            None => fallback,
        };
        let mut node = nodes[i];
        node.parent_idx = Some(parent);
        nodes.set(i, node);
        i = i + 1;
    }
}


// ─── Depths ─────────────────────────────────────────────────

/// The depth that node `i` settles at when its transform-parent chain reaches a
/// parentless node within `fuel` steps: that node's depth plus the number of steps.
/// `None` when the chain is longer (or cycles), or leaves the array.
pub open spec fn chain_depth(nodes: Seq<NodeLinks>, i: int, fuel: nat) -> Option<int>
    decreases fuel,
{
    if fuel == 0 || i < 0 || i >= nodes.len() {
        None
    } else {
        match nodes[i].parent_idx {
            None => Some(nodes[i].depth as int),
            Some(p) => match chain_depth(nodes, p as int, (fuel - 1) as nat) {
                Some(d) => Some(d + 1),
                None => None,
            },
        }
    }
}

/// Every transform parent is a node of the array.
pub open spec fn parents_in_range(nodes: Seq<NodeLinks>) -> bool {
    forall|i: int|
        0 <= i < nodes.len() ==> (#[trigger] nodes[i].parent_idx matches Some(p) ==> p
            < nodes.len())
}

proof fn lemma_chain_depth_fuel(nodes: Seq<NodeLinks>, i: int, f: nat, g: nat)
    requires
        f <= g,
        chain_depth(nodes, i, f) is Some,
    ensures
        chain_depth(nodes, i, g) == chain_depth(nodes, i, f),
    decreases f,
{
    match nodes[i].parent_idx {
        None => {},
        Some(p) => {
            lemma_chain_depth_fuel(nodes, p as int, (f - 1) as nat, (g - 1) as nat);
        },
    }
}

/// Depth links that never change when depths are recomputed.
pub open spec fn same_links(a: NodeLinks, b: NodeLinks) -> bool {
    &&& a.node_type == b.node_type
    &&& a.parent_idx == b.parent_idx
    &&& a.draw_parent_idx == b.draw_parent_idx
    &&& a.lottie_parent == b.lottie_parent
    &&& a.lottie_index == b.lottie_index
}

/// Node `j` agrees with its parent: one deeper.
pub open spec fn depth_consistent(nodes: Seq<NodeLinks>, j: int) -> bool {
    nodes[j].parent_idx matches Some(p) ==> nodes[j].depth == nodes[p as int].depth + 1
}

/// With every node one deeper than its parent, a node whose chain reaches a parentless
/// node has the depth that the chain gives (parentless nodes keeping their depths).
proof fn lemma_consistent_settles(orig: Seq<NodeLinks>, cur: Seq<NodeLinks>, j: int, f: nat)
    requires
        cur.len() == orig.len(),
        forall|k: int| 0 <= k < cur.len() ==> same_links(#[trigger] cur[k], orig[k]),
        forall|k: int|
            0 <= k < cur.len() && (#[trigger] orig[k].parent_idx) is None ==> cur[k].depth
                == orig[k].depth,
        forall|k: int| 0 <= k < cur.len() ==> #[trigger] depth_consistent(cur, k),
        chain_depth(orig, j, f) is Some,
    ensures
        cur[j].depth as int == chain_depth(orig, j, f)->0,
    decreases f,
{
    assert(same_links(cur[j], orig[j]));
    assert(depth_consistent(cur, j));
    match orig[j].parent_idx {
        None => {},
        Some(p) => {
            lemma_consistent_settles(orig, cur, p as int, (f - 1) as nat);
        },
    }
}

/// The number of steps from node `i` up its transform chain to a parentless node, when
/// that takes fewer than `fuel` steps.
pub open spec fn chain_len(nodes: Seq<NodeLinks>, i: int, fuel: nat) -> Option<int>
    decreases fuel,
{
    if fuel == 0 || i < 0 || i >= nodes.len() {
        None
    } else {
        match nodes[i].parent_idx {
            None => Some(0),
            Some(p) => match chain_len(nodes, p as int, (fuel - 1) as nat) {
                Some(d) => Some(d + 1),
                None => None,
            },
        }
    }
}

proof fn lemma_chain_len_fuel(nodes: Seq<NodeLinks>, i: int, f: nat, g: nat)
    requires
        f <= g,
        chain_len(nodes, i, f) is Some,
    ensures
        chain_len(nodes, i, g) == chain_len(nodes, i, f),
        0 <= chain_len(nodes, i, f)->0 < f,
    decreases f,
{
    match nodes[i].parent_idx {
        None => {},
        Some(p) => {
            lemma_chain_len_fuel(nodes, p as int, (f - 1) as nat, (g - 1) as nat);
        },
    }
}

/// Node `i` set one deeper than its transform parent (unchanged without a parent).
pub open spec fn relax_step(s: Seq<NodeLinks>, i: int) -> Seq<NodeLinks> {
    match s[i].parent_idx {
        Some(p) => s.update(
            i,
            NodeLinks {
                node_type: s[i].node_type,
                parent_idx: s[i].parent_idx,
                draw_parent_idx: s[i].draw_parent_idx,
                lottie_parent: s[i].lottie_parent,
                lottie_index: s[i].lottie_index,
                depth: (s[p as int].depth + 1) as u32,
            },
        ),
        None => s,
    }
}

/// The nodes after the first `i` steps of a pass, in array order, each step seeing the
/// depths that the earlier steps set.
pub open spec fn pass_prefix(s: Seq<NodeLinks>, i: int) -> Seq<NodeLinks>
    decreases i,
{
    if i <= 0 {
        s
    } else {
        relax_step(pass_prefix(s, i - 1), i - 1)
    }
}

/// The nodes after `rounds` passes at most, stopping after a pass that changes nothing.
pub open spec fn relaxed(s: Seq<NodeLinks>, rounds: nat) -> Seq<NodeLinks>
    decreases rounds,
{
    if rounds == 0 {
        s
    } else {
        let t = pass_prefix(s, s.len() as int);
        if t == s {
            s
        } else {
            relaxed(t, (rounds - 1) as nat)
        }
    }
}

/// Depths that recomputing cannot push past 32 bits: every chain reaches a parentless
/// node and every depth leaves room for a chain's length, or every depth leaves room
/// for as many passes over all nodes as there are nodes.
pub open spec fn depths_fit(nodes: Seq<NodeLinks>) -> bool {
    ||| forall|i: int|
        0 <= i < nodes.len() ==> (#[trigger] chain_len(nodes, i, nodes.len() as nat)) is Some
            && nodes[i].depth + nodes.len() <= u32::MAX
    ||| forall|i: int|
        0 <= i < nodes.len() ==> (#[trigger] nodes[i].depth) + nodes.len() * nodes.len()
            <= u32::MAX
}

proof fn lemma_chain_len_depth(nodes: Seq<NodeLinks>, i: int, f: nat)
    ensures
        (chain_len(nodes, i, f) is Some) == (chain_depth(nodes, i, f) is Some),
    decreases f,
{
    if f > 0 && 0 <= i < nodes.len() {
        if let Some(p) = nodes[i].parent_idx {
            lemma_chain_len_depth(nodes, p as int, (f - 1) as nat);
        }
    }
}

/// Whether `compute_depths` can take `nodes` (see `depths_fit`).
pub fn check_depths_fit(nodes: &Vec<NodeLinks>) -> (b: bool)
    requires
        parents_in_range(nodes@),
    ensures
        b == depths_fit(nodes@),
{
    let n = nodes.len();
    let mut all_reach_narrow = true;
    let mut all_wide = true;
    let mut i: usize = 0;
    while i < n
        invariant
            n == nodes@.len(),
            0 <= i <= n,
            parents_in_range(nodes@),
            all_reach_narrow == forall|k: int|
                0 <= k < i ==> (#[trigger] chain_len(nodes@, k, n as nat)) is Some
                    && nodes@[k].depth + n <= u32::MAX,
            all_wide == forall|k: int|
                0 <= k < i ==> (#[trigger] nodes@[k].depth) + n * n <= u32::MAX,
        decreases n - i,
    {
        let d = nodes[i].depth as u128;
        let nn = n as u128;
        proof {
            lemma_chain_len_depth(nodes@, i as int, n as nat);
        }
        if !(d + nn <= 0xffff_ffff && chain_reaches_root(nodes, i)) {
            all_reach_narrow = false;
        }
        if nn > 0x1_0000 {
            proof {
                assert(nn * nn > 0x1_0000 * 0x1_0000) by (nonlinear_arith)
                    requires nn > 0x1_0000u128;
            }
            all_wide = false;
        } else {
            proof {
                assert(nn * nn <= 0x1_0000 * 0x1_0000) by (nonlinear_arith)
                    requires nn <= 0x1_0000u128;
            }
            if !(d + nn * nn <= 0xffff_ffff) {
                all_wide = false;
            }
        }
        i = i + 1;
    }
    all_reach_narrow || all_wide
}

/// Recomputes depths: up to one pass per node, each pass setting every node with a
/// parent, in array order, to one more than its parent's current depth, stopping at
/// the first pass that changes nothing (see `relaxed`). So parentless nodes keep their
/// depth, and every node whose transform chain reaches a parentless node (within as
/// many steps as there are nodes) ends up that node's depth plus the chain's length.
pub fn compute_depths(nodes: &mut Vec<NodeLinks>)
    requires
        parents_in_range(old(nodes)@),
        depths_fit(old(nodes)@),
    ensures
        final(nodes)@ == relaxed(old(nodes)@, old(nodes)@.len() as nat),
        final(nodes)@.len() == old(nodes)@.len(),
        forall|i: int|
            0 <= i < old(nodes)@.len() ==> same_links(#[trigger] final(nodes)@[i], old(nodes)@[i]),
        forall|i: int|
            0 <= i < old(nodes)@.len() && (#[trigger] old(nodes)@[i].parent_idx) is None
                ==> final(nodes)@[i].depth == old(nodes)@[i].depth,
        forall|i: int|
            0 <= i < old(nodes)@.len() && (#[trigger] chain_depth(
                old(nodes)@,
                i,
                old(nodes)@.len(),
            )) is Some ==> final(nodes)@[i].depth as int == chain_depth(
                old(nodes)@,
                i,
                old(nodes)@.len(),
            )->0,
{
    let ghost orig = nodes@;
    let n = nodes.len();
    let ghost b: int = u32::MAX - n * n;
    let ghost wide: bool = forall|k: int| 0 <= k < n ==> (#[trigger] orig[k].depth) + n * n <= u32::MAX;
    let ghost bb: int = u32::MAX - n;
    let mut pass: usize = 0;
    proof {
        assert forall|k: int|
            0 <= k < n && (#[trigger] chain_depth(orig, k, 1)) is Some implies nodes@[k].depth as int
            == chain_depth(orig, k, 1)->0 by {
            if orig[k].parent_idx is Some {
                assert(chain_depth(orig, orig[k].parent_idx->0 as int, 0) is None);
            }
        }
        if wide {
            assert forall|k: int| 0 <= k < n implies (#[trigger] nodes@[k].depth) <= b + pass * n by {
                assert(orig[k].depth + n * n <= u32::MAX);
            }
        } else {
            assert forall|k: int| 0 <= k < n implies (#[trigger] chain_len(orig, k, n as nat)) is Some
                && nodes@[k].depth <= bb + chain_len(orig, k, n as nat)->0 by {
                assert(chain_len(orig, k, n as nat) is Some && orig[k].depth + n <= u32::MAX);
                lemma_chain_len_fuel(orig, k, n as nat, n as nat);
            }
        }
    }
    while pass < n
        invariant_except_break
            n == orig.len(),
            nodes@.len() == n,
            0 <= pass <= n,
            b == u32::MAX - n * n,
            bb == u32::MAX - n,
            parents_in_range(orig),
            relaxed(orig, n as nat) == relaxed(nodes@, (n - pass) as nat),
            forall|k: int| 0 <= k < n ==> same_links(#[trigger] nodes@[k], orig[k]),
            forall|k: int|
                0 <= k < n && (#[trigger] orig[k].parent_idx) is None ==> nodes@[k].depth
                    == orig[k].depth,
            wide ==> forall|k: int| 0 <= k < n ==> (#[trigger] nodes@[k].depth) <= b + pass * n,
            !wide ==> forall|k: int|
                0 <= k < n ==> (#[trigger] chain_len(orig, k, n as nat)) is Some && nodes@[k].depth
                    <= bb + chain_len(orig, k, n as nat)->0,
            forall|k: int|
                0 <= k < n && (#[trigger] chain_depth(orig, k, (pass + 1) as nat)) is Some
                    ==> nodes@[k].depth as int == chain_depth(orig, k, (pass + 1) as nat)->0,
            pass == n ==> forall|k: int|
                0 <= k < n && (#[trigger] chain_depth(orig, k, n as nat)) is Some
                    ==> nodes@[k].depth as int == chain_depth(orig, k, n as nat)->0,
        ensures
            nodes@ == relaxed(orig, n as nat),
            nodes@.len() == n,
            forall|k: int| 0 <= k < n ==> same_links(#[trigger] nodes@[k], orig[k]),
            forall|k: int|
                0 <= k < n && (#[trigger] orig[k].parent_idx) is None ==> nodes@[k].depth
                    == orig[k].depth,
            forall|k: int|
                0 <= k < n && (#[trigger] chain_depth(orig, k, n as nat)) is Some
                    ==> nodes@[k].depth as int == chain_depth(orig, k, n as nat)->0,
        decreases n - pass,
    {
        proof {
            if wide {
                assert(pass * n + n <= n * n) by (nonlinear_arith)
                    requires
                        pass < n,
                ;
            }
        }
        let ghost start = nodes@;
        let mut changed = false;
        let mut i: usize = 0;
        while i < n
            invariant
                n == orig.len(),
                nodes@.len() == n,
                start.len() == n,
                0 <= i <= n,
                0 <= pass < n,
                b == u32::MAX - n * n,
                bb == u32::MAX - n,
                parents_in_range(orig),
                nodes@ == pass_prefix(start, i as int),
                forall|k: int| i <= k < n ==> #[trigger] nodes@[k] == start[k],
                changed ==> exists|k: int| 0 <= k < i && #[trigger] nodes@[k] != start[k],
                forall|k: int| 0 <= k < n ==> same_links(#[trigger] nodes@[k], orig[k]),
                forall|k: int|
                    0 <= k < n && (#[trigger] orig[k].parent_idx) is None ==> nodes@[k].depth
                        == orig[k].depth,
                wide ==> forall|k: int| 0 <= k < n ==> (#[trigger] nodes@[k].depth) <= b + pass * n + i,
                wide ==> b + pass * n + n <= u32::MAX,
                !wide ==> forall|k: int|
                    0 <= k < n ==> (#[trigger] chain_len(orig, k, n as nat)) is Some
                        && nodes@[k].depth <= bb + chain_len(orig, k, n as nat)->0,
                forall|k: int|
                    0 <= k < n && (#[trigger] chain_depth(orig, k, (pass + 1) as nat)) is Some
                        ==> nodes@[k].depth as int == chain_depth(orig, k, (pass + 1) as nat)->0,
                forall|k: int|
                    0 <= k < i && (#[trigger] chain_depth(orig, k, (pass + 2) as nat)) is Some
                        ==> nodes@[k].depth as int == chain_depth(orig, k, (pass + 2) as nat)->0,
                !changed ==> nodes@ == start,
                !changed ==> forall|k: int| 0 <= k < i ==> #[trigger] depth_consistent(nodes@, k),
            decreases n - i,
        {
            let ghost before = nodes@;
            match nodes[i].parent_idx {
                Some(p) => {
                    proof {
                        assert(same_links(nodes@[i as int], orig[i as int]));
                        assert(orig[i as int].parent_idx matches Some(q) ==> q < n);
                        if !wide {
                            let ci = chain_len(orig, i as int, n as nat);
                            assert(ci is Some);
                            assert(chain_len(orig, p as int, (n - 1) as nat) is Some);
                            lemma_chain_len_fuel(orig, p as int, (n - 1) as nat, n as nat);
                            assert(chain_len(orig, p as int, n as nat) is Some);
                            assert(nodes@[p as int].depth <= bb + chain_len(orig, p as int, n as nat)->0);
                        }
                    }
                    let new_depth = nodes[p].depth + 1;
                    proof {
                        let ci = chain_depth(orig, i as int, (pass + 2) as nat);
                        if ci is Some {
                            lemma_chain_depth_fuel(orig, p as int, (pass + 1) as nat, (pass + 1) as nat);
                            assert(chain_depth(orig, p as int, (pass + 1) as nat) is Some);
                            assert(nodes@[p as int].depth as int == chain_depth(orig, p as int, (pass + 1) as nat)->0);
                        }
                        let ci1 = chain_depth(orig, i as int, (pass + 1) as nat);
                        if ci1 is Some {
                            lemma_chain_depth_fuel(orig, i as int, (pass + 1) as nat, (pass + 2) as nat);
                        }
                    }
                    if nodes[i].depth != new_depth {
                        let mut node = nodes[i];
                        node.depth = new_depth;
                        nodes.set(i, node);
                        changed = true;
                    }
                    proof {
                        assert(nodes@ =~= relax_step(before, i as int));
                        assert(nodes@[i as int] != start[i as int] ==> nodes@[i as int] != before[i as int]);
                        assert forall|k: int| i + 1 <= k < n implies #[trigger] nodes@[k] == start[k] by {
                            assert(nodes@[k] == before[k]);
                        }
                        if changed {
                            if nodes@[i as int] != before[i as int] {
                                assert(before[i as int] == start[i as int]);
                                assert(nodes@[i as int] != start[i as int]);
                            } else {
                                let w = choose|k: int| 0 <= k < i && #[trigger] before[k] != start[k];
                                assert(nodes@[w] == before[w]);
                                assert(nodes@[w] != start[w]);
                            }
                        }
                        assert forall|k: int|
                            0 <= k < n && (#[trigger] chain_depth(orig, k, (pass + 1) as nat)) is Some
                            implies nodes@[k].depth as int == chain_depth(orig, k, (pass + 1) as nat)->0 by {
                            if k != i {
                                assert(nodes@[k] == before[k]);
                            } else {
                                lemma_chain_depth_fuel(orig, k, (pass + 1) as nat, (pass + 2) as nat);
                            }
                        }
                        assert forall|k: int|
                            0 <= k < i + 1 && (#[trigger] chain_depth(orig, k, (pass + 2) as nat)) is Some
                            implies nodes@[k].depth as int == chain_depth(orig, k, (pass + 2) as nat)->0 by {
                            if k != i {
                                assert(nodes@[k] == before[k]);
                            }
                        }
                        assert forall|k: int| 0 <= k < n implies same_links(#[trigger] nodes@[k], orig[k]) by {
                            if k != i {
                                assert(nodes@[k] == before[k]);
                            } else {
                                assert(same_links(before[k], orig[k]));
                            }
                        }
                        if wide {
                            assert forall|k: int| 0 <= k < n implies (#[trigger] nodes@[k].depth) <= b + pass * n + i + 1 by {
                                if k != i {
                                    assert(nodes@[k] == before[k]);
                                }
                            }
                        } else {
                            assert forall|k: int| 0 <= k < n implies (#[trigger] chain_len(orig, k, n as nat)) is Some
                                && nodes@[k].depth <= bb + chain_len(orig, k, n as nat)->0 by {
                                if k != i {
                                    assert(nodes@[k] == before[k]);
                                } else {
                                    assert(chain_len(orig, k, n as nat) is Some);
                                    assert(chain_len(orig, p as int, (n - 1) as nat) is Some);
                                    lemma_chain_len_fuel(orig, p as int, (n - 1) as nat, n as nat);
                                }
                            }
                        }
                        if !changed {
                            assert forall|k: int| 0 <= k < i + 1 implies #[trigger] depth_consistent(nodes@, k) by {
                                if k < i {
                                    assert(depth_consistent(before, k));
                                }
                            }
                        }
                    }
                },
                None => {
                    proof {
                        assert(nodes@ =~= relax_step(before, i as int));
                        assert forall|k: int|
                            0 <= k < i + 1 && (#[trigger] chain_depth(orig, k, (pass + 2) as nat)) is Some
                            implies nodes@[k].depth as int == chain_depth(orig, k, (pass + 2) as nat)->0 by {
                            if k == i {
                                assert(same_links(nodes@[k], orig[k]));
                            }
                        }
                        if !changed {
                            assert forall|k: int| 0 <= k < i + 1 implies #[trigger] depth_consistent(nodes@, k) by {
                                if k == i {
                                    assert(same_links(nodes@[k], orig[k]));
                                }
                            }
                        }
                    }
                },
            }
            i = i + 1;
        }
        proof {
            assert(nodes@ == pass_prefix(start, start.len() as int));
            if changed {
                let w = choose|k: int| 0 <= k < n && #[trigger] nodes@[k] != start[k];
                assert(nodes@ != start);
            }
        }
        if !changed {
            proof {
                assert forall|k: int|
                    0 <= k < n && (#[trigger] chain_depth(orig, k, n as nat)) is Some
                    implies nodes@[k].depth as int == chain_depth(orig, k, n as nat)->0 by {
                    lemma_consistent_settles(orig, nodes@, k, n as nat);
                }
            }
            break;
        }
        proof {
            if wide {
                assert forall|k: int| 0 <= k < n implies (#[trigger] nodes@[k].depth) <= b + (pass + 1) * n by {
                    assert(b + pass * n + n == b + (pass + 1) * n) by (nonlinear_arith);
                }
            }
        }
        pass = pass + 1;
        proof {
            if pass == n {
                assert forall|k: int|
                    0 <= k < n && (#[trigger] chain_depth(orig, k, n as nat)) is Some
                    implies nodes@[k].depth as int == chain_depth(orig, k, n as nat)->0 by {
                    lemma_chain_depth_fuel(orig, k, n as nat, (n + 1) as nat);
                }
            }
        }
    }
}


// ─── Update order ───────────────────────────────────────────

/// Node `a` is updated before node `b`: it is shallower, or as deep with a lower index.
pub open spec fn updates_before(nodes: Seq<NodeLinks>, a: int, b: int) -> bool {
    nodes[a].depth < nodes[b].depth || (nodes[a].depth == nodes[b].depth && a < b)
}

/// The order in which transforms are updated: every node once, by depth, ties by
/// index (a stable sort of the indices by depth).
pub fn update_order(nodes: &Vec<NodeLinks>) -> (order: Vec<usize>)
    ensures
        order@.len() == nodes@.len(),
        forall|k: int| 0 <= k < order@.len() ==> #[trigger] order@[k] < nodes@.len(),
        forall|i: usize| i < nodes@.len() ==> #[trigger] order@.contains(i),
        forall|k: int, l: int|
            0 <= k < l < order@.len() ==> updates_before(
                nodes@,
                #[trigger] order@[k] as int,
                #[trigger] order@[l] as int,
            ),
{
    let n = nodes.len();
    let mut order: Vec<usize> = Vec::new();
    let mut i: usize = 0;
    while i < n
        invariant
            n == nodes@.len(),
            0 <= i <= n,
            order@.len() == i,
            forall|k: int| 0 <= k < order@.len() ==> #[trigger] order@[k] < i,
            forall|j: usize| j < i ==> #[trigger] order@.contains(j),
            forall|k: int, l: int|
                0 <= k < l < order@.len() ==> updates_before(
                    nodes@,
                    #[trigger] order@[k] as int,
                    #[trigger] order@[l] as int,
                ),
        decreases n - i,
    {
        let d = nodes[i].depth;
        let mut pos: usize = 0;
        while pos < order.len() && nodes[order[pos]].depth <= d
            invariant
                n == nodes@.len(),
                i < n,
                0 <= pos <= order@.len(),
                d == nodes@[i as int].depth,
                forall|k: int| 0 <= k < order@.len() ==> #[trigger] order@[k] < i,
                forall|k: int| 0 <= k < pos ==> nodes@[#[trigger] order@[k] as int].depth <= d,
            decreases order@.len() - pos,
        {
            pos = pos + 1;
        }
        let ghost before = order@;
        order.insert(pos, i);
        proof {
            assert(order@ == before.insert(pos as int, i));
            assert forall|k: int, l: int|
                0 <= k < l < order@.len() implies updates_before(
                    nodes@,
                    #[trigger] order@[k] as int,
                    #[trigger] order@[l] as int,
                ) by {
                if l < pos {
                    assert(order@[k] == before[k] && order@[l] == before[l]);
                } else if l == pos {
                    assert(order@[k] == before[k]);
                } else if k < pos {
                    assert(order@[k] == before[k] && order@[l] == before[l - 1]);
                } else if k == pos {
                    assert(order@[l] == before[l - 1]);
                    assert(updates_before(nodes@, before[pos as int] as int, before[l - 1] as int) || l - 1 == pos);
                } else {
                    assert(order@[k] == before[k - 1] && order@[l] == before[l - 1]);
                }
            }
            assert forall|j: usize| j < i + 1 implies #[trigger] order@.contains(j) by {
                if j == i {
                    assert(order@[pos as int] == i);
                } else {
                    assert(before.contains(j));
                    let w = choose|w: int| 0 <= w < before.len() && before[w] == j;
                    if w < pos {
                        assert(order@[w] == before[w]);
                    } else {
                        assert(order@[w + 1] == before[w]);
                    }
                }
            }
            assert forall|k: int| 0 <= k < order@.len() implies #[trigger] order@[k] < i + 1 by {
                if k < pos {
                    assert(order@[k] == before[k]);
                } else if k > pos {
                    assert(order@[k] == before[k - 1]);
                }
            }
        }
        i = i + 1;
    }
    order
}

// ─── Draw ownership ─────────────────────────────────────────

/// The nodes among `1..i` that draw parent `p` owns, in index order.
pub open spec fn owned_before(nodes: Seq<NodeLinks>, p: int, i: int) -> Seq<usize>
    decreases i,
{
    if i <= 1 {
        Seq::empty()
    } else {
        let rest = owned_before(nodes, p, i - 1);
        if nodes[i - 1].draw_parent_idx == Some(p as usize) {
            rest.push((i - 1) as usize)
        } else {
            rest
        }
    }
}

/// The children that each node owns for drawing (every non-root node with that draw
/// parent), in index order.
pub fn draw_children(nodes: &Vec<NodeLinks>) -> (children: Vec<Vec<usize>>)
    ensures
        children@.len() == nodes@.len(),
        forall|p: int|
            0 <= p < nodes@.len() ==> (#[trigger] children@[p])@ == owned_before(
                nodes@,
                p,
                nodes@.len() as int,
            ),
{
    let n = nodes.len();
    let mut children: Vec<Vec<usize>> = Vec::new();
    let mut p: usize = 0;
    while p < n
        invariant
            n == nodes@.len(),
            0 <= p <= n,
            children@.len() == p,
            forall|q: int|
                0 <= q < p ==> (#[trigger] children@[q])@ == owned_before(nodes@, q, n as int),
        decreases n - p,
    {
        let mut owned: Vec<usize> = Vec::new();
        let mut i: usize = 1;
        while i < n
            invariant
                n == nodes@.len(),
                p < n,
                1 <= i <= n,
                owned@ == owned_before(nodes@, p as int, i as int),
            decreases n - i,
        {
            if nodes[i].draw_parent_idx == Some(p) {
                owned.push(i);
            }
            i = i + 1;
        }
        proof {
            if n == 0 {
            } else if n == 1 {
                assert(owned_before(nodes@, p as int, 1) == Seq::<usize>::empty());
            }
        }
        children.push(owned);
        p = p + 1;
    }
    children
}

/// Nodes owned by `p` are nodes of the array other than the root, ascend, have `p` as
/// their draw parent, and every such node is among them.
pub proof fn lemma_owned_before_props(nodes: Seq<NodeLinks>, p: usize, i: int)
    requires
        i <= usize::MAX,
    ensures
        forall|k: int|
            0 <= k < owned_before(nodes, p as int, i).len() ==> 1 <= #[trigger] owned_before(
                nodes,
                p as int,
                i,
            )[k] < i,
        forall|k: int|
            0 <= k < owned_before(nodes, p as int, i).len() ==> nodes[#[trigger] owned_before(
                nodes,
                p as int,
                i,
            )[k] as int].draw_parent_idx == Some(p),
        forall|k: int, l: int|
            0 <= k < l < owned_before(nodes, p as int, i).len() ==> #[trigger] owned_before(
                nodes,
                p as int,
                i,
            )[k] < #[trigger] owned_before(nodes, p as int, i)[l],
        forall|j: usize|
            1 <= j < i && nodes[j as int].draw_parent_idx == Some(p) ==> #[trigger] owned_before(
                nodes,
                p as int,
                i,
            ).contains(j),
    decreases i,
{
    if i > 1 {
        lemma_owned_before_props(nodes, p, i - 1);
        let rest = owned_before(nodes, p as int, i - 1);
        let cur = owned_before(nodes, p as int, i);
        if nodes[i - 1].draw_parent_idx == Some(p) {
            assert(cur == rest.push((i - 1) as usize));
            assert forall|k: int| 0 <= k < cur.len() implies 1 <= #[trigger] cur[k] < i by {
                if k < rest.len() {
                    assert(cur[k] == rest[k]);
                } else {
                    assert(cur[k] == (i - 1) as usize);
                }
            }
            assert forall|k: int| 0 <= k < cur.len() implies nodes[#[trigger] cur[k] as int].draw_parent_idx
                == Some(p) by {
                if k < rest.len() {
                    assert(cur[k] == rest[k]);
                } else {
                    assert(cur[k] == (i - 1) as usize);
                }
            }
            assert forall|k: int, l: int| 0 <= k < l < cur.len() implies #[trigger] cur[k] < #[trigger] cur[l] by {
                assert(cur[k] == rest[k]);
                if l < rest.len() {
                    assert(cur[l] == rest[l]);
                }
            }
            assert forall|j: usize|
                1 <= j < i && nodes[j as int].draw_parent_idx == Some(p) implies #[trigger] cur.contains(j) by {
                if j == i - 1 {
                    assert(cur[rest.len() as int] == j);
                } else {
                    assert(rest.contains(j));
                    let w = choose|w: int| 0 <= w < rest.len() && rest[w] == j;
                    assert(cur[w] == j);
                }
            }
        } else {
            assert(cur == rest);
        }
    }
}


// ─── Draw order ─────────────────────────────────────────────

/// What drawing a node does.
#[derive(Clone, Copy, Debug, PartialEq, Eq, Structural)]
pub enum DrawRole {
    /// Draws its shapes.
    Shape,
    /// Draws the children it owns, in place.
    Precomp,
    /// Draws a filled rectangle.
    Solid,
    /// Draws nothing.
    Skip,
}

/// The role of a node: none for a node without layer data (the root), a shape or precomp
/// layer its own role, a solid layer only with its colour and size all given.
pub fn draw_role(layer_type: Option<LayerType>, solid_complete: bool) -> (r: DrawRole)
    ensures
        r == (match layer_type {
            Some(LayerType::Shape) => DrawRole::Shape,
            Some(LayerType::Precomp) => DrawRole::Precomp,
            Some(LayerType::Solid) => if solid_complete {
                DrawRole::Solid
            } else {
                DrawRole::Skip
            },
            _ => DrawRole::Skip,
        }),
{
    match layer_type {
        Some(LayerType::Shape) => DrawRole::Shape,
        Some(LayerType::Precomp) => DrawRole::Precomp,
        Some(LayerType::Solid) => if solid_complete {
            DrawRole::Solid
        } else {
            DrawRole::Skip
        },
        _ => DrawRole::Skip,
    }
}

/// The children lists as sequences.
pub open spec fn children_view(ch: Seq<Vec<usize>>) -> Seq<Seq<usize>> {
    ch.map_values(|v: Vec<usize>| v@)
}

/// Every node's children come after it and are nodes of the array.
pub open spec fn children_well_formed(ch: Seq<Seq<usize>>) -> bool {
    forall|p: int, k: int|
        0 <= p < ch.len() && 0 <= k < ch[p].len() ==> p < #[trigger] ch[p][k] < ch.len()
}

/// What the first `k` children of `owner` draw, last child first: a visible shape or
/// solid node draws itself, a visible precomp draws what its own children draw.
pub open spec fn draw_items(
    ch: Seq<Seq<usize>>,
    roles: Seq<DrawRole>,
    vis: Seq<bool>,
    owner: int,
    k: int,
) -> Seq<usize>
    decreases ch.len() - owner, k,
{
    if owner < 0 || owner >= ch.len() || k <= 0 || k > ch[owner].len() {
        Seq::empty()
    } else {
        let c = ch[owner][k - 1] as int;
        let here = if c <= owner || c >= ch.len() || !vis[c] {
            Seq::empty()
        } else {
            match roles[c] {
                DrawRole::Shape => seq![c as usize],
                DrawRole::Solid => seq![c as usize],
                DrawRole::Precomp => draw_items(ch, roles, vis, c, ch[c].len() as int),
                DrawRole::Skip => Seq::empty(),
            }
        };
        here + draw_items(ch, roles, vis, owner, k - 1)
    }
}

fn collect_draws(
    ch: &Vec<Vec<usize>>,
    roles: &Vec<DrawRole>,
    vis: &Vec<bool>,
    owner: usize,
    out: &mut Vec<usize>,
)
    requires
        owner < ch@.len(),
        roles@.len() == ch@.len(),
        vis@.len() == ch@.len(),
        children_well_formed(children_view(ch@)),
    ensures
        final(out)@ == old(out)@ + draw_items(
            children_view(ch@),
            roles@,
            vis@,
            owner as int,
            ch@[owner as int]@.len() as int,
        ),
    decreases ch@.len() - owner,
{
    let ghost cv = children_view(ch@);
    let len = ch[owner].len();
    let mut k: usize = len;
    proof {
        assert(cv[owner as int] == ch@[owner as int]@);
    }
    while k > 0
        invariant
            owner < ch@.len(),
            roles@.len() == ch@.len(),
            vis@.len() == ch@.len(),
            cv == children_view(ch@),
            children_well_formed(cv),
            len == cv[owner as int].len(),
            0 <= k <= len,
            out@ + draw_items(cv, roles@, vis@, owner as int, k as int) == old(out)@ + draw_items(
                cv,
                roles@,
                vis@,
                owner as int,
                len as int,
            ),
        decreases k,
    {
        let c = ch[owner][k - 1];
        proof {
            assert(cv[owner as int][k - 1] == c);
            assert(owner < c < ch@.len());
        }
        let ghost rest = draw_items(cv, roles@, vis@, owner as int, k - 1);
        let ghost here = draw_items(cv, roles@, vis@, owner as int, k as int).subrange(
            0,
            draw_items(cv, roles@, vis@, owner as int, k as int).len() - rest.len(),
        );
        let ghost before = out@;
        if vis[c] {
            match roles[c] {
                DrawRole::Shape => {
                    out.push(c);
                },
                DrawRole::Solid => {
                    out.push(c);
                },
                DrawRole::Precomp => {
                    collect_draws(ch, roles, vis, c, out);
                    proof {
                        assert(cv[c as int] == ch@[c as int]@);
                    }
                },
                DrawRole::Skip => {},
            }
        }
        proof {
            let item = if !vis@[c as int] {
                Seq::<usize>::empty()
            } else {
                match roles@[c as int] {
                    DrawRole::Shape => seq![c],
                    DrawRole::Solid => seq![c],
                    DrawRole::Precomp => draw_items(cv, roles@, vis@, c as int, cv[c as int].len() as int),
                    DrawRole::Skip => Seq::empty(),
                }
            };
            assert(draw_items(cv, roles@, vis@, owner as int, k as int) == item + rest);
            assert(out@ == before + item);
            assert(out@ + rest =~= before + (item + rest));
        }
        k = k - 1;
    }
}

/// The nodes to draw, back to front: the root's children from the last to the first,
/// each visible shape or solid node itself and each visible precomp replaced by what
/// its own children draw.
pub fn draw_order(children: &Vec<Vec<usize>>, roles: &Vec<DrawRole>, visible: &Vec<bool>) -> (order: Vec<usize>)
    requires
        roles@.len() == children@.len(),
        visible@.len() == children@.len(),
        children_well_formed(children_view(children@)),
    ensures
        children@.len() == 0 ==> order@.len() == 0,
        children@.len() > 0 ==> order@ == draw_items(
            children_view(children@),
            roles@,
            visible@,
            0,
            children@[0]@.len() as int,
        ),
{
    let mut order: Vec<usize> = Vec::new();
    if children.len() > 0 {
        collect_draws(children, roles, visible, 0, &mut order);
        proof {
            assert(order@ =~= draw_items(
                children_view(children@),
                roles@,
                visible@,
                0,
                children@[0]@.len() as int,
            ));
        }
    }
    order
}

/// The first `k` entries of `list` that draw themselves, last entry first.
pub open spec fn drawable_reversed(list: Seq<usize>, roles: Seq<DrawRole>, vis: Seq<bool>, k: int) -> Seq<usize>
    decreases k,
{
    if k <= 0 || k > list.len() {
        Seq::empty()
    } else {
        let c = list[k - 1] as int;
        let here = if vis[c] && (roles[c] == DrawRole::Shape || roles[c] == DrawRole::Solid) {
            seq![c as usize]
        } else {
            Seq::empty()
        };
        here + drawable_reversed(list, roles, vis, k - 1)
    }
}

/// Without precomps among the root's children, the draw order is the root's children
/// that are visible shapes or solids, in reverse (back-to-front) order.
pub proof fn lemma_flat_draw_order_is_reversed(
    ch: Seq<Seq<usize>>,
    roles: Seq<DrawRole>,
    vis: Seq<bool>,
    k: int,
)
    requires
        ch.len() > 0,
        roles.len() == ch.len(),
        vis.len() == ch.len(),
        children_well_formed(ch),
        0 <= k <= ch[0].len(),
        forall|j: int| 0 <= j < ch[0].len() ==> roles[#[trigger] ch[0][j] as int] != DrawRole::Precomp,
    ensures
        draw_items(ch, roles, vis, 0, k) == drawable_reversed(ch[0], roles, vis, k),
    decreases k,
{
    if k > 0 {
        lemma_flat_draw_order_is_reversed(ch, roles, vis, k - 1);
        let c = ch[0][k - 1] as int;
        assert(0 < c < ch.len());
        assert(roles[c] != DrawRole::Precomp);
    }
}

// ─── Precomp time chain ─────────────────────────────────────

/// The precomp ancestors of node `i`, nearest first, following transform parents until
/// the root or a node without parent (within `fuel` steps).
pub open spec fn precomp_chain(nodes: Seq<NodeLinks>, is_precomp: Seq<bool>, i: int, fuel: nat) -> Seq<usize>
    decreases fuel,
{
    if fuel == 0 || i < 0 || i >= nodes.len() {
        Seq::empty()
    } else {
        match nodes[i].parent_idx {
            None => Seq::empty(),
            Some(p) => if p == 0 {
                Seq::empty()
            } else {
                (if is_precomp[p as int] {
                    seq![p]
                } else {
                    Seq::empty()
                }) + precomp_chain(nodes, is_precomp, p as int, (fuel - 1) as nat)
            },
        }
    }
}

/// Whether following transform parents from node `idx` reaches a node without parent
/// (rather than going round a cycle).
pub fn chain_reaches_root(nodes: &Vec<NodeLinks>, idx: usize) -> (b: bool)
    requires
        idx < nodes@.len(),
        parents_in_range(nodes@),
    ensures
        b == chain_depth(nodes@, idx as int, nodes@.len()) is Some,
{
    let n = nodes.len();
    let mut cur: usize = idx;
    let mut fuel: usize = n;
    while fuel > 0
        invariant
            n == nodes@.len(),
            cur < n,
            fuel <= n,
            parents_in_range(nodes@),
            (chain_depth(nodes@, idx as int, n as nat) is Some) == (chain_depth(
                nodes@,
                cur as int,
                fuel as nat,
            ) is Some),
        decreases fuel,
    {
        match nodes[cur].parent_idx {
            None => {
                return true;
            },
            Some(p) => {
                assert(nodes@[cur as int].parent_idx matches Some(q) ==> q < n);
                cur = p;
                fuel = fuel - 1;
            },
        }
    }
    false
}

/// The precomp layers above a node, nearest first: each of them remaps the time that
/// the node sees.
pub fn precomp_ancestors(nodes: &Vec<NodeLinks>, is_precomp: &Vec<bool>, idx: usize) -> (r: Vec<usize>)
    requires
        idx < nodes@.len(),
        is_precomp@.len() == nodes@.len(),
        parents_in_range(nodes@),
        chain_depth(nodes@, idx as int, nodes@.len()) is Some,
    ensures
        r@ == precomp_chain(nodes@, is_precomp@, idx as int, nodes@.len()),
{
    let ghost n = nodes@.len();
    let mut r: Vec<usize> = Vec::new();
    let mut cur = idx;
    let ghost mut fuel: nat = n;
    loop
        invariant
            n == nodes@.len(),
            is_precomp@.len() == n,
            parents_in_range(nodes@),
            cur < n,
            chain_depth(nodes@, cur as int, fuel) is Some,
            r@ + precomp_chain(nodes@, is_precomp@, cur as int, fuel) == precomp_chain(
                nodes@,
                is_precomp@,
                idx as int,
                n,
            ),
        decreases fuel,
    {
        match nodes[cur].parent_idx {
            None => {
                proof {
                    assert(r@ =~= r@ + precomp_chain(nodes@, is_precomp@, cur as int, fuel));
                }
                return r;
            },
            Some(p) => {
                if p == 0 {
                    proof {
                        assert(r@ =~= r@ + precomp_chain(nodes@, is_precomp@, cur as int, fuel));
                    }
                    return r;
                }
                proof {
                    assert(p < n);
                }
                let ghost before = r@;
                if is_precomp[p] {
                    r.push(p);
                }
                proof {
                    let next = precomp_chain(nodes@, is_precomp@, p as int, (fuel - 1) as nat);
                    let here = if is_precomp@[p as int] {
                        seq![p]
                    } else {
                        Seq::<usize>::empty()
                    };
                    assert(precomp_chain(nodes@, is_precomp@, cur as int, fuel) == here + next);
                    assert(r@ == before + here);
                    assert(r@ + next =~= before + (here + next));
                    fuel = (fuel - 1) as nat;
                }
                cur = p;
            },
        }
    }
}


// ─── Building the node array ────────────────────────────────

/// What the node array needs of a Lottie layer.
#[derive(Clone, Debug)]
pub struct LayerLinks {
    pub layer_type: LayerType,
    pub index: Option<i32>,
    pub parent_index: Option<i32>,
    /// Precomp asset reference.
    pub ref_id: Option<String>,
}

/// What the node array needs of a Lottie asset.
#[derive(Clone, Debug)]
pub struct AssetLinks {
    pub id: String,
    pub is_image: bool,
    pub layers: Vec<LayerLinks>,
}

/// Where a node comes from.
#[derive(Clone, Copy, Debug, PartialEq, Eq, Structural)]
pub enum NodeSource {
    /// The artboard's root.
    Root,
    /// Layer `i` of the composition.
    Layer(usize),
    /// Layer `layer` of asset `asset`, referenced by composition layer `owner_layer`.
    AssetLayer { owner_layer: usize, asset: usize, layer: usize },
}

/// The root node.
pub open spec fn root_node() -> NodeLinks {
    NodeLinks {
        node_type: NodeType::Root,
        parent_idx: None,
        draw_parent_idx: None,
        lottie_parent: None,
        lottie_index: None,
        depth: 0,
    }
}

/// Shape layers become shape nodes, every other layer a plain layer node.
pub open spec fn layer_node_type(l: LayerLinks) -> NodeType {
    if l.layer_type == LayerType::Shape {
        NodeType::Shape
    } else {
        NodeType::Layer
    }
}

/// The node of a composition layer: owned by the root, depth one.
pub open spec fn layer_node(l: LayerLinks) -> NodeLinks {
    NodeLinks {
        node_type: layer_node_type(l),
        parent_idx: None,
        draw_parent_idx: Some(0),
        lottie_parent: l.parent_index,
        lottie_index: l.index,
        depth: 1,
    }
}

/// The node of an asset layer under the precomp node `owner`: owned and parented by it,
/// depth two.
pub open spec fn child_node(l: LayerLinks, owner: usize) -> NodeLinks {
    NodeLinks {
        node_type: layer_node_type(l),
        parent_idx: Some(owner),
        draw_parent_idx: Some(owner),
        lottie_parent: l.parent_index,
        lottie_index: l.index,
        depth: 2,
    }
}

/// The first asset from `from` on whose id is `id`.
pub open spec fn first_asset(assets: Seq<AssetLinks>, id: Seq<char>, from: int) -> Option<int>
    decreases assets.len() - from,
{
    if from < 0 || from >= assets.len() {
        None
    } else if assets[from].id@ == id {
        Some(from)
    } else {
        first_asset(assets, id, from + 1)
    }
}

/// The asset whose layers layer `i` brings in: the first asset with the id the layer
/// refers to, unless that asset is an image.
pub open spec fn precomp_asset(layers: Seq<LayerLinks>, assets: Seq<AssetLinks>, i: int) -> Option<int> {
    match layers[i].ref_id {
        None => None,
        Some(r) => match first_asset(assets, r@, 0) {
            Some(a) => if !assets[a].is_image {
                Some(a)
            } else {
                None
            },
            None => None,
        },
    }
}

/// The asset-layer sources that layers `0..i` bring in, layer by layer.
pub open spec fn precomp_sources(layers: Seq<LayerLinks>, assets: Seq<AssetLinks>, i: int) -> Seq<NodeSource>
    decreases i,
{
    if i <= 0 {
        Seq::empty()
    } else {
        precomp_sources(layers, assets, i - 1) + match precomp_asset(layers, assets, i - 1) {
            Some(a) => Seq::new(
                assets[a].layers@.len(),
                |k: int|
                    NodeSource::AssetLayer {
                        owner_layer: (i - 1) as usize,
                        asset: a as usize,
                        layer: k as usize,
                    },
            ),
            None => Seq::empty(),
        }
    }
}

/// The sources of all nodes: the root, each composition layer, then the layers of each
/// referenced precomp asset.
pub open spec fn node_sources(layers: Seq<LayerLinks>, assets: Seq<AssetLinks>) -> Seq<NodeSource> {
    seq![NodeSource::Root] + Seq::new(layers.len(), |i: int| NodeSource::Layer(i as usize))
        + precomp_sources(layers, assets, layers.len() as int)
}

/// The node built from a source.
pub open spec fn node_of_source(layers: Seq<LayerLinks>, assets: Seq<AssetLinks>, src: NodeSource) -> NodeLinks {
    match src {
        NodeSource::Root => root_node(),
        NodeSource::Layer(i) => layer_node(layers[i as int]),
        NodeSource::AssetLayer { owner_layer, asset, layer } => child_node(
            assets[asset as int].layers@[layer as int],
            (owner_layer + 1) as usize,
        ),
    }
}

fn make_layer_node(l: &LayerLinks) -> (n: NodeLinks)
    ensures
        n == layer_node(*l),
{
    NodeLinks {
        node_type: if l.layer_type == LayerType::Shape {
            NodeType::Shape
        } else {
            NodeType::Layer
        },
        parent_idx: None,
        draw_parent_idx: Some(0),
        lottie_parent: l.parent_index,
        lottie_index: l.index,
        depth: 1,
    }
}

fn find_precomp_asset(layers: &Vec<LayerLinks>, assets: &Vec<AssetLinks>, i: usize) -> (r: Option<usize>)
    requires
        i < layers@.len(),
    ensures
        r matches Some(a) ==> precomp_asset(layers@, assets@, i as int) == Some(a as int)
            && a < assets@.len(),
        r is None ==> precomp_asset(layers@, assets@, i as int) is None,
{
    match &layers[i].ref_id {
        None => None,
        Some(r) => {
            let mut a: usize = 0;
            while a < assets.len()
                invariant
                    0 <= a <= assets@.len(),
                    layers@[i as int].ref_id == Some(*r),
                    first_asset(assets@, r@, 0) == first_asset(assets@, r@, a as int),
                decreases assets@.len() - a,
            {
                if assets[a].id == *r {
                    if !assets[a].is_image {
                        return Some(a);
                    } else {
                        return None;
                    }
                }
                a = a + 1;
            }
            None
        },
    }
}

/// Builds the artboard's node array from the composition's layers: the root, a node per
/// layer owned by the root, and for each layer that references a non-image asset a node
/// per asset layer owned (and parented) by that layer's node. Returns the nodes and where
/// each comes from.
pub fn build_nodes(layers: &Vec<LayerLinks>, assets: &Vec<AssetLinks>) -> (r: (Vec<NodeLinks>, Vec<NodeSource>))
    requires
        layers@.len() < usize::MAX,
    ensures
        r.1@ == node_sources(layers@, assets@),
        r.0@.len() == r.1@.len(),
        forall|j: int| 0 <= j < r.0@.len() ==> #[trigger] r.0@[j] == node_of_source(layers@, assets@, r.1@[j]),
{
    let ghost ls = layers@;
    let ghost asts = assets@;
    let mut nodes: Vec<NodeLinks> = Vec::new();
    let mut sources: Vec<NodeSource> = Vec::new();
    nodes.push(
        NodeLinks {
            node_type: NodeType::Root,
            parent_idx: None,
            draw_parent_idx: None,
            lottie_parent: None,
            lottie_index: None,
            depth: 0,
        },
    );
    sources.push(NodeSource::Root);
    let n = layers.len();
    let mut i: usize = 0;
    while i < n
        invariant
            n == ls.len(),
            ls == layers@,
            asts == assets@,
            0 <= i <= n,
            sources@ == seq![NodeSource::Root] + Seq::new(i as nat, |k: int| NodeSource::Layer(k as usize)),
            nodes@.len() == sources@.len(),
            forall|j: int| 0 <= j < nodes@.len() ==> #[trigger] nodes@[j] == node_of_source(ls, asts, sources@[j]),
        decreases n - i,
    {
        let node = make_layer_node(&layers[i]);
        nodes.push(node);
        sources.push(NodeSource::Layer(i));
        proof {
            assert(sources@ =~= seq![NodeSource::Root] + Seq::new((i + 1) as nat, |k: int| NodeSource::Layer(k as usize)));
        }
        i = i + 1;
    }
    let mut li: usize = 0;
    while li < n
        invariant
            n == ls.len(),
            n < usize::MAX,
            ls == layers@,
            asts == assets@,
            0 <= li <= n,
            sources@ == seq![NodeSource::Root] + Seq::new(n as nat, |k: int| NodeSource::Layer(k as usize))
                + precomp_sources(ls, asts, li as int),
            nodes@.len() == sources@.len(),
            forall|j: int| 0 <= j < nodes@.len() ==> #[trigger] nodes@[j] == node_of_source(ls, asts, sources@[j]),
        decreases n - li,
    {
        let ghost base = sources@;
        match find_precomp_asset(layers, assets, li) {
            Some(a) => {
                let m = assets[a].layers.len();
                let mut k: usize = 0;
                while k < m
                    invariant
                        n == ls.len(),
                        n < usize::MAX,
                        li < n,
                        ls == layers@,
                        asts == assets@,
                        a < asts.len(),
                        m == asts[a as int].layers@.len(),
                        0 <= k <= m,
                        sources@ == base + Seq::new(
                            k as nat,
                            |q: int| NodeSource::AssetLayer { owner_layer: li, asset: a, layer: q as usize },
                        ),
                        nodes@.len() == sources@.len(),
                        forall|j: int| 0 <= j < nodes@.len() ==> #[trigger] nodes@[j] == node_of_source(ls, asts, sources@[j]),
                    decreases m - k,
                {
                    let l = &assets[a].layers[k];
                    let owner: usize = li + 1;
                    nodes.push(
                        NodeLinks {
                            node_type: if l.layer_type == LayerType::Shape {
                                NodeType::Shape
                            } else {
                                NodeType::Layer
                            },
                            parent_idx: Some(owner),
                            draw_parent_idx: Some(owner),
                            lottie_parent: l.parent_index,
                            lottie_index: l.index,
                            depth: 2,
                        },
                    );
                    sources.push(NodeSource::AssetLayer { owner_layer: li, asset: a, layer: k });
                    proof {
                        assert(sources@ =~= base + Seq::new(
                            (k + 1) as nat,
                            |q: int| NodeSource::AssetLayer { owner_layer: li, asset: a, layer: q as usize },
                        ));
                    }
                    k = k + 1;
                }
                proof {
                    assert(precomp_sources(ls, asts, li + 1) == precomp_sources(ls, asts, li as int)
                        + Seq::new(
                        asts[a as int].layers@.len(),
                        |q: int|
                            NodeSource::AssetLayer {
                                owner_layer: li,
                                asset: a,
                                layer: q as usize,
                            },
                    ));
                    assert(sources@ =~= seq![NodeSource::Root] + Seq::new(n as nat, |k: int| NodeSource::Layer(k as usize))
                        + precomp_sources(ls, asts, li + 1));
                }
            },
            None => {
                proof {
                    assert(precomp_sources(ls, asts, li + 1) =~= precomp_sources(ls, asts, li as int));
                }
            },
        }
        li = li + 1;
    }
    (nodes, sources)
}

/// The node array that `build_nodes` makes has its draw parents before the nodes they
/// own: the root owns the layers, and each layer owns its asset layers.
pub proof fn lemma_built_draw_parents_precede(layers: Seq<LayerLinks>, assets: Seq<AssetLinks>, j: int)
    requires
        0 <= j < node_sources(layers, assets).len(),
    ensures
        node_of_source(layers, assets, node_sources(layers, assets)[j]).draw_parent_idx matches Some(p)
            ==> p < j,
{
    let srcs = node_sources(layers, assets);
    let head = seq![NodeSource::Root] + Seq::new(layers.len(), |i: int| NodeSource::Layer(i as usize));
    assert(srcs == head + precomp_sources(layers, assets, layers.len() as int));
    if j >= head.len() {
        lemma_precomp_sources_owner(layers, assets, layers.len() as int, j - head.len());
    }
}

proof fn lemma_precomp_sources_owner(layers: Seq<LayerLinks>, assets: Seq<AssetLinks>, i: int, q: int)
    requires
        0 <= q < precomp_sources(layers, assets, i).len(),
        i <= layers.len(),
    ensures
        precomp_sources(layers, assets, i)[q] matches NodeSource::AssetLayer { owner_layer, .. }
            && owner_layer < i,
    decreases i,
{
    if i > 0 {
        let prev = precomp_sources(layers, assets, i - 1);
        if q < prev.len() {
            lemma_precomp_sources_owner(layers, assets, i - 1, q);
        }
    }
}


/// Each node's draw parent comes before it.
pub open spec fn draw_parents_precede(nodes: Seq<NodeLinks>) -> bool {
    forall|j: int|
        0 <= j < nodes.len() ==> (#[trigger] nodes[j].draw_parent_idx matches Some(p) ==> p < j)
}

/// The back-to-front draw order of a node array (see `draw_order`), from the children
/// that each node owns.
pub fn layer_draw_order(nodes: &Vec<NodeLinks>, roles: &Vec<DrawRole>, visible: &Vec<bool>) -> (order: Vec<usize>)
    requires
        roles@.len() == nodes@.len(),
        visible@.len() == nodes@.len(),
        draw_parents_precede(nodes@),
    ensures
        nodes@.len() == 0 ==> order@.len() == 0,
        nodes@.len() > 0 ==> order@ == draw_items(
            Seq::new(nodes@.len(), |p: int| owned_before(nodes@, p, nodes@.len() as int)),
            roles@,
            visible@,
            0,
            owned_before(nodes@, 0, nodes@.len() as int).len() as int,
        ),
{
    let children = draw_children(nodes);
    let len = nodes.len();
    let ghost n = nodes@.len();
    let ghost cv = children_view(children@);
    proof {
        assert forall|p: int, k: int| 0 <= p < cv.len() && 0 <= k < cv[p].len() implies p < #[trigger] cv[p][k]
            < cv.len() by {
            let ob = owned_before(nodes@, p, n as int);
            assert(cv[p] == children@[p]@);
            assert(children@[p]@ == ob);
            assert((p as usize) as int == p);
            lemma_owned_before_props(nodes@, p as usize, n as int);
            let c = ob[k];
            assert(1 <= c < n);
            assert(nodes@[c as int].draw_parent_idx == Some(p as usize));
        }
        assert(cv =~= Seq::new(n, |p: int| owned_before(nodes@, p, n as int)));
    }
    draw_order(&children, roles, visible)
}

} // verus!
