//! Grouping sprites that share an animation, so they can share tessellation data.
use vstd::prelude::*;

verus! {

/// Sprites that share an animation: the animation's name and the sprites' positions.
#[derive(Clone, Debug)]
pub struct NameGroup {
    pub name: String,
    pub members: Vec<usize>,
}

/// The groups of the first `i` names: each name's group, in order of first appearance,
/// with the positions that carry it in increasing order.
pub open spec fn groups_of(names: Seq<Seq<char>>, i: int) -> Seq<(Seq<char>, Seq<usize>)>
    decreases i,
{
    if i <= 0 {
        Seq::empty()
    } else {
        let g = groups_of(names, i - 1);
        match group_index(g, names[i - 1], 0) {
            Some(k) => g.update(k, (g[k].0, g[k].1.push((i - 1) as usize))),
            None => g.push((names[i - 1], seq![(i - 1) as usize])),
        }
    }
}

/// The position of the group named `name`.
pub open spec fn group_index(g: Seq<(Seq<char>, Seq<usize>)>, name: Seq<char>, from: int) -> Option<int>
    decreases g.len() - from,
{
    if from < 0 || from >= g.len() {
        None
    } else if g[from].0 == name {
        Some(from)
    } else {
        group_index(g, name, from + 1)
    }
}

proof fn lemma_group_index_bounds(g: Seq<(Seq<char>, Seq<usize>)>, name: Seq<char>, from: int)
    ensures
        group_index(g, name, from) matches Some(k) ==> from <= k < g.len() && g[k].0 == name,
        group_index(g, name, from) is None && from >= 0 ==> forall|k: int| from <= k < g.len() ==> (#[trigger] g[k]).0 != name,
    decreases g.len() - from,
{
    if from >= 0 && from < g.len() {
        lemma_group_index_bounds(g, name, from + 1);
    }
}

/// The view of the groups.
pub open spec fn groups_view(groups: Seq<NameGroup>) -> Seq<(Seq<char>, Seq<usize>)> {
    groups.map_values(|g: NameGroup| (g.name@, g.members@))
}

/// Groups sprite positions by animation name (see `groups_of`).
pub fn create_batches(names: &Vec<String>) -> (groups: Vec<NameGroup>)
    ensures
        groups_view(groups@) == groups_of(names@.map_values(|s: String| s@), names@.len() as int),
{
    let ghost nv = names@.map_values(|s: String| s@);
    let mut groups: Vec<NameGroup> = Vec::new();
    let mut i: usize = 0;
    while i < names.len()
        invariant
            0 <= i <= names@.len(),
            nv == names@.map_values(|s: String| s@),
            groups_view(groups@) == groups_of(nv, i as int),
        decreases names@.len() - i,
    {
        let ghost g = groups_of(nv, i as int);
        let mut k: usize = 0;
        let mut found: Option<usize> = None;
        while k < groups.len()
            invariant_except_break
                0 <= k <= groups@.len(),
                i < names@.len(),
                nv == names@.map_values(|s: String| s@),
                groups_view(groups@) == g,
                found is None,
                group_index(g, nv[i as int], 0) == group_index(g, nv[i as int], k as int),
            ensures
                groups_view(groups@) == g,
                found matches Some(f) ==> group_index(g, nv[i as int], 0) == Some(f as int),
                found is None ==> group_index(g, nv[i as int], 0) is None,
            decreases groups@.len() - k,
        {
            proof {
                assert(g[k as int] == (groups@[k as int].name@, groups@[k as int].members@));
            }
            if groups[k].name == names[i] {
                found = Some(k);
                break;
            }
            k = k + 1;
        }
        match found {
            Some(f) => {
                proof {
                    lemma_group_index_bounds(g, nv[i as int], 0);
                }
                let mut members = groups[f].members.clone();
                members.push(i);
                let name = groups[f].name.clone();
                groups.set(f, NameGroup { name, members });
                proof {
                    assert(groups_view(groups@) =~= groups_of(nv, i + 1));
                }
            },
            None => {
                let mut members: Vec<usize> = Vec::new();
                members.push(i);
                groups.push(NameGroup { name: names[i].clone(), members });
                proof {
                    assert(groups_view(groups@) =~= groups_of(nv, i + 1));
                }
            },
        }
        i = i + 1;
    }
    groups
}

/// Some group lists sprite `s`.
pub open spec fn in_some_group(g: Seq<(Seq<char>, Seq<usize>)>, s: usize) -> bool {
    exists|a: int| 0 <= a < g.len() && (#[trigger] g[a].1).contains(s)
}

/// Every sprite lands in exactly one group, the one of its own name; groups have
/// distinct names; each group lists its sprites in increasing order.
pub proof fn lemma_groups_partition(names: Seq<Seq<char>>, i: int)
    requires
        0 <= i <= names.len(),
        i <= usize::MAX,
    ensures
        ({
            let g = groups_of(names, i);
            &&& forall|a: int, b: int| 0 <= a < b < g.len() ==> (#[trigger] g[a]).0 != (#[trigger] g[b]).0
            &&& forall|a: int, m: int| 0 <= a < g.len() && 0 <= m < g[a].1.len() ==> {
                let s = #[trigger] g[a].1[m];
                &&& s < i
                &&& names[s as int] == g[a].0
            }
            &&& forall|a: int, m1: int, m2: int| 0 <= a < g.len() && 0 <= m1 < m2 < g[a].1.len() ==> #[trigger] g[a].1[m1]
                < #[trigger] g[a].1[m2]
            &&& forall|s: usize| s < i ==> #[trigger] in_some_group(g, s)
        }),
    decreases i,
{
    if i > 0 {
        lemma_groups_partition(names, i - 1);
        let g = groups_of(names, i - 1);
        let ng = groups_of(names, i);
        let nm = names[i - 1];
        let last = (i - 1) as usize;
        lemma_group_index_bounds(g, nm, 0);
        match group_index(g, nm, 0) {
            Some(k) => {
                assert(ng == g.update(k, (g[k].0, g[k].1.push(last))));
                assert forall|a: int, m: int| 0 <= a < ng.len() && 0 <= m < ng[a].1.len() implies {
                    let s = #[trigger] ng[a].1[m];
                    &&& s < i
                    &&& names[s as int] == ng[a].0
                } by {
                    if a == k && m == g[k].1.len() {
                    } else if a == k {
                        assert(ng[a].1[m] == g[a].1[m]);
                    }
                }
                assert forall|a: int, m1: int, m2: int| 0 <= a < ng.len() && 0 <= m1 < m2 < ng[a].1.len() implies #[trigger] ng[a].1[m1]
                    < #[trigger] ng[a].1[m2] by {
                    if a == k {
                        assert(ng[a].1[m1] == g[a].1[m1]);
                        assert(g[a].1[m1] < i - 1);
                        if m2 < g[k].1.len() {
                            assert(ng[a].1[m2] == g[a].1[m2]);
                        }
                    }
                }
                assert forall|s: usize| s < i implies #[trigger] in_some_group(ng, s) by {
                    if s == last {
                        assert(ng[k].1[g[k].1.len() as int] == s);
                    } else {
                        assert(in_some_group(g, s));
                        let a = choose|a: int| 0 <= a < g.len() && (#[trigger] g[a].1).contains(s);
                        let w = choose|w: int| 0 <= w < g[a].1.len() && g[a].1[w] == s;
                        assert(ng[a].1[w] == s);
                    }
                }
            },
            None => {
                assert(ng == g.push((nm, seq![last])));
                assert forall|a: int, b: int| 0 <= a < b < ng.len() implies (#[trigger] ng[a]).0 != (#[trigger] ng[b]).0 by {
                    if b == g.len() {
                        assert(g[a].0 != nm);
                    }
                }
                assert forall|a: int, m: int| 0 <= a < ng.len() && 0 <= m < ng[a].1.len() implies {
                    let s = #[trigger] ng[a].1[m];
                    &&& s < i
                    &&& names[s as int] == ng[a].0
                } by {
                    if a < g.len() {
                        assert(ng[a] == g[a]);
                    }
                }
                assert forall|a: int, m1: int, m2: int| 0 <= a < ng.len() && 0 <= m1 < m2 < ng[a].1.len() implies #[trigger] ng[a].1[m1]
                    < #[trigger] ng[a].1[m2] by {
                    if a < g.len() {
                        assert(ng[a] == g[a]);
                    }
                }
                assert forall|s: usize| s < i implies #[trigger] in_some_group(ng, s) by {
                    if s == last {
                        assert(ng[g.len() as int].1[0] == s);
                    } else {
                        assert(in_some_group(g, s));
                        let a = choose|a: int| 0 <= a < g.len() && (#[trigger] g[a].1).contains(s);
                        assert(ng[a] == g[a]);
                    }
                }
            },
        }
    }
}

} // verus!
