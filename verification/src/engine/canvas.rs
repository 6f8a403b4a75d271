//! Sprite bookkeeping of the canvas: finding sprites by id and the order in which
//! visible sprites are drawn.
use vstd::prelude::*;

verus! {

/// The first position from `from` on that holds `id`.
pub open spec fn first_position(ids: Seq<u64>, id: u64, from: int) -> Option<int>
    decreases ids.len() - from,
{
    if from < 0 || from >= ids.len() {
        None
    } else if ids[from] == id {
        Some(from)
    } else {
        first_position(ids, id, from + 1)
    }
}

/// Position of the first sprite with id `id`.
pub fn position_of_id(ids: &Vec<u64>, id: u64) -> (r: Option<usize>)
    ensures
        r matches Some(i) ==> first_position(ids@, id, 0) == Some(i as int),
        r is None ==> first_position(ids@, id, 0) is None,
{
    let mut i: usize = 0;
    while i < ids.len()
        invariant
            0 <= i <= ids@.len(),
            first_position(ids@, id, 0) == first_position(ids@, id, i as int),
        decreases ids@.len() - i,
    {
        if ids[i] == id {
            return Some(i);
        }
        i = i + 1;
    }
    None
}

/// The found position holds the id, and no earlier position does.
pub proof fn lemma_first_position(ids: Seq<u64>, id: u64, from: int)
    requires
        0 <= from,
    ensures
        first_position(ids, id, from) matches Some(i) ==> from <= i < ids.len() && ids[i] == id
            && forall|j: int| from <= j < i ==> #[trigger] ids[j] != id,
        first_position(ids, id, from) is None ==> forall|j: int| from <= j < ids.len() ==> #[trigger] ids[j] != id,
    decreases ids.len() - from,
{
    if from < ids.len() {
        lemma_first_position(ids, id, from + 1);
    }
}

/// Sprite `a` is drawn before sprite `b`: lower z order, or the same z order and an
/// earlier position.
pub open spec fn drawn_before(z: Seq<i32>, a: int, b: int) -> bool {
    z[a] < z[b] || (z[a] == z[b] && a < b)
}

/// The visible sprites in draw order: by z order, ties by position in the sprite list.
pub fn visible_in_z_order(z_order: &Vec<i32>, visible: &Vec<bool>) -> (order: Vec<usize>)
    requires
        visible@.len() == z_order@.len(),
    ensures
        forall|k: int| 0 <= k < order@.len() ==> #[trigger] order@[k] < z_order@.len() && visible@[order@[k] as int],
        forall|i: usize| i < z_order@.len() && visible@[i as int] ==> #[trigger] order@.contains(i),
        forall|k: int, l: int|
            0 <= k < l < order@.len() ==> drawn_before(
                z_order@,
                #[trigger] order@[k] as int,
                #[trigger] order@[l] as int,
            ),
{
    let n = z_order.len();
    let mut order: Vec<usize> = Vec::new();
    let mut i: usize = 0;
    while i < n
        invariant
            n == z_order@.len(),
            visible@.len() == n,
            0 <= i <= n,
            forall|k: int| 0 <= k < order@.len() ==> #[trigger] order@[k] < i && visible@[order@[k] as int],
            forall|j: usize| j < i && visible@[j as int] ==> #[trigger] order@.contains(j),
            forall|k: int, l: int|
                0 <= k < l < order@.len() ==> drawn_before(
                    z_order@,
                    #[trigger] order@[k] as int,
                    #[trigger] order@[l] as int,
                ),
        decreases n - i,
    {
        if visible[i] {
            let zi = z_order[i];
            let mut pos: usize = 0;
            while pos < order.len() && z_order[order[pos]] <= zi
                invariant
                    n == z_order@.len(),
                    i < n,
                    0 <= pos <= order@.len(),
                    zi == z_order@[i as int],
                    forall|k: int| 0 <= k < order@.len() ==> #[trigger] order@[k] < i,
                    forall|k: int| 0 <= k < pos ==> z_order@[#[trigger] order@[k] as int] <= zi,
                decreases order@.len() - pos,
            {
                pos = pos + 1;
            }
            let ghost before = order@;
            order.insert(pos, i);
            proof {
                assert(order@ == before.insert(pos as int, i));
                assert forall|k: int, l: int|
                    0 <= k < l < order@.len() implies drawn_before(
                        z_order@,
                        #[trigger] order@[k] as int,
                        #[trigger] order@[l] as int,
                    ) by {
                    if l < pos {
                        assert(order@[k] == before[k] && order@[l] == before[l]);
                    } else if l == pos {
                        assert(order@[k] == before[k]);
                    } else if k < pos {
                        assert(order@[k] == before[k] && order@[l] == before[l - 1]);
                    } else if k == pos {
                        assert(order@[l] == before[l - 1]);
                        assert(drawn_before(z_order@, before[pos as int] as int, before[l - 1] as int) || l - 1 == pos);
                    } else {
                        assert(order@[k] == before[k - 1] && order@[l] == before[l - 1]);
                    }
                }
                assert forall|j: usize| j < i + 1 && visible@[j as int] implies #[trigger] order@.contains(j) by {
                    if j == i {
                        assert(order@[pos as int] == i);
                    } else {
                        assert(before.contains(j));
                        let w = choose|w: int| 0 <= w < before.len() && before[w] == j;
                        if w < pos {
                            assert(order@[w] == before[w]);
                        } else {
                            assert(order@[w + 1] == before[w]);
                        }
                    }
                }
                assert forall|k: int| 0 <= k < order@.len() implies #[trigger] order@[k] < i + 1 && visible@[order@[k] as int] by {
                    if k < pos {
                        assert(order@[k] == before[k]);
                    } else if k > pos {
                        assert(order@[k] == before[k - 1]);
                    }
                }
            }
        }
        i = i + 1;
    }
    order
}

/// What two sprites must share for one to drive the playback of the other: the
/// animation's name and node count, and the bit patterns of the composition size,
/// frame rate and in and out points.
#[derive(Clone, Debug)]
pub struct SyncSignature {
    pub name: String,
    pub node_count: usize,
    pub width_bits: u32,
    pub height_bits: u32,
    pub frame_rate_bits: u32,
    pub in_point_bits: u32,
    pub out_point_bits: u32,
}

/// Two sprites share their signature.
pub open spec fn same_signature(a: SyncSignature, b: SyncSignature) -> bool {
    &&& a.name@ == b.name@
    &&& a.node_count == b.node_count
    &&& a.width_bits == b.width_bits
    &&& a.height_bits == b.height_bits
    &&& a.frame_rate_bits == b.frame_rate_bits
    &&& a.in_point_bits == b.in_point_bits
    &&& a.out_point_bits == b.out_point_bits
}

/// Whether one sprite can drive the others: at least two sprites, each with the
/// signature of the first.
pub fn supports_synced_update(sigs: &Vec<SyncSignature>) -> (r: bool)
    ensures
        r == (sigs@.len() >= 2 && forall|i: int|
            1 <= i < sigs@.len() ==> same_signature(sigs@[0], #[trigger] sigs@[i])),
{
    if sigs.len() < 2 {
        return false;
    }
    let first = &sigs[0];
    let mut i: usize = 1;
    while i < sigs.len()
        invariant
            1 <= i <= sigs@.len(),
            *first == sigs@[0],
            forall|j: int| 1 <= j < i ==> same_signature(sigs@[0], #[trigger] sigs@[j]),
        decreases sigs@.len() - i,
    {
        let s = &sigs[i];
        let same = s.name == first.name && s.node_count == first.node_count && s.width_bits
            == first.width_bits && s.height_bits == first.height_bits && s.frame_rate_bits
            == first.frame_rate_bits && s.in_point_bits == first.in_point_bits
            && s.out_point_bits == first.out_point_bits;
        if !same {
            assert(!same_signature(sigs@[0], sigs@[i as int]));
            return false;
        }
        i = i + 1;
    }
    true
}

/// The sprite that drives a synced update: the first visible one, or the first one
/// when none is visible.
pub fn master_index(visible: &Vec<bool>) -> (m: usize)
    ensures
        (exists|i: int| 0 <= i < visible@.len() && #[trigger] visible@[i]) ==> m < visible@.len()
            && visible@[m as int] && forall|j: int| 0 <= j < m ==> !#[trigger] visible@[j],
        !(exists|i: int| 0 <= i < visible@.len() && #[trigger] visible@[i]) ==> m == 0,
{
    let mut i: usize = 0;
    while i < visible.len()
        invariant
            0 <= i <= visible@.len(),
            forall|j: int| 0 <= j < i ==> !#[trigger] visible@[j],
        decreases visible@.len() - i,
    {
        if visible[i] {
            return i;
        }
        i = i + 1;
    }
    0
}

} // verus!
