//! The cell index of the spatial grid used to cull sprites: which ids each grid cell
//! holds, and which ids a rectangle of cells holds.
use vstd::prelude::*;
use std::collections::HashMap;

verus! {

broadcast use vstd::std_specs::hash::group_hash_axioms;

/// A rectangle of grid cells, both ends included.
#[derive(Clone, Copy, Debug, PartialEq, Eq, Structural)]
pub struct CellRange {
    pub min_cx: i32,
    pub min_cy: i32,
    pub max_cx: i32,
    pub max_cy: i32,
}

/// A grid of cells, each listing the ids inserted over it in insertion order, keyed
/// by `cell_key`.
pub struct SpatialGrid {
    pub cells: HashMap<u64, Vec<u64>>,
}

/// Whether cell `(cx, cy)` lies in `r`.
pub open spec fn in_range(r: CellRange, cx: int, cy: int) -> bool {
    r.min_cx <= cx <= r.max_cx && r.min_cy <= cy <= r.max_cy
}

/// Whether `(cx, cy)` is a cell of the grid: both coordinates 32-bit.
pub open spec fn is_cell(cx: int, cy: int) -> bool {
    i32::MIN <= cx <= i32::MAX && i32::MIN <= cy <= i32::MAX
}

/// The key of cell `(cx, cy)`: its coordinates, each moved to 0..2^32, side by side.
pub open spec fn cell_key(cx: int, cy: int) -> int {
    (cx + 0x8000_0000) * 0x1_0000_0000 + (cy + 0x8000_0000)
}

/// The ids that cell `(cx, cy)` holds: none for a cell never inserted over.
pub open spec fn cell_ids(cells: Map<u64, Vec<u64>>, cx: int, cy: int) -> Seq<u64> {
    if is_cell(cx, cy) && cells.contains_key(cell_key(cx, cy) as u64) {
        cells[cell_key(cx, cy) as u64]@
    } else {
        Seq::empty()
    }
}

/// Different cells have different keys, each a 64-bit number.
proof fn lemma_cell_key(a: int, b: int, c: int, d: int)
    requires
        is_cell(a, b),
        is_cell(c, d),
    ensures
        0 <= cell_key(a, b) <= u64::MAX,
        cell_key(a, b) == cell_key(c, d) ==> a == c && b == d,
{
    assert(0 <= cell_key(a, b) <= u64::MAX) by (nonlinear_arith)
        requires
            is_cell(a, b),
    ;
    assert(cell_key(a, b) == cell_key(c, d) ==> a == c && b == d) by (nonlinear_arith)
        requires
            is_cell(a, b),
            is_cell(c, d),
    ;
}

fn key_of(cx: i32, cy: i32) -> (k: u64)
    ensures
        k as int == cell_key(cx as int, cy as int),
{
    proof {
        lemma_cell_key(cx as int, cy as int, cx as int, cy as int);
    }
    let x: u64 = (cx as i64 + 0x8000_0000) as u64;
    let y: u64 = (cy as i64 + 0x8000_0000) as u64;
    x * 0x1_0000_0000 + y
}

/// `acc` followed by the ids of `ids` that are not yet in it, in order.
pub open spec fn add_new(acc: Seq<u64>, ids: Seq<u64>) -> Seq<u64>
    decreases ids.len(),
{
    if ids.len() == 0 {
        acc
    } else {
        let a = add_new(acc, ids.drop_last());
        if a.contains(ids.last()) {
            a
        } else {
            a.push(ids.last())
        }
    }
}

/// `acc` followed by the new ids of cells `(cx, min_cy)` up to (but not) `(cx, min_cy + n)`.
pub open spec fn scan_column(cells: Map<u64, Vec<u64>>, acc: Seq<u64>, cx: int, min_cy: int, n: nat) -> Seq<u64>
    decreases n,
{
    if n == 0 {
        acc
    } else {
        add_new(scan_column(cells, acc, cx, min_cy, (n - 1) as nat), cell_ids(cells, cx, min_cy + n - 1))
    }
}

/// The new ids of the first `m` columns of `r`, each scanned from its lowest cell up.
pub open spec fn scan_columns(cells: Map<u64, Vec<u64>>, r: CellRange, m: nat) -> Seq<u64>
    decreases m,
{
    if m == 0 {
        Seq::empty()
    } else {
        scan_column(
            cells,
            scan_columns(cells, r, (m - 1) as nat),
            r.min_cx + m - 1,
            r.min_cy as int,
            (r.max_cy - r.min_cy + 1) as nat,
        )
    }
}

/// What a query over `r` returns: the ids of its cells, column by column from the
/// lowest `cx` and in each column from the lowest `cy`, each id once, where it first
/// occurs.
pub open spec fn spec_query(cells: Map<u64, Vec<u64>>, r: CellRange) -> Seq<u64> {
    if r.min_cx > r.max_cx || r.min_cy > r.max_cy {
        Seq::empty()
    } else {
        scan_columns(cells, r, (r.max_cx - r.min_cx + 1) as nat)
    }
}

impl SpatialGrid {
    /// A grid with no id in any cell.
    pub fn new() -> (g: SpatialGrid)
        ensures
            forall|cx: int, cy: int| #[trigger] cell_ids(g.cells@, cx, cy) == Seq::<u64>::empty(),
    {
        SpatialGrid { cells: HashMap::new() }
    }

    /// Empties every cell.
    pub fn clear(&mut self)
        ensures
            forall|cx: int, cy: int| #[trigger] cell_ids(final(self).cells@, cx, cy) == Seq::<
                u64,
            >::empty(),
    {
        self.cells.clear();
    }

    /// Appends `id` to cell `(cx, cy)`.
    fn push_id(&mut self, cx: i32, cy: i32, id: u64)
        ensures
            forall|x: int, y: int|
                #[trigger] cell_ids(final(self).cells@, x, y) == if x == cx && y == cy {
                    cell_ids(old(self).cells@, x, y).push(id)
                } else {
                    cell_ids(old(self).cells@, x, y)
                },
    {
        let ghost before = self.cells@;
        let k = key_of(cx, cy);
        let mut ids: Vec<u64> = match self.cells.get(&k) {
            Some(v) => v.clone(),
            None => Vec::new(),
        };
        assert(ids@ == cell_ids(before, cx as int, cy as int));
        ids.push(id);
        self.cells.insert(k, ids);
        proof {
            assert forall|x: int, y: int| #[trigger]
                cell_ids(self.cells@, x, y) == if x == cx && y == cy {
                    cell_ids(before, x, y).push(id)
                } else {
                    cell_ids(before, x, y)
                } by {
                if is_cell(x, y) {
                    lemma_cell_key(x, y, cx as int, cy as int);
                }
            }
        }
    }

    /// Appends `id` to every cell of `range`.
    pub fn insert(&mut self, id: u64, range: CellRange)
        ensures
            forall|x: int, y: int|
                #[trigger] cell_ids(final(self).cells@, x, y) == if in_range(range, x, y) {
                    cell_ids(old(self).cells@, x, y).push(id)
                } else {
                    cell_ids(old(self).cells@, x, y)
                },
    {
        let ghost orig = self.cells@;
        let max_cx: i64 = range.max_cx as i64;
        let max_cy: i64 = range.max_cy as i64;
        let mut cx: i64 = range.min_cx as i64;
        while cx <= max_cx
            invariant
                max_cx == range.max_cx,
                max_cy == range.max_cy,
                range.min_cx <= cx,
                cx <= range.max_cx + 1 || cx == range.min_cx,
                forall|x: int, y: int|
                    #[trigger] cell_ids(self.cells@, x, y) == if range.min_cx <= x < cx
                        && range.min_cy <= y <= range.max_cy {
                        cell_ids(orig, x, y).push(id)
                    } else {
                        cell_ids(orig, x, y)
                    },
            decreases max_cx + 1 - cx,
        {
            let mut cy: i64 = range.min_cy as i64;
            while cy <= max_cy
                invariant
                    max_cx == range.max_cx,
                    max_cy == range.max_cy,
                    range.min_cx <= cx <= range.max_cx,
                    range.min_cy <= cy,
                    cy <= range.max_cy + 1 || cy == range.min_cy,
                    forall|x: int, y: int|
                        #[trigger] cell_ids(self.cells@, x, y) == if (range.min_cx <= x < cx
                            && range.min_cy <= y <= range.max_cy) || (x == cx && range.min_cy <= y
                            < cy) {
                            cell_ids(orig, x, y).push(id)
                        } else {
                            cell_ids(orig, x, y)
                        },
                decreases max_cy + 1 - cy,
            {
                self.push_id(cx as i32, cy as i32, id);
                cy = cy + 1;
            }
            cx = cx + 1;
        }
    }

    /// The ids of the cells of `range` (see `spec_query`).
    pub fn query(&self, range: CellRange) -> (r: Vec<u64>)
        ensures
            r@ == spec_query(self.cells@, range),
    {
        let mut result: Vec<u64> = Vec::new();
        if range.min_cx > range.max_cx || range.min_cy > range.max_cy {
            return result;
        }
        let w: i64 = range.max_cx as i64 - range.min_cx as i64 + 1;
        let h: i64 = range.max_cy as i64 - range.min_cy as i64 + 1;
        let mut m: i64 = 0;
        while m < w
            invariant
                w == range.max_cx - range.min_cx + 1,
                h == range.max_cy - range.min_cy + 1,
                h >= 1,
                0 <= m <= w,
                result@ == scan_columns(self.cells@, range, m as nat),
            decreases w - m,
        {
            let cx: i64 = range.min_cx as i64 + m;
            let ghost before = result@;
            let mut n: i64 = 0;
            while n < h
                invariant
                    w == range.max_cx - range.min_cx + 1,
                    h == range.max_cy - range.min_cy + 1,
                    0 <= m < w,
                    cx == range.min_cx + m,
                    0 <= n <= h,
                    before == scan_columns(self.cells@, range, m as nat),
                    result@ == scan_column(
                        self.cells@,
                        before,
                        cx as int,
                        range.min_cy as int,
                        n as nat,
                    ),
                decreases h - n,
            {
                let cy: i64 = range.min_cy as i64 + n;
                let k = key_of(cx as i32, cy as i32);
                match self.cells.get(&k) {
                    Some(ids) => {
                        append_new(&mut result, ids);
                    },
                    None => {
                        assert(cell_ids(self.cells@, cx as int, cy as int) =~= Seq::<u64>::empty());
                    },
                }
                n = n + 1;
            }
            m = m + 1;
        }
        result
    }
}

/// Appends the ids of `ids` that `acc` does not hold yet, in order.
fn append_new(acc: &mut Vec<u64>, ids: &Vec<u64>)
    ensures
        final(acc)@ == add_new(old(acc)@, ids@),
{
    let mut i: usize = 0;
    while i < ids.len()
        invariant
            0 <= i <= ids@.len(),
            acc@ == add_new(old(acc)@, ids@.take(i as int)),
        decreases ids@.len() - i,
    {
        let x = ids[i];
        let mut found = false;
        let mut j: usize = 0;
        while j < acc.len()
            invariant
                0 <= j <= acc@.len(),
                found == exists|t: int| 0 <= t < j && acc@[t] == x,
            decreases acc@.len() - j,
        {
            if acc[j] == x {
                found = true;
            }
            j = j + 1;
        }
        proof {
            assert(ids@.take(i + 1).drop_last() =~= ids@.take(i as int));
            assert(ids@.take(i + 1).last() == x);
        }
        if !found {
            acc.push(x);
        }
        i = i + 1;
    }
    proof {
        assert(ids@.take(ids@.len() as int) =~= ids@);
    }
}

/// `add_new` keeps a list free of repeats, and holds what either of its inputs holds.
proof fn lemma_add_new(acc: Seq<u64>, ids: Seq<u64>)
    requires
        acc.no_duplicates(),
    ensures
        add_new(acc, ids).no_duplicates(),
        forall|x: u64| #[trigger] add_new(acc, ids).contains(x) <==> acc.contains(x) || ids.contains(x),
    decreases ids.len(),
{
    if ids.len() > 0 {
        let prev = ids.drop_last();
        lemma_add_new(acc, prev);
        let a = add_new(acc, prev);
        assert forall|x: u64| ids.contains(x) <==> prev.contains(x) || x == ids.last() by {
            if ids.contains(x) {
                let k = choose|k: int| 0 <= k < ids.len() && ids[k] == x;
                if k < ids.len() - 1 {
                    assert(prev[k] == x);
                }
            }
            if prev.contains(x) {
                let k = choose|k: int| 0 <= k < prev.len() && prev[k] == x;
                assert(ids[k] == x);
            }
            if x == ids.last() {
                assert(ids[ids.len() - 1] == x);
            }
        }
        if !a.contains(ids.last()) {
            let b = a.push(ids.last());
            assert forall|i: int, j: int| 0 <= i < b.len() && 0 <= j < b.len() && i != j implies b[i]
                != b[j] by {
                if i == a.len() {
                    assert(a[j] == b[j]);
                } else if j == a.len() {
                    assert(a[i] == b[i]);
                }
            }
            assert forall|x: u64| #[trigger] b.contains(x) <==> a.contains(x) || x == ids.last() by {
                if b.contains(x) {
                    let k = choose|k: int| 0 <= k < b.len() && b[k] == x;
                    if k < a.len() {
                        assert(a[k] == x);
                    }
                }
                if a.contains(x) {
                    let k = choose|k: int| 0 <= k < a.len() && a[k] == x;
                    assert(b[k] == x);
                }
                if x == ids.last() {
                    assert(b[a.len() as int] == x);
                }
            }
        }
    }
}

/// What the first `n` cells of a column add to `acc`.
proof fn lemma_scan_column(cells: Map<u64, Vec<u64>>, acc: Seq<u64>, cx: int, min_cy: int, n: nat)
    requires
        acc.no_duplicates(),
    ensures
        scan_column(cells, acc, cx, min_cy, n).no_duplicates(),
        forall|x: u64| #[trigger]
            scan_column(cells, acc, cx, min_cy, n).contains(x) <==> acc.contains(x) || exists|y: int|
                min_cy <= y < min_cy + n && #[trigger] cell_ids(cells, cx, y).contains(x),
    decreases n,
{
    if n > 0 {
        let n1 = (n - 1) as nat;
        lemma_scan_column(cells, acc, cx, min_cy, n1);
        let prev = scan_column(cells, acc, cx, min_cy, n1);
        lemma_add_new(prev, cell_ids(cells, cx, min_cy + n1));
        assert forall|x: u64| #[trigger]
            scan_column(cells, acc, cx, min_cy, n).contains(x) <==> acc.contains(x) || exists|y: int|
                min_cy <= y < min_cy + n && #[trigger] cell_ids(cells, cx, y).contains(x) by {
            if exists|y: int| min_cy <= y < min_cy + n && #[trigger] cell_ids(cells, cx, y).contains(x) {
                let y = choose|y: int| min_cy <= y < min_cy + n && #[trigger] cell_ids(cells, cx, y).contains(x);
                if y < min_cy + n1 {
                    assert(prev.contains(x));
                }
            }
        }
    }
}

/// What the first `m` columns of `r` hold.
proof fn lemma_scan_columns(cells: Map<u64, Vec<u64>>, r: CellRange, m: nat)
    requires
        r.min_cy <= r.max_cy,
    ensures
        scan_columns(cells, r, m).no_duplicates(),
        forall|x: u64| #[trigger]
            scan_columns(cells, r, m).contains(x) <==> exists|cx: int, cy: int|
                r.min_cx <= cx < r.min_cx + m && r.min_cy <= cy <= r.max_cy
                    && #[trigger] cell_ids(cells, cx, cy).contains(x),
    decreases m,
{
    if m == 0 {
        assert(scan_columns(cells, r, m) =~= Seq::<u64>::empty());
    } else {
        let m1 = (m - 1) as nat;
        lemma_scan_columns(cells, r, m1);
        let prev = scan_columns(cells, r, m1);
        let h = (r.max_cy - r.min_cy + 1) as nat;
        lemma_scan_column(cells, prev, r.min_cx + m1, r.min_cy as int, h);
        assert forall|x: u64| #[trigger]
            scan_columns(cells, r, m).contains(x) <==> exists|cx: int, cy: int|
                r.min_cx <= cx < r.min_cx + m && r.min_cy <= cy <= r.max_cy
                    && #[trigger] cell_ids(cells, cx, cy).contains(x) by {
            if exists|cx: int, cy: int|
                r.min_cx <= cx < r.min_cx + m && r.min_cy <= cy <= r.max_cy
                    && #[trigger] cell_ids(cells, cx, cy).contains(x) {
                let (cx, cy) = choose|cx: int, cy: int|
                    r.min_cx <= cx < r.min_cx + m && r.min_cy <= cy <= r.max_cy
                        && #[trigger] cell_ids(cells, cx, cy).contains(x);
                if cx < r.min_cx + m1 {
                    assert(prev.contains(x));
                } else {
                    assert(r.min_cy <= cy < r.min_cy + h && cell_ids(cells, r.min_cx + m1, cy).contains(x));
                }
            }
            if scan_columns(cells, r, m).contains(x) && !prev.contains(x) {
                let cy = choose|y: int|
                    r.min_cy <= y < r.min_cy + h && #[trigger] cell_ids(cells, r.min_cx + m1, y).contains(x);
                assert(cell_ids(cells, r.min_cx + m1, cy).contains(x));
            }
        }
    }
}

/// A query over `r` lists each id once, and lists exactly the ids that some cell of
/// `r` holds.
pub proof fn lemma_query_ids(cells: Map<u64, Vec<u64>>, r: CellRange)
    ensures
        spec_query(cells, r).no_duplicates(),
        forall|id: u64| #[trigger] spec_query(cells, r).contains(id) <==> exists|cx: int, cy: int|
            in_range(r, cx, cy) && #[trigger] cell_ids(cells, cx, cy).contains(id),
{
    if r.min_cx > r.max_cx || r.min_cy > r.max_cy {
        assert(spec_query(cells, r) =~= Seq::<u64>::empty());
    } else {
        lemma_scan_columns(cells, r, (r.max_cx - r.min_cx + 1) as nat);
    }
}

} // verus!
