//! Connected regions of a text-detection probability map: the cells above
//! the detection threshold, grouped by 4-neighbour connectivity.
use vstd::prelude::*;
use std::collections::VecDeque;
use crate::text::{debug_list, debug_list_chars, extend_chars, extend_str, string_from_chars};

verus! {

/// Column of cell `i` in a map of width `w`.
pub open spec fn col(i: int, w: int) -> int {
    i % w
}

/// Row of cell `i` in a map of width `w`.
pub open spec fn row(i: int, w: int) -> int {
    i / w
}

/// The neighbour of cell `i` in direction `d` (0 left, 1 up, 2 right, 3 down),
/// when it lies inside the `w` by `h` map.
pub open spec fn neighbor(i: int, d: int, w: int, h: int) -> Option<int> {
    if d == 0 {
        if col(i, w) > 0 {
            Some(i - 1)
        } else {
            None
        }
    } else if d == 1 {
        if row(i, w) > 0 {
            Some(i - w)
        } else {
            None
        }
    } else if d == 2 {
        if col(i, w) + 1 < w {
            Some(i + 1)
        } else {
            None
        }
    } else {
        if row(i, w) + 1 < h {
            Some(i + w)
        } else {
            None
        }
    }
}

/// Whether the side of cell `i` facing direction `d` borders the outside of the
/// map or an inactive cell.
pub open spec fn is_boundary(mask: Seq<bool>, i: int, d: int, w: int, h: int) -> bool {
    match neighbor(i, d, w, h) {
        Some(n) => !mask[n],
        None => true,
    }
}

/// How many of the first `k` sides of cell `i` are boundary sides.
pub open spec fn boundary_upto(mask: Seq<bool>, i: int, k: int, w: int, h: int) -> nat
    decreases k,
{
    if k <= 0 {
        0
    } else {
        boundary_upto(mask, i, k - 1, w, h) + if is_boundary(mask, i, k - 1, w, h) {
            1nat
        } else {
            0nat
        }
    }
}

/// The total boundary sides of a list of cells: the region's perimeter.
pub open spec fn boundary_total(mask: Seq<bool>, cells: Seq<usize>, w: int, h: int) -> nat
    decreases cells.len(),
{
    if cells.len() == 0 {
        0
    } else {
        boundary_total(mask, cells.drop_last(), w, h) + boundary_upto(
            mask,
            cells.last() as int,
            4,
            w,
            h,
        )
    }
}

/// Smallest column among `cells` (which must be non-empty).
pub open spec fn min_col(cells: Seq<usize>, w: int) -> int
    decreases cells.len(),
{
    if cells.len() <= 1 {
        col(cells[0] as int, w)
    } else {
        let m = min_col(cells.drop_last(), w);
        let c = col(cells.last() as int, w);
        if c < m { c } else { m }
    }
}

/// Largest column among `cells`.
pub open spec fn max_col(cells: Seq<usize>, w: int) -> int
    decreases cells.len(),
{
    if cells.len() <= 1 {
        col(cells[0] as int, w)
    } else {
        let m = max_col(cells.drop_last(), w);
        let c = col(cells.last() as int, w);
        if c > m { c } else { m }
    }
}

/// Smallest row among `cells`.
pub open spec fn min_row(cells: Seq<usize>, w: int) -> int
    decreases cells.len(),
{
    if cells.len() <= 1 {
        row(cells[0] as int, w)
    } else {
        let m = min_row(cells.drop_last(), w);
        let c = row(cells.last() as int, w);
        if c < m { c } else { m }
    }
}

/// Largest row among `cells`.
pub open spec fn max_row(cells: Seq<usize>, w: int) -> int
    decreases cells.len(),
{
    if cells.len() <= 1 {
        row(cells[0] as int, w)
    } else {
        let m = max_row(cells.drop_last(), w);
        let c = row(cells.last() as int, w);
        if c > m { c } else { m }
    }
}

/// One connected region of active cells.
pub struct Component {
    /// Smallest and largest column and row of its cells.
    pub min_x: usize,
    pub max_x: usize,
    pub min_y: usize,
    pub max_y: usize,
    /// Number of cells.
    pub count: usize,
    /// Number of cell sides that face the outside of the map or an inactive cell.
    pub perimeter: usize,
    /// Indices (`row * width + column`) of its cells, in breadth-first order from its first cell.
    pub cells: Vec<usize>,
}

/// Whether cell `cells[j]` is a neighbour of an earlier cell of the list.
pub open spec fn linked_to_earlier(cells: Seq<usize>, j: int, w: int, h: int) -> bool {
    exists|p: int, d: int|
        #![trigger cells[p], neighbor(cells[p] as int, d, w, h)]
        0 <= p < j && 0 <= d < 4 && neighbor(cells[p] as int, d, w, h) == Some(cells[j] as int)
}

/// Every cell after the first is a neighbour of an earlier one, so all the
/// cells are connected to the first.
pub open spec fn connected_from_first(cells: Seq<usize>, w: int, h: int) -> bool {
    forall|j: int| 0 < j < cells.len() ==> #[trigger] linked_to_earlier(cells, j, w, h)
}

/// What a region reports about its cells: count, perimeter, bounding box,
/// and that its cells are connected.
pub open spec fn component_summary(c: Component, mask: Seq<bool>, w: int, h: int) -> bool {
    let cells = c.cells@;
    &&& cells.len() > 0
    &&& c.count == cells.len()
    &&& c.perimeter == boundary_total(mask, cells, w, h)
    &&& c.min_x == min_col(cells, w)
    &&& c.max_x == max_col(cells, w)
    &&& c.min_y == min_row(cells, w)
    &&& c.max_y == max_row(cells, w)
    &&& cells.no_duplicates()
    &&& connected_from_first(cells, w, h)
}

/// The `j`-th cell of region `k`.
pub open spec fn cell_at(comps: Seq<Component>, k: int, j: int) -> usize {
    comps[k].cells@[j]
}

/// Whether `(k, j)` names a cell of the regions.
pub open spec fn valid_cell(comps: Seq<Component>, k: int, j: int) -> bool {
    0 <= k < comps.len() && 0 <= j < comps[k].cells@.len()
}

/// The regions partition the active cells: each active cell lies in exactly one
/// region, and regions hold only active cells of the map.
pub open spec fn partitions_active(comps: Seq<Component>, mask: Seq<bool>, n: int) -> bool {
    &&& forall|k: int, j: int|
        #![trigger cell_at(comps, k, j)]
        valid_cell(comps, k, j) ==> 0 <= cell_at(comps, k, j) < n && mask[cell_at(comps, k, j) as int]
    &&& forall|i: int|
        0 <= i < n && #[trigger] mask[i] ==> exists|k: int, j: int|
            #![trigger cell_at(comps, k, j)]
            valid_cell(comps, k, j) && cell_at(comps, k, j) == i
    &&& forall|k1: int, j1: int, k2: int, j2: int|
        #![trigger cell_at(comps, k1, j1), cell_at(comps, k2, j2)]
        valid_cell(comps, k1, j1) && valid_cell(comps, k2, j2) && cell_at(comps, k1, j1)
            == cell_at(comps, k2, j2) ==> k1 == k2
}

/// Each region is closed under adjacency: an active neighbour of one of its
/// cells belongs to the same region.
pub open spec fn closed_regions(comps: Seq<Component>, mask: Seq<bool>, w: int, h: int) -> bool {
    forall|k: int, j: int, d: int|
        #![trigger cell_at(comps, k, j), neighbor(cell_at(comps, k, j) as int, d, w, h)]
        valid_cell(comps, k, j) && 0 <= d < 4 && (neighbor(cell_at(comps, k, j) as int, d, w, h) matches Some(
            nb,
        ) && mask[nb]) ==> comps[k].cells@.contains(
            neighbor(cell_at(comps, k, j) as int, d, w, h)->0 as usize,
        )
}

/// Regions come in the order of their first cells, and a region's first cell
/// is its lowest-indexed one.
pub open spec fn seeds_in_order(comps: Seq<Component>) -> bool {
    &&& forall|k: int, j: int|
        #![trigger cell_at(comps, k, j)]
        valid_cell(comps, k, j) ==> cell_at(comps, k, 0) <= cell_at(comps, k, j)
    &&& forall|k1: int, k2: int|
        #![trigger cell_at(comps, k1, 0), cell_at(comps, k2, 0)]
        0 <= k1 < k2 < comps.len() ==> cell_at(comps, k1, 0) < cell_at(comps, k2, 0)
}

/// Number of `true` entries of `s`.
pub open spec fn count_true(s: Seq<bool>) -> nat
    decreases s.len(),
{
    if s.len() == 0 {
        0
    } else {
        count_true(s.drop_last()) + if s.last() {
            1nat
        } else {
            0nat
        }
    }
}

proof fn lemma_count_true_bound(s: Seq<bool>)
    ensures
        count_true(s) <= s.len(),
    decreases s.len(),
{
    if s.len() > 0 {
        lemma_count_true_bound(s.drop_last());
    }
}

proof fn lemma_count_true_set(s: Seq<bool>, i: int)
    requires
        0 <= i < s.len(),
        !s[i],
    ensures
        count_true(s.update(i, true)) == count_true(s) + 1,
    decreases s.len(),
{
    let t = s.update(i, true);
    if i == s.len() - 1 {
        assert(t.drop_last() =~= s.drop_last());
    } else {
        assert(t.drop_last() =~= s.drop_last().update(i, true));
        lemma_count_true_set(s.drop_last(), i);
    }
}

proof fn lemma_boundary_upto_bound(mask: Seq<bool>, i: int, k: int, w: int, h: int)
    ensures
        boundary_upto(mask, i, k, w, h) <= if k < 0 { 0 } else { k },
    decreases k,
{
    if k > 0 {
        lemma_boundary_upto_bound(mask, i, k - 1, w, h);
    }
}

proof fn lemma_boundary_total_bound(mask: Seq<bool>, cells: Seq<usize>, w: int, h: int)
    ensures
        boundary_total(mask, cells, w, h) <= 4 * cells.len(),
    decreases cells.len(),
{
    if cells.len() > 0 {
        lemma_boundary_total_bound(mask, cells.drop_last(), w, h);
        lemma_boundary_upto_bound(mask, cells.last() as int, 4, w, h);
    }
}

proof fn lemma_cell_coords(i: int, w: int, h: int)
    requires
        w > 0,
        h > 0,
        0 <= i < w * h,
    ensures
        i == row(i, w) * w + col(i, w),
        0 <= col(i, w) < w,
        0 <= row(i, w) < h,
{
    vstd::arithmetic::div_mod::lemma_fundamental_div_mod(i, w);
    vstd::arithmetic::div_mod::lemma_mod_pos_bound(i, w);
    vstd::arithmetic::div_mod::lemma_div_pos_is_pos(i, w);
    assert(i == w * (i / w) + i % w);
    assert(row(i, w) * w == w * row(i, w)) by (nonlinear_arith);
    if row(i, w) >= h {
        assert(w * row(i, w) >= w * h) by (nonlinear_arith)
            requires
                row(i, w) >= h,
                w > 0,
        ;
    }
}

proof fn lemma_coords_unique(i: int, r: int, c: int, w: int)
    requires
        w > 0,
        0 <= c < w,
        i == r * w + c,
    ensures
        row(i, w) == r,
        col(i, w) == c,
{
    vstd::arithmetic::div_mod::lemma_fundamental_div_mod_converse(i, w, r, c);
}

/// The neighbour relation stays inside the map and is symmetric.
proof fn lemma_neighbor(i: int, d: int, w: int, h: int)
    requires
        w > 0,
        h > 0,
        0 <= i < w * h,
        0 <= d < 4,
    ensures
        neighbor(i, d, w, h) matches Some(nb) ==> 0 <= nb < w * h && neighbor(nb, (d + 2) % 4, w, h)
            == Some(i),
{
    lemma_cell_coords(i, w, h);
    let r = row(i, w);
    let c = col(i, w);
    if d == 0 && c > 0 {
        lemma_coords_unique(i - 1, r, c - 1, w);
    } else if d == 1 && r > 0 {
        assert(i - w == (r - 1) * w + c) by (nonlinear_arith)
            requires
                i == r * w + c,
        ;
        lemma_coords_unique(i - w, r - 1, c, w);
    } else if d == 2 && c + 1 < w {
        lemma_coords_unique(i + 1, r, c + 1, w);
        assert((r + 1) * w <= h * w) by (nonlinear_arith)
            requires
                r + 1 <= h,
                w > 0,
        ;
        assert(r * w + w == (r + 1) * w) by (nonlinear_arith);
        assert(h * w == w * h) by (nonlinear_arith);
    } else if d == 3 && r + 1 < h {
        assert(i + w == (r + 1) * w + c) by (nonlinear_arith)
            requires
                i == r * w + c,
        ;
        lemma_coords_unique(i + w, r + 1, c, w);
        assert((r + 2) * w <= h * w) by (nonlinear_arith)
            requires
                r + 2 <= h,
                w > 0,
        ;
        assert((r + 1) * w + w == (r + 2) * w) by (nonlinear_arith);
        assert(h * w == w * h) by (nonlinear_arith);
    }
}

fn neighbor_index(i: usize, d: usize, w: usize, h: usize) -> (r: Option<usize>)
    requires
        w > 0,
        h > 0,
        i < w * h,
        d < 4,
        w * h <= usize::MAX,
    ensures
        match r {
            Some(n) => neighbor(i as int, d as int, w as int, h as int) == Some(n as int),
            None => neighbor(i as int, d as int, w as int, h as int) is None,
        },
{
    proof {
        lemma_neighbor(i as int, d as int, w as int, h as int);
        lemma_cell_coords(i as int, w as int, h as int);
    }
    let c = i % w;
    let rw = i / w;
    if d == 0 {
        if c > 0 { Some(i - 1) } else { None }
    } else if d == 1 {
        if rw > 0 { Some(i - w) } else { None }
    } else if d == 2 {
        if c + 1 < w { Some(i + 1) } else { None }
    } else {
        if rw + 1 < h { Some(i + w) } else { None }
    }
}

/// The owner map after a region grows from `seed`: previously owned cells keep
/// their region, the region's cells get number `k`, the rest stay unowned.
pub open spec fn grown_owner(owner: Seq<int>, o2: Seq<int>, cells: Seq<usize>, k: int, n: int) -> bool {
    &&& o2.len() == n
    &&& forall|i: int| 0 <= i < n && owner[i] >= 0 ==> #[trigger] o2[i] == owner[i]
    &&& forall|i: int|
        0 <= i < n && owner[i] < 0 ==> (#[trigger] o2[i] == k || o2[i] == -1) && (o2[i] == k
            <==> cells.contains(i as usize))
}

/// Owned cells are active, and regions are closed under adjacency.
pub open spec fn owner_closed(owner: Seq<int>, mask: Seq<bool>, w: int, h: int) -> bool {
    forall|i: int, d: int|
        #![trigger owner[i], neighbor(i, d, w, h)]
        0 <= i < w * h && 0 <= d < 4 && owner[i] >= 0 && (neighbor(i, d, w, h) matches Some(nb)
            && mask[nb]) ==> owner[neighbor(i, d, w, h)->0] == owner[i]
}

proof fn lemma_linked_push(all: Seq<usize>, x: usize, w: int, h: int)
    requires
        forall|j: int| 0 < j < all.len() ==> #[trigger] linked_to_earlier(all, j, w, h),
    ensures
        forall|j: int| 0 < j < all.len() ==> #[trigger] linked_to_earlier(all.push(x), j, w, h),
{
    assert forall|j: int| 0 < j < all.len() implies #[trigger] linked_to_earlier(all.push(x), j, w, h) by {
        assert(linked_to_earlier(all, j, w, h));
        let (p, d) = choose|p: int, d: int|
            #![trigger all[p], neighbor(all[p] as int, d, w, h)]
            0 <= p < j && 0 <= d < 4 && neighbor(all[p] as int, d, w, h) == Some(all[j] as int);
        assert(all.push(x)[p] == all[p]);
        assert(all.push(x)[j] == all[j]);
        assert(neighbor(all.push(x)[p] as int, d, w, h) == Some(all.push(x)[j] as int));
    }
}

#[verifier::rlimit(60)]
fn grow_region(
    mask: &[bool],
    w: usize,
    h: usize,
    visited: &mut Vec<bool>,
    seed: usize,
    Ghost(owner): Ghost<Seq<int>>,
    Ghost(k): Ghost<int>,
) -> (res: (Component, Ghost<Seq<int>>))
    requires
        w > 0,
        h > 0,
        4 * w * h <= usize::MAX,
        w * h <= mask@.len(),
        seed < w * h,
        mask@[seed as int],
        !old(visited)@[seed as int],
        old(visited)@.len() == w * h,
        owner.len() == w * h,
        k >= 0,
        forall|i: int| 0 <= i < w * h ==> (old(visited)@[i] <==> #[trigger] owner[i] >= 0),
        forall|i: int| 0 <= i < w * h ==> -1 <= #[trigger] owner[i] < k,
        forall|i: int| 0 <= i < w * h && #[trigger] owner[i] >= 0 ==> mask@[i],
        forall|i: int| 0 <= i < seed && #[trigger] mask@[i] ==> owner[i] >= 0,
        owner_closed(owner, mask@, w as int, h as int),
    ensures
        ({
            let (c, o2) = res;
            let o2 = o2@;
            let n = (w * h) as int;
            &&& final(visited)@.len() == n
            &&& grown_owner(owner, o2, c.cells@, k, n)
            &&& forall|i: int| 0 <= i < n ==> (final(visited)@[i] <==> #[trigger] o2[i] >= 0)
            &&& forall|i: int| 0 <= i < n && #[trigger] o2[i] >= 0 ==> mask@[i]
            &&& owner_closed(o2, mask@, w as int, h as int)
            &&& component_summary(c, mask@, w as int, h as int)
            &&& c.cells@[0] == seed
            &&& forall|j: int| 0 <= j < c.cells@.len() ==> seed <= #[trigger] c.cells@[j] < n
            &&& forall|j: int| 0 <= j < c.cells@.len() ==> o2[#[trigger] c.cells@[j] as int] == k
        }),
{
    assert(w * h <= 4 * w * h) by (nonlinear_arith)
        requires
            w > 0,
            h > 0,
    ;
    let n: usize = w * h;
    assert(4 * n <= usize::MAX) by (nonlinear_arith)
        requires
            n == w * h,
            4 * w * h <= usize::MAX,
    ;
    let ghost mw = mask@;
    let ghost wi = w as int;
    let ghost hi = h as int;
    let ghost mut o = owner.update(seed as int, k);
    let ghost vis0 = old(visited)@;
    visited.set(seed, true);
    proof {
        lemma_count_true_set(vis0, seed as int);
        lemma_count_true_bound(visited@);
    }
    let mut queue: VecDeque<usize> = VecDeque::new();
    queue.push_back(seed);
    let mut cells: Vec<usize> = Vec::new();
    let mut count: usize = 0;
    let mut perimeter: usize = 0;
    let mut min_x: usize = seed % w;
    let mut max_x: usize = seed % w;
    let mut min_y: usize = seed / w;
    let mut max_y: usize = seed / w;
    assert((cells@ + queue@) =~= seq![seed]);
    assert forall|i: int| 0 <= i < n && #[trigger] o[i] == k implies (cells@ + queue@).contains(
        i as usize,
    ) by {
        if i != seed {
            assert(o[i] == owner[i]);
        }
        assert((cells@ + queue@)[0] == seed);
    }
    while queue.len() > 0
        invariant
            n == w * h,
            w > 0,
            h > 0,
            4 * w * h <= usize::MAX,
            4 * n <= usize::MAX,
            n <= mw.len(),
            mw == mask@,
            wi == w,
            hi == h,
            seed < n,
            mw[seed as int],
            vis0.len() == n,
            owner.len() == n,
            k >= 0,
            forall|i: int| 0 <= i < n ==> -1 <= #[trigger] owner[i] < k,
            forall|i: int| 0 <= i < n && #[trigger] owner[i] >= 0 ==> mw[i],
            forall|i: int| 0 <= i < seed && #[trigger] mw[i] ==> owner[i] >= 0,
            owner_closed(owner, mw, wi, hi),
            visited@.len() == n,
            o.len() == n,
            forall|i: int| 0 <= i < n ==> (visited@[i] <==> #[trigger] o[i] >= 0),
            forall|i: int| 0 <= i < n && #[trigger] o[i] >= 0 ==> mw[i],
            forall|i: int| 0 <= i < n && owner[i] >= 0 ==> #[trigger] o[i] == owner[i],
            forall|i: int| 0 <= i < n && owner[i] < 0 ==> (#[trigger] o[i] == k || o[i] == -1),
            (cells@ + queue@).no_duplicates(),
            forall|j: int|
                0 < j < (cells@ + queue@).len() ==> #[trigger] linked_to_earlier(cells@ + queue@, j, wi, hi),
            forall|j: int|
                0 <= j < (cells@ + queue@).len() ==> #[trigger] (cells@ + queue@)[j] < n && o[(
                cells@ + queue@)[j] as int] == k,
            forall|i: int| 0 <= i < n && #[trigger] o[i] == k ==> (cells@ + queue@).contains(i as usize),
            forall|j: int, d: int|
                #![trigger cells@[j], neighbor(cells@[j] as int, d, wi, hi)]
                0 <= j < cells@.len() && 0 <= d < 4 && (neighbor(cells@[j] as int, d, wi, hi) matches Some(
                    nb,
                ) && mw[nb]) ==> o[neighbor(cells@[j] as int, d, wi, hi)->0] == k,
            forall|i: int| 0 <= i < n && #[trigger] o[i] == k ==> i >= seed,
            count_true(visited@) == count_true(vis0) + (cells@ + queue@).len(),
            count_true(visited@) <= n,
            cells@.len() == 0 ==> queue@ == seq![seed],
            cells@.len() > 0 ==> cells@[0] == seed,
            count == cells@.len(),
            perimeter == boundary_total(mw, cells@, wi, hi),
            cells@.len() == 0 ==> min_x == col(seed as int, wi) && max_x == col(seed as int, wi)
                && min_y == row(seed as int, wi) && max_y == row(seed as int, wi),
            cells@.len() > 0 ==> min_x == min_col(cells@, wi) && max_x == max_col(cells@, wi)
                && min_y == min_row(cells@, wi) && max_y == max_row(cells@, wi),
            cells@.no_duplicates(),
        decreases n - count_true(visited@) + queue@.len(),
    {
        let ghost all0 = cells@ + queue@;
        let idx = queue.pop_front().unwrap();
        let ghost old_cells = cells@;
        cells.push(idx);
        assert(cells@ + queue@ =~= all0);
        assert(all0[old_cells.len() as int] == idx);
        assert(cells@.no_duplicates()) by {
            assert forall|a: int, b: int| 0 <= a < b < cells@.len() implies cells@[a] != cells@[b] by {
                assert(cells@[a] == all0[a]);
                assert(cells@[b] == all0[b]);
            }
        }
        proof {
            lemma_count_true_bound(visited@);
            lemma_boundary_total_bound(mw, old_cells, wi, hi);
            lemma_cell_coords(idx as int, wi, hi);
            assert(cells@.drop_last() =~= old_cells);
        }
        let first = count == 0;
        count += 1;
        let cx = idx % w;
        let cy = idx / w;
        if first {
            min_x = cx;
            max_x = cx;
            min_y = cy;
            max_y = cy;
        } else {
            if cx < min_x {
                min_x = cx;
            }
            if cx > max_x {
                max_x = cx;
            }
            if cy < min_y {
                min_y = cy;
            }
            if cy > max_y {
                max_y = cy;
            }
        }
        let ghost per0 = perimeter as nat;
        let mut d: usize = 0;
        while d < 4
            invariant
                n == w * h,
                w > 0,
                h > 0,
                4 * w * h <= usize::MAX,
                4 * n <= usize::MAX,
                n <= mw.len(),
                mw == mask@,
                wi == w,
                hi == h,
                idx < n,
                o[idx as int] == k,
                vis0.len() == n,
                owner.len() == n,
                k >= 0,
                forall|i: int| 0 <= i < n ==> -1 <= #[trigger] owner[i] < k,
                forall|i: int| 0 <= i < n && #[trigger] owner[i] >= 0 ==> mw[i],
                forall|i: int| 0 <= i < seed && #[trigger] mw[i] ==> owner[i] >= 0,
                owner_closed(owner, mw, wi, hi),
                visited@.len() == n,
                o.len() == n,
                forall|i: int| 0 <= i < n ==> (visited@[i] <==> #[trigger] o[i] >= 0),
                forall|i: int| 0 <= i < n && #[trigger] o[i] >= 0 ==> mw[i],
                forall|i: int| 0 <= i < n && owner[i] >= 0 ==> #[trigger] o[i] == owner[i],
                forall|i: int| 0 <= i < n && owner[i] < 0 ==> (#[trigger] o[i] == k || o[i] == -1),
                (cells@ + queue@).no_duplicates(),
                forall|j: int|
                    0 < j < (cells@ + queue@).len() ==> #[trigger] linked_to_earlier(cells@ + queue@, j, wi, hi),
                forall|j: int|
                    0 <= j < (cells@ + queue@).len() ==> #[trigger] (cells@ + queue@)[j] < n && o[(
                    cells@ + queue@)[j] as int] == k,
                forall|i: int| 0 <= i < n && #[trigger] o[i] == k ==> (cells@ + queue@).contains(i as usize),
                forall|j: int, dd: int|
                    #![trigger old_cells[j], neighbor(old_cells[j] as int, dd, wi, hi)]
                    0 <= j < old_cells.len() && 0 <= dd < 4 && (neighbor(old_cells[j] as int, dd, wi, hi) matches Some(
                        nb,
                    ) && mw[nb]) ==> o[neighbor(old_cells[j] as int, dd, wi, hi)->0] == k,
                forall|dd: int|
                    #![trigger neighbor(idx as int, dd, wi, hi)]
                    0 <= dd < d && (neighbor(idx as int, dd, wi, hi) matches Some(nb) && mw[nb])
                        ==> o[neighbor(idx as int, dd, wi, hi)->0] == k,
                forall|i: int| 0 <= i < n && #[trigger] o[i] == k ==> i >= seed,
                count_true(visited@) == count_true(vis0) + (cells@ + queue@).len(),
                cells@ == old_cells.push(idx),
                perimeter == per0 + boundary_upto(mw, idx as int, d as int, wi, hi),
                per0 <= 4 * old_cells.len(),
                old_cells.len() + 1 <= n,
                d <= 4,
            decreases 4 - d,
        {
            proof {
                lemma_neighbor(idx as int, d as int, wi, hi);
                lemma_boundary_upto_bound(mw, idx as int, d as int, wi, hi);
                lemma_count_true_bound(visited@);
            }
            match neighbor_index(idx, d, w, h) {
                None => {
                    perimeter += 1;
                },
                Some(nb) => {
                    if !mask[nb] {
                        perimeter += 1;
                    } else if !visited[nb] {
                        let ghost all1 = cells@ + queue@;
                        let ghost v1 = visited@;
                        assert(!all1.contains(nb)) by {
                            if all1.contains(nb) {
                                let j = choose|j: int| 0 <= j < all1.len() && all1[j] == nb;
                                assert(o[all1[j] as int] == k);
                            }
                        }
                        assert(nb >= seed) by {
                            if (nb as int) < seed {
                                assert(owner[nb as int] >= 0);
                            }
                        }
                        visited.set(nb, true);
                        let ghost o_prev = o;
                        proof {
                            lemma_count_true_set(v1, nb as int);
                            o = o.update(nb as int, k);
                        }
                        assert forall|j: int, dd: int|
                            #![trigger old_cells[j], neighbor(old_cells[j] as int, dd, wi, hi)]
                            0 <= j < old_cells.len() && 0 <= dd < 4 && (neighbor(
                                old_cells[j] as int,
                                dd,
                                wi,
                                hi,
                            ) matches Some(nb2) && mw[nb2]) implies o[neighbor(
                            old_cells[j] as int,
                            dd,
                            wi,
                            hi,
                        )->0] == k by {
                            let t = neighbor(old_cells[j] as int, dd, wi, hi)->0;
                            assert(all1[j] == old_cells[j]);
                            lemma_neighbor(old_cells[j] as int, dd, wi, hi);
                            if t != nb as int {
                                assert(o_prev[t] == k);
                            }
                        }
                        assert forall|dd: int|
                            #![trigger neighbor(idx as int, dd, wi, hi)]
                            0 <= dd < d + 1 && (neighbor(idx as int, dd, wi, hi) matches Some(nb2)
                                && mw[nb2]) implies o[neighbor(idx as int, dd, wi, hi)->0] == k by {
                            let t = neighbor(idx as int, dd, wi, hi)->0;
                            lemma_neighbor(idx as int, dd, wi, hi);
                            if t != nb as int {
                                assert(o_prev[t] == k);
                            }
                        }
                        proof {
                            lemma_linked_push(all1, nb, wi, hi);
                            let all2 = all1.push(nb);
                            assert(all2[old_cells.len() as int] == idx);
                            assert(all2[all1.len() as int] == nb);
                            assert(neighbor(all2[old_cells.len() as int] as int, d as int, wi, hi) == Some(
                                all2[all1.len() as int] as int,
                            ));
                            assert(linked_to_earlier(all2, all1.len() as int, wi, hi));
                        }
                        queue.push_back(nb);
                        assert(cells@ + queue@ =~= all1.push(nb));
                        assert forall|i: int| 0 <= i < n && #[trigger] o[i] == k implies (cells@
                            + queue@).contains(i as usize) by {
                            if i != nb {
                                assert(all1.contains(i as usize));
                                let j = choose|j: int| 0 <= j < all1.len() && all1[j] == i as usize;
                                assert((cells@ + queue@)[j] == i as usize);
                            } else {
                                assert((cells@ + queue@)[all1.len() as int] == nb);
                            }
                        }
                        assert forall|j: int|
                            0 <= j < (cells@ + queue@).len() implies #[trigger] (cells@ + queue@)[j]
                            < n && o[(cells@ + queue@)[j] as int] == k by {
                            if j < all1.len() {
                                assert((cells@ + queue@)[j] == all1[j]);
                            }
                        }
                        assert(o[idx as int] == k);
                    } else {
                        assert(o[nb as int] >= 0);
                        proof {
                            if o[nb as int] != k {
                                assert(owner[nb as int] >= 0);
                                assert(owner[nb as int] == o[nb as int]);
                                let opp = (d as int + 2) % 4;
                                assert(neighbor(nb as int, opp, wi, hi) == Some(idx as int));
                                lemma_neighbor(nb as int, opp, wi, hi);
                                assert(mw[idx as int]);
                                assert(owner[idx as int] == owner[nb as int]);
                                assert(false);
                            }
                        }
                    }
                },
            }
            d += 1;
        }
        assert(cells@.drop_last() =~= old_cells);
        assert(perimeter == boundary_total(mw, cells@, wi, hi));
        proof {
            lemma_count_true_bound(visited@);
        }
        assert forall|j: int, dd: int|
            #![trigger cells@[j], neighbor(cells@[j] as int, dd, wi, hi)]
            0 <= j < cells@.len() && 0 <= dd < 4 && (neighbor(cells@[j] as int, dd, wi, hi) matches Some(
                nb,
            ) && mw[nb]) implies o[neighbor(cells@[j] as int, dd, wi, hi)->0] == k by {
            if j < old_cells.len() {
                assert(cells@[j] == old_cells[j]);
            } else {
                assert(cells@[j] == idx);
            }
        }
    }
    let ghost o_fin = o;
    assert(cells@ + queue@ =~= cells@);
    assert(cells@.len() > 0);
    let c = Component { min_x, max_x, min_y, max_y, count, perimeter, cells };
    assert forall|i: int, dd: int|
        #![trigger o_fin[i], neighbor(i, dd, wi, hi)]
        0 <= i < wi * hi && 0 <= dd < 4 && o_fin[i] >= 0 && (neighbor(i, dd, wi, hi) matches Some(nb)
            && mw[nb]) implies o_fin[neighbor(i, dd, wi, hi)->0] == o_fin[i] by {
        let nb = neighbor(i, dd, wi, hi)->0;
        lemma_neighbor(i, dd, wi, hi);
        if owner[i] >= 0 {
            assert(owner[nb] == owner[i]);
            assert(o_fin[nb] == owner[nb]);
        } else {
            assert(o_fin[i] == k);
            assert(c.cells@.contains(i as usize));
            let j = choose|j: int| 0 <= j < c.cells@.len() && c.cells@[j] == i as usize;
            assert(neighbor(c.cells@[j] as int, dd, wi, hi) == Some(nb));
        }
    }
    (c, Ghost(o_fin))
}

/// Groups the active cells of a `w` by `h` map into 4-connected regions,
/// scanning for unvisited active cells in row-major order and growing each
/// region breadth-first.  Only the first `w * h` entries of `mask` are read.
#[verifier::rlimit(60)]
pub fn label_components(mask: &[bool], w: usize, h: usize) -> (comps: Vec<Component>)
    requires
        w > 0,
        h > 0,
        4 * w * h <= usize::MAX,
        w * h <= mask@.len(),
    ensures
        partitions_active(comps@, mask@, (w * h) as int),
        closed_regions(comps@, mask@, w as int, h as int),
        seeds_in_order(comps@),
        forall|k: int|
            0 <= k < comps@.len() ==> component_summary(#[trigger] comps@[k], mask@, w as int, h as int),
{
    assert(w * h <= 4 * w * h) by (nonlinear_arith)
        requires
            w > 0,
            h > 0,
    ;
    let n: usize = w * h;
    let ghost wi = w as int;
    let ghost hi = h as int;
    let ghost mw = mask@;
    let mut visited: Vec<bool> = vec![false; n];
    let ghost mut owner: Seq<int> = Seq::new(n as nat, |i: int| -1int);
    let mut comps: Vec<Component> = Vec::new();
    let mut p: usize = 0;
    while p < n
        invariant
            n == w * h,
            w > 0,
            h > 0,
            4 * w * h <= usize::MAX,
            n <= mw.len(),
            mw == mask@,
            wi == w,
            hi == h,
            p <= n,
            visited@.len() == n,
            owner.len() == n,
            forall|i: int| 0 <= i < n ==> (visited@[i] <==> #[trigger] owner[i] >= 0),
            forall|i: int| 0 <= i < n ==> -1 <= #[trigger] owner[i] < comps@.len(),
            forall|i: int| 0 <= i < n && #[trigger] owner[i] >= 0 ==> mw[i],
            forall|i: int| 0 <= i < p && #[trigger] mw[i] ==> owner[i] >= 0,
            owner_closed(owner, mw, wi, hi),
            forall|k: int, j: int|
                #![trigger cell_at(comps@, k, j)]
                valid_cell(comps@, k, j) ==> cell_at(comps@, k, j) < n && owner[cell_at(
                    comps@,
                    k,
                    j,
                ) as int] == k,
            forall|i: int|
                0 <= i < n && #[trigger] owner[i] >= 0 ==> comps@[owner[i]].cells@.contains(
                    i as usize,
                ),
            forall|k: int|
                0 <= k < comps@.len() ==> component_summary(#[trigger] comps@[k], mw, wi, hi),
            forall|k: int, j: int|
                #![trigger cell_at(comps@, k, j)]
                valid_cell(comps@, k, j) ==> cell_at(comps@, k, 0) <= cell_at(comps@, k, j),
            forall|k1: int, k2: int|
                #![trigger cell_at(comps@, k1, 0), cell_at(comps@, k2, 0)]
                0 <= k1 < k2 < comps@.len() ==> cell_at(comps@, k1, 0) < cell_at(comps@, k2, 0),
            forall|k: int| 0 <= k < comps@.len() ==> #[trigger] cell_at(comps@, k, 0) < p,
        decreases n - p,
    {
        if !visited[p] && mask[p] {
            let ghost k = comps@.len() as int;
            let (c, go) = grow_region(mask, w, h, &mut visited, p, Ghost(owner), Ghost(k));
            let ghost o2 = go@;
            let ghost old_comps = comps@;
            let ghost old_owner = owner;
            comps.push(c);
            proof {
                owner = o2;
            }
            assert forall|k1: int, j: int|
                #![trigger cell_at(comps@, k1, j)]
                valid_cell(comps@, k1, j) implies cell_at(comps@, k1, j) < n && owner[cell_at(
                    comps@,
                    k1,
                    j,
                ) as int] == k1 by {
                if k1 < k {
                    assert(cell_at(comps@, k1, j) == cell_at(old_comps, k1, j));
                    assert(old_owner[cell_at(old_comps, k1, j) as int] == k1);
                } else {
                    assert(comps@[k1].cells@[j] == c.cells@[j]);
                }
            }
            assert forall|i: int|
                0 <= i < n && #[trigger] owner[i] >= 0 implies comps@[owner[i]].cells@.contains(
                i as usize,
            ) by {
                if old_owner[i] >= 0 {
                    assert(comps@[old_owner[i]] == old_comps[old_owner[i]]);
                } else {
                    assert(owner[i] == k);
                }
            }
            assert forall|i: int| 0 <= i < n implies -1 <= #[trigger] owner[i] < comps@.len() by {
                if old_owner[i] < 0 {
                    assert(owner[i] == k || owner[i] == -1);
                }
            }
            assert forall|k1: int|
                0 <= k1 < comps@.len() implies component_summary(#[trigger] comps@[k1], mw, wi, hi) by {
                if k1 < k {
                    assert(comps@[k1] == old_comps[k1]);
                }
            }
            assert forall|k1: int, j: int|
                #![trigger cell_at(comps@, k1, j)]
                valid_cell(comps@, k1, j) implies cell_at(comps@, k1, 0) <= cell_at(comps@, k1, j) by {
                if k1 < k {
                    assert(comps@[k1] == old_comps[k1]);
                    assert(cell_at(old_comps, k1, j) == cell_at(comps@, k1, j));
                    assert(cell_at(old_comps, k1, 0) == cell_at(comps@, k1, 0));
                } else {
                    assert(comps@[k1].cells@[j] == c.cells@[j]);
                }
            }
            assert forall|k1: int, k2: int|
                #![trigger cell_at(comps@, k1, 0), cell_at(comps@, k2, 0)]
                0 <= k1 < k2 < comps@.len() implies cell_at(comps@, k1, 0) < cell_at(comps@, k2, 0) by {
                assert(comps@[k1] == old_comps[k1]);
                assert(cell_at(old_comps, k1, 0) == cell_at(comps@, k1, 0));
                if k2 < k {
                    assert(comps@[k2] == old_comps[k2]);
                    assert(cell_at(old_comps, k2, 0) == cell_at(comps@, k2, 0));
                }
            }
            assert forall|k1: int| 0 <= k1 < comps@.len() implies #[trigger] cell_at(comps@, k1, 0) < p + 1 by {
                if k1 < k {
                    assert(comps@[k1] == old_comps[k1]);
                    assert(cell_at(old_comps, k1, 0) == cell_at(comps@, k1, 0));
                }
            }
            assert forall|i: int| 0 <= i < p + 1 && #[trigger] mw[i] implies owner[i] >= 0 by {
                if i == p {
                    assert(c.cells@[0] == p);
                    assert(owner[c.cells@[0] as int] == k);
                } else {
                    assert(old_owner[i] >= 0);
                }
            }
        }
        p += 1;
    }
    let ghost cs = comps@;
    assert(partitions_active(cs, mw, n as int)) by {
        assert forall|i: int| 0 <= i < n && #[trigger] mw[i] implies exists|k: int, j: int|
            #![trigger cell_at(cs, k, j)]
            valid_cell(cs, k, j) && cell_at(cs, k, j) == i by {
            let k = owner[i];
            assert(cs[k].cells@.contains(i as usize));
            let j = choose|j: int| 0 <= j < cs[k].cells@.len() && cs[k].cells@[j] == i as usize;
            assert(cell_at(cs, k, j) == i);
        }
    }
    assert(closed_regions(cs, mw, wi, hi)) by {
        assert forall|k: int, j: int, d: int|
            #![trigger cell_at(cs, k, j), neighbor(cell_at(cs, k, j) as int, d, wi, hi)]
            valid_cell(cs, k, j) && 0 <= d < 4 && (neighbor(cell_at(cs, k, j) as int, d, wi, hi) matches Some(
                nb,
            ) && mw[nb]) implies cs[k].cells@.contains(
            neighbor(cell_at(cs, k, j) as int, d, wi, hi)->0 as usize,
        ) by {
            let c = cell_at(cs, k, j) as int;
            let nb = neighbor(c, d, wi, hi)->0;
            lemma_neighbor(c, d, wi, hi);
            assert(owner[c] == k);
            assert(owner[nb] == owner[c]);
        }
    }
    comps
}

/// Whether `b` is one of the four neighbours of `a`.
pub open spec fn adjacent(a: int, b: int, w: int, h: int) -> bool {
    exists|d: int| 0 <= d < 4 && #[trigger] neighbor(a, d, w, h) == Some(b)
}

/// A walk through active cells of the map, each step going to a neighbour.
pub open spec fn is_active_walk(mask: Seq<bool>, walk: Seq<int>, w: int, h: int) -> bool {
    &&& forall|i: int| 0 <= i < walk.len() ==> 0 <= #[trigger] walk[i] < w * h && mask[walk[i]]
    &&& forall|i: int| 0 <= i < walk.len() - 1 ==> #[trigger] adjacent(walk[i], walk[i + 1], w, h)
}

/// What the labelling states of its regions.
pub open spec fn labelled_regions(comps: Seq<Component>, mask: Seq<bool>, w: int, h: int) -> bool {
    &&& partitions_active(comps, mask, w * h)
    &&& closed_regions(comps, mask, w, h)
    &&& forall|k: int| 0 <= k < comps.len() ==> component_summary(#[trigger] comps[k], mask, w, h)
}

proof fn lemma_walk_stays(comps: Seq<Component>, mask: Seq<bool>, w: int, h: int, k: int, walk: Seq<int>, i: int)
    requires
        labelled_regions(comps, mask, w, h),
        0 <= k < comps.len(),
        is_active_walk(mask, walk, w, h),
        0 < walk.len(),
        comps[k].cells@.contains(walk[0] as usize),
        0 <= i < walk.len(),
    ensures
        comps[k].cells@.contains(walk[i] as usize),
    decreases i,
{
    if i > 0 {
        lemma_walk_stays(comps, mask, w, h, k, walk, i - 1);
        let cells = comps[k].cells@;
        let j = choose|j: int| 0 <= j < cells.len() && cells[j] == walk[i - 1] as usize;
        let m = i - 1;
        assert(adjacent(walk[m], walk[m + 1], w, h));
        assert(m + 1 == i);
        let d = choose|d: int| 0 <= d < 4 && #[trigger] neighbor(walk[i - 1], d, w, h) == Some(walk[i]);
        assert(0 <= walk[i - 1] && mask[walk[i]]);
        assert(valid_cell(comps, k, j));
        assert(cell_at(comps, k, j) as int == walk[i - 1]);
        assert(neighbor(cell_at(comps, k, j) as int, d, w, h) == Some(walk[i]));
    }
}

proof fn region_walk(cells: Seq<usize>, mask: Seq<bool>, w: int, h: int, j: int) -> (walk: Seq<int>)
    requires
        connected_from_first(cells, w, h),
        0 <= j < cells.len(),
        forall|i: int| 0 <= i < cells.len() ==> #[trigger] cells[i] < w * h && mask[cells[i] as int],
    ensures
        walk.len() > 0,
        walk[0] == cells[0],
        walk.last() == cells[j],
        is_active_walk(mask, walk, w, h),
        forall|i: int| 0 <= i < walk.len() ==> cells.contains(#[trigger] walk[i] as usize),
    decreases j,
{
    if j == 0 {
        let walk = seq![cells[0] as int];
        assert(cells.contains(cells[0]));
        walk
    } else {
        assert(linked_to_earlier(cells, j, w, h));
        let (p, d) = choose|p: int, d: int|
            #![trigger cells[p], neighbor(cells[p] as int, d, w, h)]
            0 <= p < j && 0 <= d < 4 && neighbor(cells[p] as int, d, w, h) == Some(cells[j] as int);
        let prev = region_walk(cells, mask, w, h, p);
        let walk = prev.push(cells[j] as int);
        assert(adjacent(prev.last(), cells[j] as int, w, h));
        assert forall|i: int| 0 <= i < walk.len() implies 0 <= #[trigger] walk[i] < w * h && mask[walk[i]] by {
            if i < prev.len() {
                assert(walk[i] == prev[i]);
            }
        }
        assert forall|i: int| 0 <= i < walk.len() - 1 implies #[trigger] adjacent(walk[i], walk[i + 1], w, h) by {
            if i < prev.len() - 1 {
                assert(walk[i] == prev[i] && walk[i + 1] == prev[i + 1]);
            }
        }
        assert forall|i: int| 0 <= i < walk.len() implies cells.contains(#[trigger] walk[i] as usize) by {
            if i < prev.len() {
                assert(walk[i] == prev[i]);
            } else {
                assert(cells[j] == walk[i] as usize);
            }
        }
        walk
    }
}

/// The regions are exactly the connected components of the active cells: a
/// walk through active cells never leaves the region it starts in, and every
/// cell of a region is reached from the region's first cell by a walk inside it.
pub proof fn law_regions_are_connected_components(comps: Seq<Component>, mask: Seq<bool>, w: int, h: int)
    requires
        labelled_regions(comps, mask, w, h),
    ensures
        forall|k: int, walk: Seq<int>|
            0 <= k < comps.len() && 0 < walk.len() && is_active_walk(mask, walk, w, h)
                && #[trigger] comps[k].cells@.contains(walk[0] as usize) ==> forall|i: int|
                0 <= i < walk.len() ==> comps[k].cells@.contains(#[trigger] walk[i] as usize),
        forall|k: int, j: int|
            #![trigger valid_cell(comps, k, j)]
            valid_cell(comps, k, j) ==> exists|walk: Seq<int>|
                #![trigger is_active_walk(mask, walk, w, h)]
                is_active_walk(mask, walk, w, h) && walk.len() > 0 && walk[0] == cell_at(comps, k, 0)
                    && walk.last() == cell_at(comps, k, j) && forall|i: int|
                    0 <= i < walk.len() ==> comps[k].cells@.contains(#[trigger] walk[i] as usize),
{
    assert forall|k: int, walk: Seq<int>|
        0 <= k < comps.len() && 0 < walk.len() && is_active_walk(mask, walk, w, h)
            && #[trigger] comps[k].cells@.contains(walk[0] as usize) implies forall|i: int|
        0 <= i < walk.len() ==> comps[k].cells@.contains(#[trigger] walk[i] as usize) by {
        assert forall|i: int| 0 <= i < walk.len() implies comps[k].cells@.contains(#[trigger] walk[i] as usize) by {
            lemma_walk_stays(comps, mask, w, h, k, walk, i);
        }
    }
    assert forall|k: int, j: int|
        #![trigger valid_cell(comps, k, j)]
        valid_cell(comps, k, j) implies exists|walk: Seq<int>|
            #![trigger is_active_walk(mask, walk, w, h)]
            is_active_walk(mask, walk, w, h) && walk.len() > 0 && walk[0] == cell_at(comps, k, 0)
                && walk.last() == cell_at(comps, k, j) && forall|i: int|
                0 <= i < walk.len() ==> comps[k].cells@.contains(#[trigger] walk[i] as usize) by {
        let cells = comps[k].cells@;
        assert(component_summary(comps[k], mask, w, h));
        assert forall|i: int| 0 <= i < cells.len() implies #[trigger] cells[i] < w * h && mask[cells[i] as int] by {
            assert(valid_cell(comps, k, i));
            assert(cell_at(comps, k, i) == cells[i]);
        }
        let walk = region_walk(cells, mask, w, h, j);
        assert(walk[0] == cell_at(comps, k, 0));
        assert(walk.last() == cell_at(comps, k, j));
        assert(forall|i: int| 0 <= i < walk.len() ==> comps[k].cells@.contains(#[trigger] walk[i] as usize));
        assert(is_active_walk(mask, walk, w, h));
    }
}

/// The error for a detection output with fewer than two dimensions.
pub open spec fn bad_det_shape_message(shape: Seq<usize>) -> Seq<char> {
    "Unexpected detection output shape: "@ + debug_list(shape)
}

/// The error for a detection output whose map is empty or larger than its data.
pub open spec fn invalid_det_shape_message(shape: Seq<usize>) -> Seq<char> {
    "Invalid detection output shape: "@ + debug_list(shape)
}

/// The height and width of the probability map in a detection output (its
/// last two dimensions), or the error.
pub open spec fn spec_detection_map_size(shape: Seq<usize>, data_len: nat) -> Result<(usize, usize), Seq<char>> {
    if shape.len() < 2 {
        Err(bad_det_shape_message(shape))
    } else {
        let h = shape[shape.len() - 2];
        let w = shape[shape.len() - 1];
        if h == 0 || w == 0 || data_len < h * w {
            Err(invalid_det_shape_message(shape))
        } else {
            Ok((h, w))
        }
    }
}

fn message_with_shape(prefix: &str, shape: &[usize]) -> (m: String)
    ensures
        m@ == prefix@ + debug_list(shape@),
{
    let mut v: Vec<char> = Vec::new();
    extend_str(&mut v, prefix);
    let d = debug_list_chars(shape);
    extend_chars(&mut v, d.as_slice());
    string_from_chars(v.as_slice())
}

/// Reads the map size out of a detection output's shape, checking it against
/// the amount of data.
pub fn detection_map_size(shape: &[usize], data_len: usize) -> (r: Result<(usize, usize), String>)
    requires
        shape@.len() >= 2 && shape@[shape@.len() - 2] > 0 && shape@[shape@.len() - 1] > 0 ==> shape@[shape@.len() - 2] * shape@[shape@.len() - 1] <= usize::MAX,
    ensures
        match (r, spec_detection_map_size(shape@, data_len as nat)) {
            (Ok(a), Ok(b)) => a == b,
            (Err(e), Err(m)) => e@ == m,
            _ => false,
        },
{
    if shape.len() < 2 {
        return Err(message_with_shape("Unexpected detection output shape: ", shape));
    }
    let h = shape[shape.len() - 2];
    let w = shape[shape.len() - 1];
    if h == 0 || w == 0 || data_len < h * w {
        Err(message_with_shape("Invalid detection output shape: ", shape))
    } else {
        Ok((h, w))
    }
}

/// The regions with at least four cells, in order.
pub open spec fn large_regions(comps: Seq<Component>) -> Seq<Component>
    decreases comps.len(),
{
    if comps.len() == 0 {
        seq![]
    } else if comps.last().count >= 4 {
        large_regions(comps.drop_last()).push(comps.last())
    } else {
        large_regions(comps.drop_last())
    }
}

/// Drops the regions too small to be text (fewer than four cells).
pub fn keep_large_regions(comps: Vec<Component>) -> (r: Vec<Component>)
    ensures
        r@ == large_regions(comps@),
{
    let ghost all = comps@;
    let mut out: Vec<Component> = Vec::new();
    let mut rest = comps;
    assert(all.subrange(0, 0) =~= Seq::<Component>::empty());
    assert(rest@ =~= all.subrange(0, all.len() as int));
    let ghost mut taken: int = 0;
    while rest.len() > 0
        invariant
            0 <= taken <= all.len(),
            rest@ == all.subrange(taken, all.len() as int),
            out@ == large_regions(all.subrange(0, taken)),
        decreases rest@.len(),
    {
        let c = rest.remove(0);
        assert(c == all[taken]);
        assert(all.subrange(0, taken + 1).drop_last() =~= all.subrange(0, taken));
        if c.count >= 4 {
            out.push(c);
        }
        proof {
            taken = taken + 1;
        }
        assert(rest@ =~= all.subrange(taken, all.len() as int));
    }
    assert(all.subrange(0, taken) =~= all);
    out
}

/// A text region in image pixels.
#[derive(Debug, Clone, Copy)]
pub struct Rect {
    pub x: u32,
    pub y: u32,
    pub w: u32,
    pub h: u32,
}

/// Whether a detected box is large enough to be read: at least 3 pixels wide and tall.
pub fn is_readable_box(r: &Rect) -> (b: bool)
    ensures
        b == (r.w >= 3 && r.h >= 3),
{
    r.w >= 3 && r.h >= 3
}

/// Whether region `i` comes strictly before region `j`: earlier in reading
/// order, or level with it and earlier in the input (the sort is stable).
pub open spec fn order_before(rects: Seq<Rect>, i: usize, j: usize) -> bool {
    let a = rects[i as int];
    let b = rects[j as int];
    (a.y / 16 < b.y / 16) || (a.y / 16 == b.y / 16 && a.x < b.x) || (a.y / 16 == b.y / 16 && a.x
        == b.x && i < j)
}

/// The positions of the regions in stable reading order.
pub open spec fn is_reading_order(rects: Seq<Rect>, order: Seq<usize>) -> bool {
    &&& order.len() == rects.len()
    &&& order.no_duplicates()
    &&& forall|k: int| 0 <= k < order.len() ==> #[trigger] order[k] < rects.len()
    &&& forall|a: int, b: int| 0 <= a < b < order.len() ==> order_before(rects, #[trigger] order[a], #[trigger] order[b])
}

fn before(rects: &Vec<Rect>, i: usize, j: usize) -> (b: bool)
    requires
        i < rects@.len(),
        j < rects@.len(),
    ensures
        b == order_before(rects@, i, j),
{
    let a = rects[i];
    let c = rects[j];
    (a.y / 16 < c.y / 16) || (a.y / 16 == c.y / 16 && a.x < c.x) || (a.y / 16 == c.y / 16 && a.x == c.x && i < j)
}

/// The order in which detected regions are read: sorted by 16-pixel band of
/// their top edge, then by left edge, keeping the input order among ties.
pub fn reading_order(rects: &Vec<Rect>) -> (order: Vec<usize>)
    ensures
        is_reading_order(rects@, order@),
{
    let mut out: Vec<usize> = Vec::new();
    let mut i: usize = 0;
    while i < rects.len()
        invariant
            i <= rects@.len(),
            out@.len() == i,
            out@.no_duplicates(),
            forall|k: int| 0 <= k < out@.len() ==> #[trigger] out@[k] < i,
            forall|a: int, b: int| 0 <= a < b < out@.len() ==> order_before(rects@, #[trigger] out@[a], #[trigger] out@[b]),
        decreases rects@.len() - i,
    {
        let mut pos: usize = 0;
        while pos < out.len() && before(rects, out[pos], i)
            invariant
                pos <= out@.len(),
                i < rects@.len(),
                forall|k: int| 0 <= k < out@.len() ==> #[trigger] out@[k] < i,
                forall|k: int| 0 <= k < pos ==> order_before(rects@, #[trigger] out@[k], i),
            decreases out@.len() - pos,
        {
            pos += 1;
        }
        let ghost old_out = out@;
        proof {
            // Every later element comes after `i`: it is not before `i`, and ordering is total.
            assert forall|k: int| pos <= k < old_out.len() implies order_before(rects@, i, #[trigger] old_out[k]) by {
                if pos < old_out.len() {
                    assert(!order_before(rects@, old_out[pos as int], i));
                    if k > pos {
                        assert(order_before(rects@, old_out[pos as int], old_out[k]));
                    }
                }
            }
        }
        out.insert(pos, i);
        assert(out@ =~= old_out.insert(pos as int, i));
        assert forall|a: int, b: int| 0 <= a < b < out@.len() implies order_before(rects@, #[trigger] out@[a], #[trigger] out@[b]) by {
            if b < pos {
                assert(out@[a] == old_out[a] && out@[b] == old_out[b]);
            } else if b == pos {
                assert(out@[a] == old_out[a]);
            } else if a < pos {
                assert(out@[a] == old_out[a] && out@[b] == old_out[b - 1]);
            } else if a == pos {
                assert(out@[b] == old_out[b - 1]);
            } else {
                assert(out@[a] == old_out[a - 1] && out@[b] == old_out[b - 1]);
            }
        }
        assert(out@.no_duplicates()) by {
            assert forall|a: int, b: int| 0 <= a < b < out@.len() implies out@[a] != out@[b] by {
                if a == pos as int {
                    assert(out@[b] == old_out[b - 1]);
                } else if b == pos as int {
                    assert(out@[a] == old_out[a]);
                } else {
                    let oa = if a < pos { a } else { a - 1 };
                    let ob = if b < pos { b } else { b - 1 };
                    assert(out@[a] == old_out[oa] && out@[b] == old_out[ob]);
                }
            }
        }
        assert forall|k: int| 0 <= k < out@.len() implies #[trigger] out@[k] < i + 1 by {
            if k < pos {
                assert(out@[k] == old_out[k]);
            } else if k > pos {
                assert(out@[k] == old_out[k - 1]);
            }
        }
        i += 1;
    }
    out
}


/// Reading order goes by text line first: a region whose top edge lies in an
/// earlier 16-pixel band is read before every region of a later band, whatever
/// their left edges; within one band the region further left is read first,
/// and regions level in both keep their input order.
pub proof fn law_reading_order_is_by_band_then_x(rects: Seq<Rect>, order: Seq<usize>)
    requires
        is_reading_order(rects, order),
    ensures
        forall|a: int, b: int|
            0 <= a < b < order.len() ==> {
                let r = #[trigger] rects[order[a] as int];
                let t = #[trigger] rects[order[b] as int];
                r.y / 16 < t.y / 16 || (r.y / 16 == t.y / 16 && r.x < t.x) || (r.y / 16 == t.y / 16
                    && r.x == t.x && order[a] < order[b])
            },
{
    assert forall|a: int, b: int| 0 <= a < b < order.len() implies {
        let r = #[trigger] rects[order[a] as int];
        let t = #[trigger] rects[order[b] as int];
        r.y / 16 < t.y / 16 || (r.y / 16 == t.y / 16 && r.x < t.x) || (r.y / 16 == t.y / 16 && r.x
            == t.x && order[a] < order[b])
    } by {
        assert(order_before(rects, order[a], order[b]));
    }
}


proof fn lemma_order_covers(rects: Seq<Rect>, order: Seq<usize>, i: int)
    requires
        is_reading_order(rects, order),
        0 <= i < rects.len(),
    ensures
        exists|p: int| 0 <= p < order.len() && order[p] as int == i,
{
    let n = rects.len() as int;
    let oi = order.map_values(|k: usize| k as int);
    assert(oi.no_duplicates()) by {
        assert forall|a: int, b: int| 0 <= a < b < oi.len() implies oi[a] != oi[b] by {
            assert(order[a] != order[b]);
        }
    }
    oi.unique_seq_to_set();
    vstd::set_lib::lemma_int_range(0, n);
    let range = vstd::set_lib::set_int_range(0, n);
    assert(oi.to_set().subset_of(range)) by {
        assert forall|x: int| oi.to_set().contains(x) implies range.contains(x) by {
            let p = choose|p: int| 0 <= p < oi.len() && oi[p] == x;
            assert(order[p] < rects.len());
        }
    }
    if !(exists|p: int| 0 <= p < order.len() && order[p] as int == i) {
        assert(oi.to_set().subset_of(range.remove(i))) by {
            assert forall|x: int| oi.to_set().contains(x) implies range.remove(i).contains(x) by {
                let p = choose|p: int| 0 <= p < oi.len() && oi[p] == x;
                assert(order[p] < rects.len());
                assert(order[p] as int != i);
            }
        }
        assert(range.contains(i));
        vstd::set_lib::lemma_len_subset(oi.to_set(), range.remove(i));
    }
}

/// Every region is read, and one in an earlier 16-pixel band is read before
/// one in a later band, whatever their left edges.
pub proof fn law_earlier_band_is_read_first(rects: Seq<Rect>, order: Seq<usize>, i: int, j: int)
    requires
        is_reading_order(rects, order),
        0 <= i < rects.len(),
        0 <= j < rects.len(),
        rects[i].y / 16 < rects[j].y / 16,
    ensures
        exists|pi: int, pj: int|
            0 <= pi < pj < order.len() && order[pi] as int == i && order[pj] as int == j,
{
    lemma_order_covers(rects, order, i);
    lemma_order_covers(rects, order, j);
    let pi = choose|p: int| 0 <= p < order.len() && order[p] as int == i;
    let pj = choose|p: int| 0 <= p < order.len() && order[p] as int == j;
    assert(order[pi] as int == i && order[pj] as int == j);
    if pj == pi {
        assert(i == j);
        assert(false);
    } else if pj < pi {
        assert(order_before(rects, order[pj], order[pi]));
        assert(rects[order[pj] as int] == rects[j]);
        assert(rects[order[pi] as int] == rects[i]);
        assert(false);
    }
    assert(0 <= pi < pj < order.len() && order[pi] as int == i && order[pj] as int == j);
}
} // verus!
