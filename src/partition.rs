use vstd::prelude::*;
use crate::action_space::Interval;

verus! {

/// Failure of the partitioner.
#[derive(Debug, Clone, Copy, PartialEq, Eq, Structural)]
pub enum GeometryError {
    /// No site was given.
    EmptyPointSet,
    /// Two sites coincide, so their common cell has no defined split.
    DuplicatePoints,
}

/// The territory of one site on the line, `[left, right]`, in half grid units
/// (doubled coordinates), so that every boundary, a midpoint of two sites,
/// falls on the grid.
#[derive(Debug, Clone, Copy, PartialEq, Eq, Structural)]
pub struct Territory {
    pub left: u64,
    pub right: u64,
}

/// Whether no two sites coincide.
pub open spec fn distinct(xs: Seq<u32>) -> bool {
    forall|i: int, j: int| 0 <= i < j < xs.len() ==> xs[i] != xs[j]
}

/// Whether every site lies in `region`.
pub open spec fn all_within(xs: Seq<u32>, region: Interval) -> bool {
    forall|i: int| 0 <= i < xs.len() ==> region.holds(#[trigger] xs[i])
}

/// The largest of the first `n` sites strictly below `v`, if any.
pub open spec fn below(xs: Seq<u32>, n: nat, v: u32) -> Option<u32>
    decreases n,
{
    if n == 0 {
        None
    } else {
        let prev = below(xs, (n - 1) as nat, v);
        let x = xs[n - 1];
        if x < v && (prev is None || prev->0 < x) {
            Some(x)
        } else {
            prev
        }
    }
}

/// The smallest of the first `n` sites strictly above `v`, if any.
pub open spec fn above(xs: Seq<u32>, n: nat, v: u32) -> Option<u32>
    decreases n,
{
    if n == 0 {
        None
    } else {
        let prev = above(xs, (n - 1) as nat, v);
        let x = xs[n - 1];
        if x > v && (prev is None || x < prev->0) {
            Some(x)
        } else {
            prev
        }
    }
}

/// Left end (doubled) of the cell of site `i` among the first `n` sites.
pub open spec fn left_edge(xs: Seq<u32>, n: nat, i: int, region: Interval) -> int {
    match below(xs, n, xs[i]) {
        Some(p) => p + xs[i],
        None => 2 * region.lo,
    }
}

/// Right end (doubled) of the cell of site `i` among the first `n` sites.
pub open spec fn right_edge(xs: Seq<u32>, n: nat, i: int, region: Interval) -> int {
    match above(xs, n, xs[i]) {
        Some(q) => q + xs[i],
        None => 2 * region.hi,
    }
}

/// Doubled length of the cell of site `i` among the first `n` sites.
pub open spec fn share(xs: Seq<u32>, n: nat, i: int, region: Interval) -> int {
    right_edge(xs, n, i, region) - left_edge(xs, n, i, region)
}

/// Sum of the shares of sites `0..k`, each among the first `n` sites.
pub open spec fn total_share(xs: Seq<u32>, n: nat, k: nat, region: Interval) -> int
    decreases k,
{
    if k == 0 {
        0
    } else {
        total_share(xs, n, (k - 1) as nat, region) + share(xs, n, k - 1, region)
    }
}

/// Whether `t` holds, for each site in order, its proximity cell within `region`.
pub open spec fn line_cells(xs: Seq<u32>, region: Interval, t: Seq<Territory>) -> bool {
    &&& t.len() == xs.len()
    &&& forall|i: int|
        0 <= i < xs.len() ==> (#[trigger] t[i]).left == left_edge(xs, xs.len(), i, region)
            && t[i].right == right_edge(xs, xs.len(), i, region)
}

/// Sum of a sequence of payoffs.
pub open spec fn sum(s: Seq<u64>) -> int
    decreases s.len(),
{
    if s.len() == 0 {
        0
    } else {
        sum(s.drop_last()) + s.last()
    }
}

pub proof fn lemma_below_bound(xs: Seq<u32>, n: nat, v: u32)
    requires
        n <= xs.len(),
    ensures
        below(xs, n, v) matches Some(y) ==> y < v && exists|j: int| 0 <= j < n && xs[j] == y,
        below(xs, n, v) is None ==> forall|j: int| 0 <= j < n ==> xs[j] >= v,
        forall|j: int| 0 <= j < n && xs[j] < v ==> (below(xs, n, v) matches Some(y) && xs[j] <= y),
    decreases n,
{
    if n > 0 {
        lemma_below_bound(xs, (n - 1) as nat, v);
    }
}

pub proof fn lemma_above_bound(xs: Seq<u32>, n: nat, v: u32)
    requires
        n <= xs.len(),
    ensures
        above(xs, n, v) matches Some(y) ==> y > v && exists|j: int| 0 <= j < n && xs[j] == y,
        above(xs, n, v) is None ==> forall|j: int| 0 <= j < n ==> xs[j] <= v,
        forall|j: int| 0 <= j < n && xs[j] > v ==> (above(xs, n, v) matches Some(y) && xs[j] >= y),
    decreases n,
{
    if n > 0 {
        lemma_above_bound(xs, (n - 1) as nat, v);
    }
}

/// Each cell reaches from its left end, over its site, to its right end.
pub proof fn lemma_cell_ordered(xs: Seq<u32>, region: Interval, i: int)
    requires
        region.wf(),
        all_within(xs, region),
        0 <= i < xs.len(),
    ensures
        left_edge(xs, xs.len(), i, region) <= 2 * xs[i] <= right_edge(xs, xs.len(), i, region),
{
    lemma_below_bound(xs, xs.len(), xs[i]);
    lemma_above_bound(xs, xs.len(), xs[i]);
    assert(region.holds(xs[i]));
}

/// Sum over sites `0..k` of how much their right ends move when site `m`
/// joins the first `m` sites.
pub open spec fn right_shift(xs: Seq<u32>, m: nat, k: nat, region: Interval) -> int
    decreases k,
{
    if k == 0 {
        0
    } else {
        right_shift(xs, m, (k - 1) as nat, region) + right_edge(xs, m + 1, k - 1, region)
            - right_edge(xs, m, k - 1, region)
    }
}

/// Sum over sites `0..k` of how much their left ends move when site `m`
/// joins the first `m` sites.
pub open spec fn left_shift(xs: Seq<u32>, m: nat, k: nat, region: Interval) -> int
    decreases k,
{
    if k == 0 {
        0
    } else {
        left_shift(xs, m, (k - 1) as nat, region) + left_edge(xs, m + 1, k - 1, region)
            - left_edge(xs, m, k - 1, region)
    }
}

/// How far the right end of the cell just below a new site `p` moves.
pub open spec fn right_gain(xs: Seq<u32>, m: nat, region: Interval) -> int {
    let p = xs[m as int];
    match below(xs, m, p) {
        Some(a) => (a + p) - match above(xs, m, p) {
            Some(q) => a + q,
            None => 2 * region.hi,
        },
        None => 0,
    }
}

/// How far the left end of the cell just above a new site `p` moves.
pub open spec fn left_gain(xs: Seq<u32>, m: nat, region: Interval) -> int {
    let p = xs[m as int];
    match above(xs, m, p) {
        Some(b) => (b + p) - match below(xs, m, p) {
            Some(a) => a + b,
            None => 2 * region.lo,
        },
        None => 0,
    }
}

proof fn lemma_shift_sum(xs: Seq<u32>, m: nat, k: nat, region: Interval)
    ensures
        total_share(xs, m + 1, k, region) == total_share(xs, m, k, region) + right_shift(
            xs,
            m,
            k,
            region,
        ) - left_shift(xs, m, k, region),
    decreases k,
{
    if k > 0 {
        lemma_shift_sum(xs, m, (k - 1) as nat, region);
    }
}

/// With no site between `a` and `p`, the nearest site above `a` is the nearest above `p`.
proof fn lemma_gap_above(xs: Seq<u32>, m: nat, a: u32, p: u32)
    requires
        m <= xs.len(),
        below(xs, m, p) == Some(a),
        forall|j: int| 0 <= j < m ==> xs[j] != p,
    ensures
        above(xs, m, a) == above(xs, m, p),
{
    lemma_below_bound(xs, m, p);
    lemma_above_bound(xs, m, a);
    lemma_above_bound(xs, m, p);
    if above(xs, m, a) is Some {
        let q1 = above(xs, m, a)->0;
        let j1 = choose|j: int| 0 <= j < m && xs[j] == q1;
        assert(xs[j1] != p);
    }
    if above(xs, m, p) is Some {
        let q = above(xs, m, p)->0;
        let j = choose|j: int| 0 <= j < m && xs[j] == q;
        assert(xs[j] > a);
    }
}

/// With no site between `p` and `b`, the nearest site below `b` is the nearest below `p`.
proof fn lemma_gap_below(xs: Seq<u32>, m: nat, b: u32, p: u32)
    requires
        m <= xs.len(),
        above(xs, m, p) == Some(b),
        forall|j: int| 0 <= j < m ==> xs[j] != p,
    ensures
        below(xs, m, b) == below(xs, m, p),
{
    lemma_above_bound(xs, m, p);
    lemma_below_bound(xs, m, b);
    lemma_below_bound(xs, m, p);
    if below(xs, m, b) is Some {
        let a1 = below(xs, m, b)->0;
        let j1 = choose|j: int| 0 <= j < m && xs[j] == a1;
        assert(xs[j1] != p);
    }
    if below(xs, m, p) is Some {
        let a = below(xs, m, p)->0;
        let j = choose|j: int| 0 <= j < m && xs[j] == a;
        assert(xs[j] < b);
    }
}

/// Site `i` gains on its right exactly when it is the nearest site below the newcomer.
proof fn lemma_right_step(xs: Seq<u32>, m: nat, i: int, region: Interval)
    requires
        m < xs.len(),
        0 <= i < m,
        forall|j: int| 0 <= j < m ==> xs[j] != xs[m as int],
    ensures
        right_edge(xs, m + 1, i, region) - right_edge(xs, m, i, region) == if below(
            xs,
            m,
            xs[m as int],
        ) == Some(xs[i]) {
            right_gain(xs, m, region)
        } else {
            0
        },
{
    let p = xs[m as int];
    let x = xs[i];
    lemma_below_bound(xs, m, p);
    lemma_above_bound(xs, m, x);
    assert((m + 1) as nat - 1 == m);
    if below(xs, m, p) == Some(x) {
        lemma_gap_above(xs, m, x, p);
        lemma_above_bound(xs, m, p);
    } else if x < p && (above(xs, m, x) is None || p < above(xs, m, x)->0) {
        let y = below(xs, m, p)->0;
        let jy = choose|j: int| 0 <= j < m && xs[j] == y;
        assert(xs[jy] > x);
    }
}

/// Site `i` gains on its left exactly when it is the nearest site above the newcomer.
proof fn lemma_left_step(xs: Seq<u32>, m: nat, i: int, region: Interval)
    requires
        m < xs.len(),
        0 <= i < m,
        forall|j: int| 0 <= j < m ==> xs[j] != xs[m as int],
    ensures
        left_edge(xs, m + 1, i, region) - left_edge(xs, m, i, region) == if above(
            xs,
            m,
            xs[m as int],
        ) == Some(xs[i]) {
            left_gain(xs, m, region)
        } else {
            0
        },
{
    let p = xs[m as int];
    let x = xs[i];
    lemma_above_bound(xs, m, p);
    lemma_below_bound(xs, m, x);
    assert((m + 1) as nat - 1 == m);
    if above(xs, m, p) == Some(x) {
        lemma_gap_below(xs, m, x, p);
        lemma_below_bound(xs, m, p);
    } else if x > p && (below(xs, m, x) is None || below(xs, m, x)->0 < p) {
        let y = above(xs, m, p)->0;
        let jy = choose|j: int| 0 <= j < m && xs[j] == y;
        assert(xs[jy] < x);
    }
}

proof fn lemma_right_shift(xs: Seq<u32>, m: nat, k: nat, region: Interval)
    requires
        m < xs.len(),
        k <= m,
        distinct(xs),
    ensures
        right_shift(xs, m, k, region) == if below(xs, m, xs[m as int]) matches Some(a) && exists|
            j: int,
        | 0 <= j < k && xs[j] == a {
            right_gain(xs, m, region)
        } else {
            0
        },
    decreases k,
{
    if k > 0 {
        lemma_right_shift(xs, m, (k - 1) as nat, region);
        lemma_right_step(xs, m, k - 1, region);
    }
}

proof fn lemma_left_shift(xs: Seq<u32>, m: nat, k: nat, region: Interval)
    requires
        m < xs.len(),
        k <= m,
        distinct(xs),
    ensures
        left_shift(xs, m, k, region) == if above(xs, m, xs[m as int]) matches Some(b) && exists|
            j: int,
        | 0 <= j < k && xs[j] == b {
            left_gain(xs, m, region)
        } else {
            0
        },
    decreases k,
{
    if k > 0 {
        lemma_left_shift(xs, m, (k - 1) as nat, region);
        lemma_left_step(xs, m, k - 1, region);
    }
}

/// Adding a site to at least one other leaves the total covered length unchanged.
proof fn lemma_grow(xs: Seq<u32>, m: nat, region: Interval)
    requires
        1 <= m < xs.len(),
        distinct(xs),
    ensures
        total_share(xs, m + 1, m + 1, region) == total_share(xs, m, m, region),
{
    let p = xs[m as int];
    lemma_shift_sum(xs, m, m, region);
    lemma_right_shift(xs, m, m, region);
    lemma_left_shift(xs, m, m, region);
    lemma_below_bound(xs, m, p);
    lemma_above_bound(xs, m, p);
    assert((m + 1) as nat - 1 == m);
    assert(xs[0] != p);
    assert(below(xs, m + 1, p) == below(xs, m, p));
    assert(above(xs, m + 1, p) == above(xs, m, p));
}

proof fn lemma_cover_prefix(xs: Seq<u32>, m: nat, region: Interval)
    requires
        1 <= m <= xs.len(),
        distinct(xs),
    ensures
        total_share(xs, m, m, region) == 2 * (region.hi - region.lo),
    decreases m,
{
    if m == 1 {
        assert(below(xs, 1, xs[0]) is None) by {
            assert(below(xs, 0, xs[0]) is None);
        }
        assert(above(xs, 1, xs[0]) is None) by {
            assert(above(xs, 0, xs[0]) is None);
        }
        assert(total_share(xs, 1, 0, region) == 0);
        assert(total_share(xs, 1, 1, region) == share(xs, 1, 0, region));
    } else {
        lemma_cover_prefix(xs, (m - 1) as nat, region);
        lemma_grow(xs, (m - 1) as nat, region);
    }
}

proof fn lemma_sum_shares(xs: Seq<u32>, region: Interval, w: Seq<u64>, k: nat)
    requires
        k <= w.len() == xs.len(),
        forall|i: int| 0 <= i < xs.len() ==> #[trigger] w[i] == share(xs, xs.len(), i, region),
    ensures
        sum(w.take(k as int)) == total_share(xs, xs.len(), k, region),
    decreases k,
{
    if k > 0 {
        lemma_sum_shares(xs, region, w, (k - 1) as nat);
        assert(w.take(k as int).drop_last() =~= w.take(k - 1));
    }
}

/// On the line, the cells of distinct sites cover the region exactly: their
/// lengths add up to the region's length (both doubled).
pub proof fn lemma_partition_coverage(xs: Seq<u32>, region: Interval, w: Seq<u64>)
    requires
        xs.len() >= 1,
        distinct(xs),
        w.len() == xs.len(),
        forall|i: int| 0 <= i < xs.len() ==> #[trigger] w[i] == share(xs, xs.len(), i, region),
    ensures
        sum(w) == 2 * (region.hi - region.lo),
{
    lemma_cover_prefix(xs, xs.len(), region);
    lemma_sum_shares(xs, region, w, xs.len());
    assert(w.take(w.len() as int) =~= w);
}

/// The largest site strictly below `v`.
fn nearest_below(xs: &Vec<u32>, v: u32) -> (r: Option<u32>)
    ensures
        r == below(xs@, xs@.len(), v),
{
    let mut best: Option<u32> = None;
    let mut j: usize = 0;
    while j < xs.len()
        invariant
            j <= xs@.len(),
            best == below(xs@, j as nat, v),
        decreases xs@.len() - j,
    {
        let x = xs[j];
        let take = match best {
            None => x < v,
            Some(b) => x < v && b < x,
        };
        if take {
            best = Some(x);
        }
        j += 1;
    }
    best
}

/// The smallest site strictly above `v`.
fn nearest_above(xs: &Vec<u32>, v: u32) -> (r: Option<u32>)
    ensures
        r == above(xs@, xs@.len(), v),
{
    let mut best: Option<u32> = None;
    let mut j: usize = 0;
    while j < xs.len()
        invariant
            j <= xs@.len(),
            best == above(xs@, j as nat, v),
        decreases xs@.len() - j,
    {
        let x = xs[j];
        let take = match best {
            None => x > v,
            Some(b) => x > v && x < b,
        };
        if take {
            best = Some(x);
        }
        j += 1;
    }
    best
}

/// Whether no two of the sites coincide.
pub fn all_distinct(xs: &Vec<u32>) -> (r: bool)
    ensures
        r == distinct(xs@),
{
    let mut i: usize = 0;
    while i < xs.len()
        invariant
            i <= xs@.len(),
            forall|a: int, b: int| 0 <= a < i && a < b < xs@.len() ==> xs@[a] != xs@[b],
        decreases xs@.len() - i,
    {
        let mut j: usize = i + 1;
        while j < xs.len()
            invariant
                i < xs@.len(),
                i + 1 <= j <= xs@.len(),
                forall|a: int, b: int| 0 <= a < i && a < b < xs@.len() ==> xs@[a] != xs@[b],
                forall|b: int| i < b < j ==> xs@[i as int] != xs@[b],
            decreases xs@.len() - j,
        {
            if xs[i] == xs[j] {
                return false;
            }
            j += 1;
        }
        i += 1;
    }
    true
}

/// Splits `region` among the sites `xs` by proximity: site `i` receives the
/// points of `region` nearer to it than to any other site. Cells are reported
/// in the order of the sites.
pub fn partition_line(xs: &Vec<u32>, region: Interval) -> (r: Result<Vec<Territory>, GeometryError>)
    requires
        region.wf(),
        all_within(xs@, region),
    ensures
        xs@.len() == 0 ==> r == Err::<Vec<Territory>, GeometryError>(GeometryError::EmptyPointSet),
        xs@.len() > 0 && !distinct(xs@) ==> r == Err::<Vec<Territory>, GeometryError>(
            GeometryError::DuplicatePoints,
        ),
        xs@.len() > 0 && distinct(xs@) ==> (r matches Ok(t) && line_cells(xs@, region, t@)),
        r matches Ok(t) ==> forall|i: int| 0 <= i < t@.len() ==> (#[trigger] t@[i]).left <= t@[i].right,
{
    if xs.len() == 0 {
        return Err(GeometryError::EmptyPointSet);
    }
    if !all_distinct(xs) {
        return Err(GeometryError::DuplicatePoints);
    }
    let mut cells: Vec<Territory> = Vec::new();
    let mut i: usize = 0;
    while i < xs.len()
        invariant
            i <= xs@.len(),
            cells@.len() == i,
            region.wf(),
            forall|k: int|
                0 <= k < i ==> (#[trigger] cells@[k]).left == left_edge(xs@, xs@.len(), k, region)
                    && cells@[k].right == right_edge(xs@, xs@.len(), k, region),
        decreases xs@.len() - i,
    {
        let x = xs[i];
        let left: u64 = match nearest_below(xs, x) {
            Some(p) => p as u64 + x as u64,
            None => 2 * (region.lo as u64),
        };
        let right: u64 = match nearest_above(xs, x) {
            Some(q) => q as u64 + x as u64,
            None => 2 * (region.hi as u64),
        };
        cells.push(Territory { left, right });
        i += 1;
    }
    assert(line_cells(xs@, region, cells@));
    assert forall|i: int| 0 <= i < cells@.len() implies (#[trigger] cells@[i]).left <= cells@[i].right by {
        lemma_cell_ordered(xs@, region, i);
    }
    Ok(cells)
}

/// The payoff of each cell: its length, in half grid units.
pub fn rewards(cells: &Vec<Territory>) -> (r: Vec<u64>)
    requires
        forall|i: int| 0 <= i < cells@.len() ==> (#[trigger] cells@[i]).left <= cells@[i].right,
    ensures
        r@.len() == cells@.len(),
        forall|i: int| 0 <= i < cells@.len() ==> r@[i] == (#[trigger] cells@[i]).right - cells@[i].left,
{
    let mut r: Vec<u64> = Vec::new();
    let mut i: usize = 0;
    while i < cells.len()
        invariant
            i <= cells@.len(),
            r@.len() == i,
            forall|k: int| 0 <= k < cells@.len() ==> (#[trigger] cells@[k]).left <= cells@[k].right,
            forall|k: int| 0 <= k < i ==> r@[k] == (#[trigger] cells@[k]).right - cells@[k].left,
        decreases cells@.len() - i,
    {
        r.push(cells[i].right - cells[i].left);
        i += 1;
    }
    r
}

} // verus!
