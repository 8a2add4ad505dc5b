use vstd::prelude::*;

verus! {

/// Whether every row has as many coordinates as the first.
pub open spec fn rectangular(rows: Seq<Vec<u32>>) -> bool {
    forall|i: int| 0 <= i < rows.len() ==> (#[trigger] rows[i])@.len() == rows[0]@.len()
}

/// Coordinate `k` of every row.
pub open spec fn column(rows: Seq<Vec<u32>>, k: int) -> Seq<u32> {
    Seq::new(rows.len(), |i: int| rows[i]@[k])
}

/// Coordinate `k` of every row, which has at least `k + 1` coordinates.
fn column_of(rows: &Vec<Vec<u32>>, k: usize) -> (r: Vec<u32>)
    requires
        forall|i: int| 0 <= i < rows@.len() ==> (#[trigger] rows@[i])@.len() > k,
    ensures
        r@ == column(rows@, k as int),
{
    let mut r: Vec<u32> = Vec::new();
    let mut i: usize = 0;
    while i < rows.len()
        invariant
            i <= rows@.len(),
            forall|j: int| 0 <= j < rows@.len() ==> (#[trigger] rows@[j])@.len() > k,
            r@ == Seq::new(i as nat, |j: int| rows@[j]@[k as int]),
        decreases rows@.len() - i,
    {
        r.push(rows[i][k]);
        i += 1;
        assert(r@ =~= Seq::new(i as nat, |j: int| rows@[j]@[k as int]));
    }
    r
}

/// Horizontal and vertical plot coordinates of a matrix of positions: on the
/// line the points are drawn at height 0; in the plane each row gives both
/// coordinates. Other shapes, and an empty matrix, give nothing to draw.
pub fn get_points_for_plot(pts: &Vec<Vec<u32>>) -> (r: (Vec<u32>, Vec<u32>))
    requires
        rectangular(pts@),
    ensures
        pts@.len() > 0 && pts@[0]@.len() == 1 ==> r.0@ == column(pts@, 0) && r.1@ == Seq::new(
            pts@.len(),
            |i: int| 0u32,
        ),
        pts@.len() > 0 && pts@[0]@.len() == 2 ==> r.0@ == column(pts@, 0) && r.1@ == column(pts@, 1),
        pts@.len() == 0 || (pts@[0]@.len() != 1 && pts@[0]@.len() != 2) ==> r.0@.len() == 0
            && r.1@.len() == 0,
{
    if pts.len() == 0 {
        return (Vec::new(), Vec::new());
    }
    let width = pts[0].len();
    if width == 1 {
        let xs = column_of(pts, 0);
        let mut ys: Vec<u32> = Vec::new();
        let mut i: usize = 0;
        while i < pts.len()
            invariant
                i <= pts@.len(),
                ys@ == Seq::new(i as nat, |j: int| 0u32),
            decreases pts@.len() - i,
        {
            ys.push(0);
            i += 1;
            assert(ys@ =~= Seq::new(i as nat, |j: int| 0u32));
        }
        (xs, ys)
    } else if width == 2 {
        (column_of(pts, 0), column_of(pts, 1))
    } else {
        (Vec::new(), Vec::new())
    }
}

} // verus!
