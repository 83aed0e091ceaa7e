//! The lattice points at which the cells of a body are placed.

use crate::vector::Vector2D;
use vstd::prelude::*;

verus! {

/// The lattice points of the row `y` from `x0` up to `x1`, but for `skip`.
pub open spec fn row_points(y: int, x0: int, x1: int, skip: Vector2D<usize>) -> Seq<Vector2D<usize>>
    decreases x1 - x0,
{
    if x1 <= x0 {
        Seq::empty()
    } else {
        let rest = row_points(y, x0, x1 - 1, skip);
        if x1 - 1 == skip.x && y == skip.y {
            rest
        } else {
            rest.push(Vector2D { x: (x1 - 1) as usize, y: y as usize })
        }
    }
}

/// The lattice points of a box, row after row from `y0` up to `y1`, but for
/// `skip`.
pub open spec fn box_points(x0: int, x1: int, y0: int, y1: int, skip: Vector2D<usize>) -> Seq<
    Vector2D<usize>,
>
    decreases y1 - y0,
{
    if y1 <= y0 {
        Seq::empty()
    } else {
        box_points(x0, x1, y0, y1 - 1, skip) + row_points(y1 - 1, x0, x1, skip)
    }
}

/// The first `limit` lattice points of the box from `lo` to `hi`, but for
/// `skip`; all of them, if they are fewer.
pub open spec fn lattice_points(
    lo: Vector2D<usize>,
    hi: Vector2D<usize>,
    skip: Vector2D<usize>,
    limit: usize,
) -> Seq<Vector2D<usize>> {
    let all = box_points(lo.x as int, hi.x as int, lo.y as int, hi.y as int, skip);
    if limit < all.len() {
        all.take(limit as int)
    } else {
        all
    }
}

/// Whether `p` is a lattice point of the box from `(x0, y0)` to `(x1, y1)`
/// other than `skip`.
pub open spec fn is_point(
    p: Vector2D<usize>,
    x0: int,
    x1: int,
    y0: int,
    y1: int,
    skip: Vector2D<usize>,
) -> bool {
    x0 <= p.x < x1 && y0 <= p.y < y1 && p != skip
}

/// The lattice of a row holds each point of the row but `skip`, and no other.
proof fn lemma_row_points(y: int, x0: int, x1: int, skip: Vector2D<usize>, p: Vector2D<usize>)
    requires
        0 <= x0,
        x1 <= usize::MAX + 1,
        0 <= y <= usize::MAX,
    ensures
        row_points(y, x0, x1, skip).contains(p) <==> is_point(p, x0, x1, y, y + 1, skip),
    decreases x1 - x0,
{
    if x1 > x0 {
        lemma_row_points(y, x0, x1 - 1, skip, p);
        let rest = row_points(y, x0, x1 - 1, skip);
        let last = Vector2D { x: (x1 - 1) as usize, y: y as usize };
        if last != skip {
            let all = rest.push(last);
            assert(all[rest.len() as int] == last);
            if all.contains(p) {
                let i = choose|i: int| 0 <= i < all.len() && all[i] == p;
                if i < rest.len() {
                    assert(rest[i] == p);
                }
            }
            if rest.contains(p) {
                let i = choose|i: int| 0 <= i < rest.len() && rest[i] == p;
                assert(all[i] == p);
            }
        }
    }
}

/// The lattice of a box holds each point of the box but `skip`, and no other.
pub proof fn lemma_box_points(
    x0: int,
    x1: int,
    y0: int,
    y1: int,
    skip: Vector2D<usize>,
    p: Vector2D<usize>,
)
    requires
        0 <= x0,
        x1 <= usize::MAX + 1,
        0 <= y0,
        y1 <= usize::MAX + 1,
    ensures
        box_points(x0, x1, y0, y1, skip).contains(p) <==> is_point(p, x0, x1, y0, y1, skip),
    decreases y1 - y0,
{
    if y1 > y0 {
        lemma_box_points(x0, x1, y0, y1 - 1, skip, p);
        lemma_row_points(y1 - 1, x0, x1, skip, p);
        let above = box_points(x0, x1, y0, y1 - 1, skip);
        let row = row_points(y1 - 1, x0, x1, skip);
        let all = above + row;
        if above.contains(p) {
            let i = choose|i: int| 0 <= i < above.len() && above[i] == p;
            assert(all[i] == p);
        }
        if row.contains(p) {
            let i = choose|i: int| 0 <= i < row.len() && row[i] == p;
            assert(all[above.len() + i] == p);
        }
        if all.contains(p) {
            let i = choose|i: int| 0 <= i < all.len() && all[i] == p;
            if i < above.len() {
                assert(above[i] == p);
            } else {
                assert(row[i - above.len()] == p);
            }
        }
    }
}

/// A row that ends earlier starts the row that ends later.
proof fn lemma_row_points_grow(y: int, x0: int, x: int, x1: int, skip: Vector2D<usize>)
    requires
        x0 <= x <= x1,
    ensures
        row_points(y, x0, x, skip).is_prefix_of(row_points(y, x0, x1, skip)),
    decreases x1 - x,
{
    if x < x1 {
        lemma_row_points_grow(y, x0, x, x1 - 1, skip);
    }
}

/// A box of fewer rows starts the box of more rows.
proof fn lemma_box_points_grow(x0: int, x1: int, y0: int, y: int, y1: int, skip: Vector2D<usize>)
    requires
        y0 <= y <= y1,
    ensures
        box_points(x0, x1, y0, y, skip).is_prefix_of(box_points(x0, x1, y0, y1, skip)),
    decreases y1 - y,
{
    if y < y1 {
        lemma_box_points_grow(x0, x1, y0, y, y1 - 1, skip);
    }
}

/// The lattice points at which the cells of a body are placed: those of the
/// box from `lo` to `hi`, row after row, without the point `skip`, and no more
/// than `limit` of them.
pub fn lattice(lo: Vector2D<usize>, hi: Vector2D<usize>, skip: Vector2D<usize>, limit: usize) -> (r:
    Vec<Vector2D<usize>>)
    ensures
        r@ == lattice_points(lo, hi, skip, limit),
        r@.len() <= limit,
        forall|i: int|
            0 <= i < r@.len() ==> is_point(
                #[trigger] r@[i],
                lo.x as int,
                hi.x as int,
                lo.y as int,
                hi.y as int,
                skip,
            ),
{
    let mut cells: Vec<Vector2D<usize>> = Vec::new();
    let ghost all = box_points(lo.x as int, hi.x as int, lo.y as int, hi.y as int, skip);
    let mut y: usize = lo.y;
    while y < hi.y && cells.len() < limit
        invariant
            lo.y <= y,
            y <= hi.y || y == lo.y,
            all == box_points(lo.x as int, hi.x as int, lo.y as int, hi.y as int, skip),
            cells@.len() <= limit,
            cells@.is_prefix_of(all),
            cells@.len() < limit ==> cells@ == box_points(
                lo.x as int,
                hi.x as int,
                lo.y as int,
                y as int,
                skip,
            ),
        decreases hi.y - y,
    {
        let ghost rows = cells@;
        let mut x: usize = lo.x;
        proof {
            assert(rows + row_points(y as int, lo.x as int, x as int, skip) =~= rows);
        }
        while x < hi.x && cells.len() < limit
            invariant
                lo.x <= x,
                x <= hi.x || x == lo.x,
                lo.y <= y < hi.y,
                rows == box_points(lo.x as int, hi.x as int, lo.y as int, y as int, skip),
                cells@.len() <= limit,
                cells@ == rows + row_points(y as int, lo.x as int, x as int, skip),
            decreases hi.x - x,
        {
            if !(x == skip.x && y == skip.y) {
                cells.push(Vector2D { x, y });
            }
            proof {
                assert(cells@ =~= rows + row_points(y as int, lo.x as int, x + 1, skip));
            }
            x += 1;
        }
        proof {
            let row = row_points(y as int, lo.x as int, hi.x as int, skip);
            let part = row_points(y as int, lo.x as int, x as int, skip);
            if x <= hi.x {
                lemma_row_points_grow(y as int, lo.x as int, x as int, hi.x as int, skip);
            }
            assert(part.is_prefix_of(row));
            assert((rows + part).is_prefix_of(rows + row));
            lemma_box_points_grow(
                lo.x as int,
                hi.x as int,
                lo.y as int,
                y + 1,
                hi.y as int,
                skip,
            );
            assert(cells@.is_prefix_of(all));
            if cells@.len() < limit {
                assert(part == row);
            }
        }
        y += 1;
    }
    proof {
        if cells@.len() < limit {
            assert(all == cells@);
        } else {
            assert(all.take(limit as int) =~= cells@);
        }
        assert forall|i: int| 0 <= i < cells@.len() implies is_point(
            #[trigger] cells@[i],
            lo.x as int,
            hi.x as int,
            lo.y as int,
            hi.y as int,
            skip,
        ) by {
            assert(all[i] == cells@[i]);
            lemma_box_points(
                lo.x as int,
                hi.x as int,
                lo.y as int,
                hi.y as int,
                skip,
                cells@[i],
            );
        }
    }
    cells
}

} // verus!
