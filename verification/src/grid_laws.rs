//! What holds of a grid: what a bucket holds after an insertion, what a
//! query finds in the buckets, and which ids a query finds after any run of
//! insertions in one generation.

use crate::spatial_grid::{
    area_hits, area_members, box_hits, box_holds, box_members, bucket_of, copies, empty_buckets,
    first_occurrences, found, in_box, row_hits, row_members, with_pushed, TileBox,
};
use crate::vector::Vector2D;
use vstd::prelude::*;

verus! {

/// Whether some tile of the box `area` falls into bucket `k`.
pub open spec fn box_reaches(
    mult: Vector2D<usize>,
    count: nat,
    area: TileBox,
    k: int,
) -> bool {
    exists|x: int, y: int| in_box(area, x, y) && #[trigger] bucket_of(mult, count, x, y) == k
}

/// One insertion: an id and the box of tiles it was inserted over.
pub struct Insertion {
    pub id: usize,
    pub area: TileBox,
}

/// The buckets after the insertions `run`, made one after the other.
pub open spec fn after_insertions(
    buckets: Seq<Seq<usize>>,
    mult: Vector2D<usize>,
    run: Seq<Insertion>,
) -> Seq<Seq<usize>>
    decreases run.len(),
{
    if run.len() == 0 {
        buckets
    } else {
        with_pushed(
            after_insertions(buckets, mult, run.drop_last()),
            mult,
            run.last().id,
            run.last().area,
        )
    }
}

/// Whether a tile of the one box and a tile of the other fall into the same
/// bucket. Two boxes that share a tile do; two boxes apart may, by the hash.
pub open spec fn boxes_meet(
    mult: Vector2D<usize>,
    count: nat,
    a: TileBox,
    b: TileBox,
) -> bool {
    exists|k: int| box_reaches(mult, count, a, k) && box_reaches(mult, count, b, k)
}

/// A value is in a concatenation exactly if it is in one of the two parts.
proof fn lemma_concat_contains(a: Seq<usize>, b: Seq<usize>, v: usize)
    ensures
        (a + b).contains(v) <==> a.contains(v) || b.contains(v),
{
    let c = a + b;
    if a.contains(v) {
        let i = choose|i: int| 0 <= i < a.len() && a[i] == v;
        assert(c[i] == v);
    }
    if b.contains(v) {
        let i = choose|i: int| 0 <= i < b.len() && b[i] == v;
        assert(c[a.len() + i] == v);
    }
    if c.contains(v) {
        let i = choose|i: int| 0 <= i < c.len() && c[i] == v;
        if i < a.len() {
            assert(a[i] == v);
        } else {
            assert(b[i - a.len()] == v);
        }
    }
}

/// Removing repetitions keeps every value once.
pub proof fn lemma_first_occurrences(s: Seq<usize>)
    ensures
        first_occurrences(s).no_duplicates(),
        forall|v: usize| first_occurrences(s).contains(v) <==> s.contains(v),
    decreases s.len(),
{
    if s.len() > 0 {
        let p = s.drop_last();
        let f = first_occurrences(p);
        lemma_first_occurrences(p);
        assert(s =~= p + seq![s.last()]);
        assert forall|v: usize| first_occurrences(s).contains(v) <==> s.contains(v) by {
            lemma_concat_contains(p, seq![s.last()], v);
            lemma_concat_contains(f, seq![s.last()], v);
            assert(f.push(s.last()) =~= f + seq![s.last()]);
            assert(seq![s.last()][0] == s.last());
        }
    }
}

/// An id is among what the buckets under a row hold exactly if some tile of
/// the row falls into a bucket that holds it.
proof fn lemma_row_members(
    buckets: Seq<Seq<usize>>,
    mult: Vector2D<usize>,
    y: int,
    x0: int,
    x1: int,
    id: usize,
)
    ensures
        row_members(buckets, mult, y, x0, x1).contains(id) <==> exists|x: int|
            x0 <= x < x1 && buckets[#[trigger] bucket_of(mult, buckets.len(), x, y)].contains(id),
    decreases x1 - x0,
{
    if x1 > x0 {
        lemma_row_members(buckets, mult, y, x0, x1 - 1, id);
        let k = bucket_of(mult, buckets.len(), x1 - 1, y);
        lemma_concat_contains(row_members(buckets, mult, y, x0, x1 - 1), buckets[k], id);
    }
}

/// An id is among what the buckets under a box hold exactly if some tile of
/// the box falls into a bucket that holds it.
pub proof fn lemma_box_members(
    buckets: Seq<Seq<usize>>,
    mult: Vector2D<usize>,
    area: TileBox,
    id: usize,
)
    ensures
        area_members(buckets, mult, area).contains(id)
            <==> box_holds(buckets, mult, area, id),
{
    lemma_box_members_rows(
        buckets,
        mult,
        area.lo.x as int,
        area.hi.x as int,
        area.lo.y as int,
        area.hi.y as int,
        id,
    );
}

/// `lemma_box_members`, over the rows from `y0` up to `y1`.
proof fn lemma_box_members_rows(
    buckets: Seq<Seq<usize>>,
    mult: Vector2D<usize>,
    x0: int,
    x1: int,
    y0: int,
    y1: int,
    id: usize,
)
    ensures
        box_members(buckets, mult, x0, x1, y0, y1).contains(id) <==> exists|x: int, y: int|
            x0 <= x < x1 && y0 <= y < y1 && buckets[#[trigger] bucket_of(
                mult,
                buckets.len(),
                x,
                y,
            )].contains(id),
    decreases y1 - y0,
{
    if y1 > y0 {
        lemma_box_members_rows(buckets, mult, x0, x1, y0, y1 - 1, id);
        lemma_row_members(buckets, mult, y1 - 1, x0, x1, id);
        lemma_concat_contains(
            box_members(buckets, mult, x0, x1, y0, y1 - 1),
            row_members(buckets, mult, y1 - 1, x0, x1),
            id,
        );
    }
}

/// A row counts a hit for bucket `k` exactly if one of its tiles falls into it.
proof fn lemma_row_hits(mult: Vector2D<usize>, count: nat, k: int, y: int, x0: int, x1: int)
    ensures
        row_hits(mult, count, k, y, x0, x1) > 0 <==> exists|x: int|
            x0 <= x < x1 && #[trigger] bucket_of(mult, count, x, y) == k,
    decreases x1 - x0,
{
    if x1 > x0 {
        lemma_row_hits(mult, count, k, y, x0, x1 - 1);
    }
}

/// The rows from `y0` up to `y1` count a hit for bucket `k` exactly if one of
/// their tiles falls into it.
proof fn lemma_box_hits_rows(
    mult: Vector2D<usize>,
    count: nat,
    k: int,
    x0: int,
    x1: int,
    y0: int,
    y1: int,
)
    ensures
        box_hits(mult, count, k, x0, x1, y0, y1) > 0 <==> exists|x: int, y: int|
            x0 <= x < x1 && y0 <= y < y1 && #[trigger] bucket_of(mult, count, x, y) == k,
    decreases y1 - y0,
{
    if y1 > y0 {
        lemma_box_hits_rows(mult, count, k, x0, x1, y0, y1 - 1);
        lemma_row_hits(mult, count, k, y1 - 1, x0, x1);
    }
}

/// After an insertion a bucket holds what it held, and the inserted id if some
/// tile of the box falls into it.
pub proof fn lemma_with_pushed(
    buckets: Seq<Seq<usize>>,
    mult: Vector2D<usize>,
    id: usize,
    area: TileBox,
    k: int,
    v: usize,
)
    requires
        0 <= k < buckets.len(),
    ensures
        with_pushed(buckets, mult, id, area)[k].contains(v) <==> buckets[k].contains(v) || (v
            == id && box_reaches(mult, buckets.len(), area, k)),
{
    let h = area_hits(mult, buckets.len(), k, area);
    lemma_box_hits_rows(
        mult,
        buckets.len(),
        k,
        area.lo.x as int,
        area.hi.x as int,
        area.lo.y as int,
        area.hi.y as int,
    );
    lemma_concat_contains(buckets[k], copies(id, h), v);
    if h > 0 {
        assert(copies(id, h)[0] == id);
    }
}

/// A query on a grid that was just cleared, or just made, finds nothing,
/// whatever the buckets held in generations before.
pub proof fn lemma_cleared_grid_is_empty(count: nat, mult: Vector2D<usize>, area: TileBox)
    requires
        count > 0,
    ensures
        found(empty_buckets(count), mult, area) == Seq::<usize>::empty(),
{
    let b = empty_buckets(count);
    let r = found(b, mult, area);
    let m = area_members(b, mult, area);
    lemma_first_occurrences(m);
    assert forall|v: usize| !r.contains(v) by {
        lemma_box_members(b, mult, area, v);
        assert forall|x: int, y: int| in_box(area, x, y) implies !b[#[trigger] bucket_of(
            mult,
            b.len(),
            x,
            y,
        )].contains(v) by {
            lemma_bucket_in_range(mult, count, x, y);
            assert(b[bucket_of(mult, b.len(), x, y)] =~= Seq::<usize>::empty());
        }
    }
    if r.len() > 0 {
        assert(r.contains(r[0]));
    }
    assert(r =~= Seq::<usize>::empty());
}

/// A tile falls into one of the buckets.
pub proof fn lemma_bucket_in_range(mult: Vector2D<usize>, count: nat, x: int, y: int)
    requires
        count > 0,
    ensures
        0 <= bucket_of(mult, count, x, y) < count,
{
}

/// No false negatives, whatever the grid held: right after an id was inserted
/// over a box, a query over a box that shares a tile with it finds the id.
pub proof fn lemma_pushed_is_found(
    buckets: Seq<Seq<usize>>,
    mult: Vector2D<usize>,
    id: usize,
    area: TileBox,
    query: TileBox,
    x: int,
    y: int,
)
    requires
        buckets.len() > 0,
        in_box(area, x, y),
        in_box(query, x, y),
    ensures
        found(with_pushed(buckets, mult, id, area), mult, query).contains(id),
{
    let after = with_pushed(buckets, mult, id, area);
    let k = bucket_of(mult, buckets.len(), x, y);
    lemma_bucket_in_range(mult, buckets.len(), x, y);
    assert(box_reaches(mult, buckets.len(), area, k));
    lemma_with_pushed(buckets, mult, id, area, k, id);
    assert(after[bucket_of(mult, after.len(), x, y)].contains(id));
    lemma_box_members(after, mult, query, id);
    lemma_first_occurrences(
        area_members(after, mult, query),
    );
}

/// An insertion takes nothing away: what a query found before it, the same
/// query finds after it.
pub proof fn lemma_push_keeps_found(
    buckets: Seq<Seq<usize>>,
    mult: Vector2D<usize>,
    id: usize,
    area: TileBox,
    query: TileBox,
    v: usize,
)
    requires
        buckets.len() > 0,
        found(buckets, mult, query).contains(v),
    ensures
        found(with_pushed(buckets, mult, id, area), mult, query).contains(v),
{
    let after = with_pushed(buckets, mult, id, area);
    lemma_first_occurrences(
        area_members(buckets, mult, query),
    );
    lemma_box_members(buckets, mult, query, v);
    let (x, y) = choose|x: int, y: int|
        in_box(query, x, y) && buckets[#[trigger] bucket_of(mult, buckets.len(), x, y)].contains(v);
    let k = bucket_of(mult, buckets.len(), x, y);
    lemma_bucket_in_range(mult, buckets.len(), x, y);
    lemma_with_pushed(buckets, mult, id, area, k, v);
    assert(after[bucket_of(mult, after.len(), x, y)].contains(v));
    lemma_box_members(after, mult, query, v);
    lemma_first_occurrences(
        area_members(after, mult, query),
    );
}

/// Insertions keep the number of buckets.
pub proof fn lemma_after_insertions_len(
    buckets: Seq<Seq<usize>>,
    mult: Vector2D<usize>,
    run: Seq<Insertion>,
)
    ensures
        after_insertions(buckets, mult, run).len() == buckets.len(),
    decreases run.len(),
{
    if run.len() > 0 {
        lemma_after_insertions_len(buckets, mult, run.drop_last());
    }
}

/// After a run of insertions a bucket holds what it held before, and the id of
/// each insertion whose box reaches it.
pub proof fn lemma_bucket_after_insertions(
    buckets: Seq<Seq<usize>>,
    mult: Vector2D<usize>,
    run: Seq<Insertion>,
    k: int,
    v: usize,
)
    requires
        0 <= k < buckets.len(),
    ensures
        after_insertions(buckets, mult, run)[k].contains(v) <==> buckets[k].contains(v) || exists|
            i: int,
        |
            0 <= i < run.len() && (#[trigger] run[i]).id == v && box_reaches(
                mult,
                buckets.len(),
                run[i].area,
                k,
            ),
    decreases run.len(),
{
    if run.len() > 0 {
        let rest = run.drop_last();
        let last = run.last();
        let mid = after_insertions(buckets, mult, rest);
        lemma_bucket_after_insertions(buckets, mult, rest, k, v);
        lemma_after_insertions_len(buckets, mult, rest);
        lemma_with_pushed(mid, mult, last.id, last.area, k, v);
        if mid[k].contains(v) && !buckets[k].contains(v) {
            let i = choose|i: int|
                0 <= i < rest.len() && (#[trigger] rest[i]).id == v && box_reaches(
                    mult,
                    buckets.len(),
                    rest[i].area,
                    k,
                );
            assert(run[i] == rest[i]);
        }
        if v == last.id && box_reaches(mult, buckets.len(), last.area, k) {
            assert(run[run.len() - 1] == last);
        }
        if exists|i: int|
            0 <= i < run.len() && (#[trigger] run[i]).id == v && box_reaches(
                mult,
                buckets.len(),
                run[i].area,
                k,
            ) {
            let i = choose|i: int|
                0 <= i < run.len() && (#[trigger] run[i]).id == v && box_reaches(
                    mult,
                    buckets.len(),
                    run[i].area,
                    k,
                );
            if i < rest.len() {
                assert(rest[i] == run[i]);
            }
        }
    }
}

/// After a grid was cleared and then filled by a run of insertions, a query
/// finds an id exactly if the id was inserted over a box that meets the queried
/// box: no id that was inserted over a tile of the queried box is missed, and an
/// id from elsewhere is found only where the hash lets two tiles share a bucket.
pub proof fn lemma_query_after_insertions(
    count: nat,
    mult: Vector2D<usize>,
    run: Seq<Insertion>,
    area: TileBox,
    id: usize,
)
    requires
        count > 0,
    ensures
        found(after_insertions(empty_buckets(count), mult, run), mult, area).contains(id)
            <==> exists|i: int|
            0 <= i < run.len() && (#[trigger] run[i]).id == id && boxes_meet(
                mult,
                count,
                run[i].area,
                area,
            ),
{
    let b0 = empty_buckets(count);
    let b = after_insertions(b0, mult, run);
    lemma_after_insertions_len(b0, mult, run);
    let m = area_members(b, mult, area);
    lemma_first_occurrences(m);
    lemma_box_members(b, mult, area, id);
    if box_holds(b, mult, area, id) {
        let (x, y) = choose|x: int, y: int|
            in_box(area, x, y) && b[#[trigger] bucket_of(mult, b.len(), x, y)].contains(id);
        let k = bucket_of(mult, count, x, y);
        lemma_bucket_in_range(mult, count, x, y);
        lemma_bucket_after_insertions(b0, mult, run, k, id);
        assert(b0[k] =~= Seq::<usize>::empty());
        let i = choose|i: int|
            0 <= i < run.len() && (#[trigger] run[i]).id == id && box_reaches(
                mult,
                count,
                run[i].area,
                k,
            );
        assert(box_reaches(mult, count, area, k));
        assert(boxes_meet(mult, count, run[i].area, area));
    }
    if exists|i: int|
        0 <= i < run.len() && (#[trigger] run[i]).id == id && boxes_meet(
            mult,
            count,
            run[i].area,
            area,
        ) {
        let i = choose|i: int|
            0 <= i < run.len() && (#[trigger] run[i]).id == id && boxes_meet(
                mult,
                count,
                run[i].area,
                area,
            );
        let k = choose|k: int|
            box_reaches(mult, count, run[i].area, k) && box_reaches(mult, count, area, k);
        let (x, y) = choose|x: int, y: int|
            in_box(area, x, y) && #[trigger] bucket_of(mult, count, x, y) == k;
        lemma_bucket_in_range(mult, count, x, y);
        lemma_bucket_after_insertions(b0, mult, run, k, id);
        assert(b[bucket_of(mult, b.len(), x, y)].contains(id));
    }
}

/// No false negatives: an id inserted over a box is found by every later query,
/// in the same generation, over a box that shares a tile with it.
pub proof fn lemma_shared_tile_is_found(
    count: nat,
    mult: Vector2D<usize>,
    run: Seq<Insertion>,
    i: int,
    area: TileBox,
    x: int,
    y: int,
)
    requires
        count > 0,
        0 <= i < run.len(),
        in_box(run[i].area, x, y),
        in_box(area, x, y),
    ensures
        found(after_insertions(empty_buckets(count), mult, run), mult, area).contains(run[i].id),
{
    let k = bucket_of(mult, count, x, y);
    assert(box_reaches(mult, count, run[i].area, k));
    assert(box_reaches(mult, count, area, k));
    assert(boxes_meet(mult, count, run[i].area, area));
    lemma_query_after_insertions(count, mult, run, area, run[i].id);
}

} // verus!
