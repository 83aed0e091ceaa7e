//! A uniform hash grid over tiles.
//!
//! The plane is cut into square tiles, and each tile falls into one of a fixed
//! number of buckets by a hash of its coordinates. A bucket carries the stamp of
//! the generation in which it was last written; a bucket with an older stamp
//! counts as empty, so forgetting everything is one increment.
//!
//! All coordinates here are tile coordinates: a world coordinate divided by
//! the tile size and rounded down.

use crate::grid_laws::{lemma_box_members, lemma_first_occurrences};
use crate::vector::Vector2D;
use vstd::prelude::*;

verus! {

/// The hash of a tile: the two coordinates, each multiplied by its multiplier
/// modulo the word size, combined by exclusive or.
pub open spec fn tile_hash(tile: Vector2D<usize>, mult: Vector2D<usize>) -> usize {
    tile.x.wrapping_mul(mult.x) ^ tile.y.wrapping_mul(mult.y)
}

/// The bucket, among `count` of them, that the tile `(x, y)` falls into.
pub open spec fn bucket_of(mult: Vector2D<usize>, count: nat, x: int, y: int) -> int
    recommends
        count > 0,
{
    tile_hash(Vector2D { x: x as usize, y: y as usize }, mult) as int % count as int
}

/// A box of tiles: the tiles `(x, y)` with `lo.x <= x < hi.x` and
/// `lo.y <= y < hi.y`. A box whose upper corner is not beyond its lower corner
/// in both directions holds no tile.
#[derive(Copy, Clone, Debug)]
pub struct TileBox {
    pub lo: Vector2D<usize>,
    pub hi: Vector2D<usize>,
}

/// Whether `(x, y)` is a tile of the box `area`.
pub open spec fn in_box(area: TileBox, x: int, y: int) -> bool {
    area.lo.x <= x < area.hi.x && area.lo.y <= y < area.hi.y
}

/// How many tiles of the row `y`, from `x0` up to `x1`, fall into bucket `k`.
pub open spec fn row_hits(
    mult: Vector2D<usize>,
    count: nat,
    k: int,
    y: int,
    x0: int,
    x1: int,
) -> nat
    decreases x1 - x0,
{
    if x1 <= x0 {
        0
    } else {
        let rest = row_hits(mult, count, k, y, x0, x1 - 1);
        if bucket_of(mult, count, x1 - 1, y) == k {
            rest + 1
        } else {
            rest
        }
    }
}

/// How many tiles of the box fall into bucket `k`, over the rows from `y0` up
/// to `y1`.
pub open spec fn box_hits(
    mult: Vector2D<usize>,
    count: nat,
    k: int,
    x0: int,
    x1: int,
    y0: int,
    y1: int,
) -> nat
    decreases y1 - y0,
{
    if y1 <= y0 {
        0
    } else {
        box_hits(mult, count, k, x0, x1, y0, y1 - 1) + row_hits(mult, count, k, y1 - 1, x0, x1)
    }
}

/// How many tiles of the box `area` fall into bucket `k`.
pub open spec fn area_hits(mult: Vector2D<usize>, count: nat, k: int, area: TileBox) -> nat {
    box_hits(mult, count, k, area.lo.x as int, area.hi.x as int, area.lo.y as int, area.hi.y as int)
}

/// How many tiles of the rows of `area` above the row `y` fall into bucket `k`.
pub open spec fn hits_above(
    mult: Vector2D<usize>,
    count: nat,
    k: int,
    area: TileBox,
    y: int,
) -> nat {
    box_hits(mult, count, k, area.lo.x as int, area.hi.x as int, area.lo.y as int, y)
}

/// `n` copies of `id`.
pub open spec fn copies(id: usize, n: nat) -> Seq<usize> {
    Seq::new(n, |i: int| id)
}

/// The buckets after `id` was inserted over the box `area`: each
/// bucket gains one copy of `id` for every tile of the box that falls into it.
pub open spec fn with_pushed(
    buckets: Seq<Seq<usize>>,
    mult: Vector2D<usize>,
    id: usize,
    area: TileBox,
) -> Seq<Seq<usize>> {
    Seq::new(
        buckets.len(),
        |k: int|
            buckets[k] + copies(
                id,
                area_hits(mult, buckets.len(), k, area),
            ),
    )
}

/// What the buckets under the row `y` hold, tile after tile from `x0` up to
/// `x1`.
pub open spec fn row_members(
    buckets: Seq<Seq<usize>>,
    mult: Vector2D<usize>,
    y: int,
    x0: int,
    x1: int,
) -> Seq<usize>
    decreases x1 - x0,
{
    if x1 <= x0 {
        Seq::empty()
    } else {
        row_members(buckets, mult, y, x0, x1 - 1) + buckets[bucket_of(
            mult,
            buckets.len(),
            x1 - 1,
            y,
        )]
    }
}

/// What the buckets under a box hold, row after row from `y0` up to `y1`.
pub open spec fn box_members(
    buckets: Seq<Seq<usize>>,
    mult: Vector2D<usize>,
    x0: int,
    x1: int,
    y0: int,
    y1: int,
) -> Seq<usize>
    decreases y1 - y0,
{
    if y1 <= y0 {
        Seq::empty()
    } else {
        box_members(buckets, mult, x0, x1, y0, y1 - 1) + row_members(buckets, mult, y1 - 1, x0, x1)
    }
}

/// What the buckets under the box `area` hold, tile after tile and row
/// after row.
pub open spec fn area_members(
    buckets: Seq<Seq<usize>>,
    mult: Vector2D<usize>,
    area: TileBox,
) -> Seq<usize> {
    box_members(
        buckets,
        mult,
        area.lo.x as int,
        area.hi.x as int,
        area.lo.y as int,
        area.hi.y as int,
    )
}

/// What the buckets under the rows of `area` above the row `y` hold.
pub open spec fn members_above(
    buckets: Seq<Seq<usize>>,
    mult: Vector2D<usize>,
    area: TileBox,
    y: int,
) -> Seq<usize> {
    box_members(buckets, mult, area.lo.x as int, area.hi.x as int, area.lo.y as int, y)
}

/// `s` with every repetition removed: each value stays where it first stood.
pub open spec fn first_occurrences(s: Seq<usize>) -> Seq<usize>
    decreases s.len(),
{
    if s.len() == 0 {
        s
    } else {
        let before = first_occurrences(s.drop_last());
        if before.contains(s.last()) {
            before
        } else {
            before.push(s.last())
        }
    }
}

/// What a query over the box `area` returns on the buckets
/// `buckets`.
pub open spec fn found(
    buckets: Seq<Seq<usize>>,
    mult: Vector2D<usize>,
    area: TileBox,
) -> Seq<usize> {
    first_occurrences(
        area_members(buckets, mult, area),
    )
}

/// A row that ends at or before its start counts as it would if it ended at
/// its start.
proof fn lemma_row_hits_stop(mult: Vector2D<usize>, count: nat, y: int, x0: int, x: int, x1: int)
    requires
        x == x1 || (x == x0 && x1 <= x0),
    ensures
        forall|k: int|
            row_hits(mult, count, k, y, x0, x) == #[trigger] row_hits(mult, count, k, y, x0, x1),
{
}

/// A box that ends at or before its first row counts as it would if it ended
/// at its first row.
proof fn lemma_box_hits_stop(
    mult: Vector2D<usize>,
    count: nat,
    x0: int,
    x1: int,
    y0: int,
    y: int,
    y1: int,
)
    requires
        y == y1 || (y == y0 && y1 <= y0),
    ensures
        forall|k: int|
            box_hits(mult, count, k, x0, x1, y0, y)
                == #[trigger] box_hits(mult, count, k, x0, x1, y0, y1),
{
}

/// A row that ends at or before its start holds what it would if it ended at
/// its start.
proof fn lemma_row_members_stop(
    buckets: Seq<Seq<usize>>,
    mult: Vector2D<usize>,
    y: int,
    x0: int,
    x: int,
    x1: int,
)
    requires
        x == x1 || (x == x0 && x1 <= x0),
    ensures
        row_members(buckets, mult, y, x0, x) == row_members(buckets, mult, y, x0, x1),
{
}

/// A box that ends at or before its first row holds what it would if it ended
/// at its first row.
proof fn lemma_box_members_stop(
    buckets: Seq<Seq<usize>>,
    mult: Vector2D<usize>,
    x0: int,
    x1: int,
    y0: int,
    y: int,
    y1: int,
)
    requires
        y == y1 || (y == y0 && y1 <= y0),
    ensures
        box_members(buckets, mult, x0, x1, y0, y) == box_members(buckets, mult, x0, x1, y0, y1),
{
}

/// `n` buckets that hold nothing.
pub open spec fn empty_buckets(n: nat) -> Seq<Seq<usize>> {
    Seq::new(n, |i: int| Seq::<usize>::empty())
}

/// Whether some tile of the box `area` falls into a bucket that
/// holds `id`.
pub open spec fn box_holds(
    buckets: Seq<Seq<usize>>,
    mult: Vector2D<usize>,
    area: TileBox,
    id: usize,
) -> bool {
    exists|x: int, y: int|
        in_box(area, x, y) && buckets[#[trigger] bucket_of(mult, buckets.len(), x, y)].contains(
            id,
        )
}

/// Whether `id` is among `v`.
fn holds(v: &Vec<usize>, id: usize) -> (r: bool)
    ensures
        r == v@.contains(id),
{
    let mut i: usize = 0;
    while i < v.len()
        invariant
            i <= v.len(),
            forall|k: int| 0 <= k < i ==> v@[k] != id,
        decreases v.len() - i,
    {
        if v[i] == id {
            return true;
        }
        i += 1;
    }
    false
}

/// One bucket: the ids it was given in the generation `stamp`.
#[derive(Debug)]
struct Tile {
    members: Vec<usize>,
    stamp: usize,
}

/// The grid: its buckets, their number, the multipliers of the hash, and the
/// generation it is in.
pub struct SpatialGrid {
    grid: Vec<Tile>,
    grid_size: usize,
    hash: Vector2D<usize>,
    current_stamp: usize,
}

impl View for SpatialGrid {
    type V = Seq<Seq<usize>>;

    /// What each bucket holds now, in the order of insertion. A bucket that was
    /// last written in an earlier generation holds nothing.
    closed spec fn view(&self) -> Seq<Seq<usize>> {
        Seq::new(
            self.grid@.len(),
            |i: int|
                if self.grid@[i].stamp == self.current_stamp {
                    self.grid@[i].members@
                } else {
                    Seq::empty()
                },
        )
    }
}

impl SpatialGrid {
    /// No bucket is ahead of the grid's generation.
    pub closed spec fn wf(&self) -> bool {
        &&& self.grid@.len() == self.grid_size
        &&& forall|i: int|
            0 <= i < self.grid@.len() ==> (#[trigger] self.grid@[i]).stamp <= self.current_stamp
    }

    /// The number of buckets.
    pub open spec fn bucket_count(&self) -> nat {
        self@.len()
    }

    /// The two multipliers of the tile hash.
    pub closed spec fn multipliers(&self) -> Vector2D<usize> {
        self.hash
    }

    /// The generation the grid is in.
    pub closed spec fn stamp(&self) -> usize {
        self.current_stamp
    }

    /// A grid of `grid_size` empty buckets in generation zero.
    pub fn new(grid_size: usize, hash: Vector2D<usize>) -> (r: Self)
        ensures
            r.wf(),
            r.bucket_count() == grid_size,
            r.multipliers() == hash,
            r.stamp() == 0,
            r@ == empty_buckets(grid_size as nat),
    {
        let mut grid: Vec<Tile> = Vec::new();
        let mut i: usize = 0;
        while i < grid_size
            invariant
                i <= grid_size,
                grid@.len() == i,
                forall|k: int|
                    0 <= k < i ==> (#[trigger] grid@[k]).stamp == 0
                        && grid@[k].members@ == Seq::<usize>::empty(),
            decreases grid_size - i,
        {
            grid.push(Tile { members: Vec::new(), stamp: 0 });
            i += 1;
        }
        let r = Self { grid, grid_size, hash, current_stamp: 0 };
        assert(r@ =~= empty_buckets(grid_size as nat));
        r
    }

    /// The generation the grid is in.
    pub fn current_stamp(&self) -> (r: usize)
        ensures
            r == self.stamp(),
    {
        self.current_stamp
    }

    /// The hash of `tile`.
    fn hash_tile(&self, tile: Vector2D<usize>) -> (r: usize)
        ensures
            r == tile_hash(tile, self.multipliers()),
    {
        tile.x.wrapping_mul(self.hash.x) ^ tile.y.wrapping_mul(self.hash.y)
    }

    /// The bucket that a hash falls into.
    fn get_index(&self, hashed: usize) -> (r: usize)
        requires
            self.wf(),
            self.bucket_count() > 0,
        ensures
            r == hashed as int % self.bucket_count() as int,
    {
        hashed % self.grid_size
    }

    /// Appends `id` to the bucket at `index`, after emptying the bucket if it was
    /// last written in an earlier generation. An index without a bucket is passed
    /// over.
    fn push_tile(&mut self, index: usize, id: usize)
        requires
            old(self).wf(),
        ensures
            final(self).wf(),
            final(self).bucket_count() == old(self).bucket_count(),
            final(self).multipliers() == old(self).multipliers(),
            final(self).stamp() == old(self).stamp(),
            index < old(self).bucket_count() ==> final(self)@ == old(self)@.update(
                index as int,
                old(self)@[index as int].push(id),
            ),
            index >= old(self).bucket_count() ==> final(self)@ == old(self)@,
    {
        if index >= self.grid.len() {
            assert(self@ =~= old(self)@);
            return ;
        }
        let stamp = self.current_stamp;
        let tile: &mut Tile = &mut self.grid[index];
        if tile.stamp != stamp {
            tile.members.clear();
            tile.stamp = stamp;
        }
        tile.members.push(id);
        assert(self@ =~= old(self)@.update(index as int, old(self)@[index as int].push(id)));
    }

    /// Inserts `id` under every tile of the box `area`.
    pub fn push(&mut self, id: usize, area: TileBox)
        requires
            old(self).wf(),
            old(self).bucket_count() > 0,
        ensures
            final(self).wf(),
            final(self).multipliers() == old(self).multipliers(),
            final(self).stamp() == old(self).stamp(),
            final(self)@ == with_pushed(old(self)@, old(self).multipliers(), id, area),
    {
        let ghost before = self@;
        let ghost mult = self.multipliers();
        let ghost n = before.len();
        let mut y: usize = area.lo.y;
        while y < area.hi.y
            invariant
                self.wf(),
                self.multipliers() == mult,
                self.stamp() == old(self).stamp(),
                n > 0,
                self@.len() == n,
                before.len() == n,
                area.lo.y <= y,
                y == area.lo.y || y <= area.hi.y,
                forall|k: int|
                    0 <= k < n ==> #[trigger] self@[k] == before[k] + copies(
                        id,
                        hits_above(mult, n, k, area, y as int),
                    ),
            decreases area.hi.y - y,
        {
            let mut x: usize = area.lo.x;
            while x < area.hi.x
                invariant
                    self.wf(),
                    self.multipliers() == mult,
                    self.stamp() == old(self).stamp(),
                    n > 0,
                    self@.len() == n,
                    before.len() == n,
                    area.lo.y <= y < area.hi.y,
                    area.lo.x <= x,
                    x == area.lo.x || x <= area.hi.x,
                    forall|k: int|
                        0 <= k < n ==> #[trigger] self@[k] == before[k] + copies(
                            id,
                            hits_above(mult, n, k, area, y as int)
                                + row_hits(mult, n, k, y as int, area.lo.x as int, x as int),
                        ),
                decreases area.hi.x - x,
            {
                let hashed = self.hash_tile(Vector2D { x, y });
                let index = self.get_index(hashed);
                let ghost prev = self@;
                self.push_tile(index, id);
                proof {
                    assert(index as int == bucket_of(mult, n, x as int, y as int));
                    assert forall|k: int| 0 <= k < n implies #[trigger] self@[k] == before[k]
                        + copies(
                        id,
                        hits_above(mult, n, k, area, y as int)
                            + row_hits(mult, n, k, y as int, area.lo.x as int, x + 1),
                    ) by {
                        let h = hits_above(mult, n, k, area, y as int)
                            + row_hits(mult, n, k, y as int, area.lo.x as int, x as int);
                        assert(prev[k] == before[k] + copies(id, h));
                        if k == index {
                            assert(self@[k] =~= before[k] + copies(id, h + 1));
                        }
                    }
                }
                x += 1;
            }
            proof {
                lemma_row_hits_stop(
                    mult,
                    n,
                    y as int,
                    area.lo.x as int,
                    x as int,
                    area.hi.x as int,
                );
            }
            y += 1;
        }
        proof {
            lemma_box_hits_stop(
                mult,
                n,
                area.lo.x as int,
                area.hi.x as int,
                area.lo.y as int,
                y as int,
                area.hi.y as int,
            );
            assert(self@ =~= with_pushed(before, mult, id, area));
        }
    }

    /// Forgets every insertion, by moving on to the next generation.
    pub fn clear(&mut self)
        requires
            old(self).wf(),
            old(self).stamp() < usize::MAX,
        ensures
            final(self).wf(),
            final(self).multipliers() == old(self).multipliers(),
            final(self).stamp() == old(self).stamp() + 1,
            final(self)@ == empty_buckets(old(self).bucket_count()),
    {
        self.current_stamp += 1;
        assert(self@ =~= empty_buckets(old(self).bucket_count()));
    }

    /// What the bucket at `index` holds, if it was written in this generation.
    fn get_tile(&self, index: usize) -> (r: Option<&Vec<usize>>)
        requires
            self.wf(),
        ensures
            index < self.bucket_count() ==> match r {
                Some(members) => members@ == self@[index as int],
                None => self@[index as int] == Seq::<usize>::empty(),
            },
            index >= self.bucket_count() ==> r.is_none(),
    {
        if index >= self.grid.len() {
            return None;
        }
        let tile: &Tile = &self.grid[index];
        if tile.stamp != self.current_stamp {
            None
        } else {
            Some(&tile.members)
        }
    }

    /// The ids held under the tiles of the box `area`, each once, in
    /// the order in which the tiles, row after row, first bring them.
    pub fn get(&self, area: TileBox) -> (r: Vec<usize>)
        requires
            self.wf(),
            self.bucket_count() > 0,
        ensures
            r@ == found(self@, self.multipliers(), area),
            r@.no_duplicates(),
            forall|id: usize|
                r@.contains(id) <==> box_holds(self@, self.multipliers(), area, id),
    {
        let mut sum: Vec<usize> = Vec::new();
        let ghost mult = self.multipliers();
        let ghost seen: Seq<usize> = Seq::empty();
        let mut y: usize = area.lo.y;
        while y < area.hi.y
            invariant
                self.wf(),
                self.bucket_count() > 0,
                mult == self.multipliers(),
                area.lo.y <= y,
                y == area.lo.y || y <= area.hi.y,
                sum@ == first_occurrences(seen),
                seen == members_above(self@, mult, area, y as int),
            decreases area.hi.y - y,
        {
            let ghost rows = seen;
            let mut x: usize = area.lo.x;
            proof {
                assert(seen =~= rows + row_members(
                    self@,
                    mult,
                    y as int,
                    area.lo.x as int,
                    x as int,
                ));
            }
            while x < area.hi.x
                invariant
                    self.wf(),
                    self.bucket_count() > 0,
                    mult == self.multipliers(),
                    area.lo.y <= y < area.hi.y,
                    area.lo.x <= x,
                    x == area.lo.x || x <= area.hi.x,
                    sum@ == first_occurrences(seen),
                    seen == rows + row_members(self@, mult, y as int, area.lo.x as int, x as int),
                decreases area.hi.x - x,
            {
                let hashed = self.hash_tile(Vector2D { x, y });
                let index = self.get_index(hashed);
                let ghost row = seen;
                let ghost bucket = self@[index as int];
                assert(index as int == bucket_of(mult, self@.len(), x as int, y as int));
                match self.get_tile(index) {
                    Some(tile) => {
                        let mut j: usize = 0;
                        proof {
                            assert(seen =~= row + bucket.take(0));
                        }
                        while j < tile.len()
                            invariant
                                j <= tile.len(),
                                tile@ == bucket,
                                sum@ == first_occurrences(seen),
                                seen == row + bucket.take(j as int),
                            decreases tile.len() - j,
                        {
                            let id = tile[j];
                            proof {
                                let next = row + bucket.take(j + 1);
                                assert(next.drop_last() =~= seen);
                                assert(next.last() == id);
                                seen = next;
                            }
                            if !holds(&sum, id) {
                                sum.push(id);
                            }
                            j += 1;
                        }
                        assert(bucket.take(j as int) =~= bucket);
                    },
                    None => {
                        assert(row + bucket =~= row);
                    },
                }
                assert(seen =~= rows + row_members(self@, mult, y as int, area.lo.x as int, x + 1));
                x += 1;
            }
            proof {
                lemma_row_members_stop(
                    self@,
                    mult,
                    y as int,
                    area.lo.x as int,
                    x as int,
                    area.hi.x as int,
                );
            }
            y += 1;
        }
        proof {
            lemma_box_members_stop(
                self@,
                mult,
                area.lo.x as int,
                area.hi.x as int,
                area.lo.y as int,
                y as int,
                area.hi.y as int,
            );
            lemma_first_occurrences(seen);
            assert forall|id: usize| sum@.contains(id) <==> box_holds(
                self@,
                mult,
                area,
                id,
            ) by {
                lemma_box_members(self@, mult, area, id);
            }
        }
        sum
    }
}

} // verus!
