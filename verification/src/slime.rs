//! The bookkeeping of a soft body: its cells and their links, the one cell
//! that may be held, and the grid that finds neighbours.
//!
//! The body is generic in its scalar `T`. Nothing here computes with a scalar:
//! positions, velocities and lengths are stored and handed back as they came.
//! What is decided here is which cell may move, which cell is held, which pairs
//! of cells are looked at, and that the grid speaks of the cells by their
//! indices.

use crate::frame::{packed, rgb, Frame};
use crate::grid_laws::{after_insertions, lemma_after_insertions_len, Insertion};
use crate::slime_laws::{
    lemma_after_input_valid, lemma_found_are_cells, lemma_repopulated_valid, lemma_with_bonds,
};
use crate::spatial_grid::{empty_buckets, found, SpatialGrid, TileBox};
use crate::vector::Vector2D;
use vstd::prelude::*;

verus! {

/// A link from a cell to a neighbour of higher index, with the distance that
/// the two were apart when the body was made.
#[derive(Copy, Clone, Debug)]
pub struct Link<T> {
    pub neighbor: usize,
    pub rest_length: T,
}

/// A link to be made when a body is made: the two cells, in rising order of
/// index, and the distance they are to keep.
#[derive(Copy, Clone, Debug)]
pub struct Bond<T> {
    pub first: usize,
    pub second: usize,
    pub rest_length: T,
}

/// A point mass.
pub struct SlimeCell<T> {
    pos: Vector2D<T>,
    speed: Vector2D<T>,
    size: T,
    fix: bool,
    links: Vec<Link<T>>,
}

/// What a cell is.
pub struct CellView<T> {
    pub pos: Vector2D<T>,
    pub speed: Vector2D<T>,
    pub size: T,
    pub fix: bool,
    pub links: Seq<Link<T>>,
}

impl<T> View for SlimeCell<T> {
    type V = CellView<T>;

    /// The cell as plain values.
    closed spec fn view(&self) -> CellView<T> {
        CellView {
            pos: self.pos,
            speed: self.speed,
            size: self.size,
            fix: self.fix,
            links: self.links@,
        }
    }
}

impl<T: Copy> SlimeCell<T> {
    /// A free cell without links.
    pub fn new(pos: Vector2D<T>, speed: Vector2D<T>, size: T) -> (r: Self)
        ensures
            r@ == (CellView { pos, speed, size, fix: false, links: Seq::empty() }),
    {
        Self { pos, speed, size, fix: false, links: Vec::new() }
    }

    /// The same cell, held.
    pub fn with_fix(self) -> (r: Self)
        ensures
            r@ == (CellView { fix: true, ..self@ }),
    {
        let mut r = self;
        r.fix = true;
        r
    }

    /// Where the cell is.
    pub fn position(&self) -> (r: Vector2D<T>)
        ensures
            r == self@.pos,
    {
        self.pos
    }

    /// How fast the cell moves, and where to.
    pub fn velocity(&self) -> (r: Vector2D<T>)
        ensures
            r == self@.speed,
    {
        self.speed
    }

    /// The radius of the cell.
    pub fn radius(&self) -> (r: T)
        ensures
            r == self@.size,
    {
        self.size
    }

    /// Whether the cell is held.
    pub fn pinned(&self) -> (r: bool)
        ensures
            r == self@.fix,
    {
        self.fix
    }

    /// The links of the cell, in the order in which they were made.
    pub fn links(&self) -> (r: &Vec<Link<T>>)
        ensures
            r@ == self@.links,
    {
        &self.links
    }

    /// Draws the cell as one pixel at `pixel`: red when held, green when free.
    /// A cell without a pixel, or with one outside the frame, is not drawn.
    pub fn draw(&self, frame: &mut Frame, pixel: Option<Vector2D<usize>>)
        requires
            old(frame).wf(),
        ensures
            final(frame).wf(),
            final(frame).width == old(frame).width,
            final(frame).height == old(frame).height,
            final(frame).buffer@ == with_cell(
                old(frame).buffer@,
                old(frame).width,
                old(frame).height,
                self@.fix,
                pixel,
            ),
    {
        match pixel {
            Some(at) => {
                frame.plot(at.x, at.y, cell_color(self.fix));
            },
            None => {},
        }
    }
}

/// A soft body: its cells, the cell that is held, if any, the point the
/// cells fall towards while none is held, the mean radius the body tends to,
/// and the grid over its cells.
pub struct Slime<T> {
    cells: Vec<SlimeCell<T>>,
    pinch: Option<usize>,
    anchor: Vector2D<T>,
    target_radius: T,
    grid: SpatialGrid,
}

/// The cells as plain values.
pub open spec fn views<T>(cells: Seq<SlimeCell<T>>) -> Seq<CellView<T>> {
    Seq::new(cells.len(), |i: int| cells[i]@)
}

/// What a body is.
pub struct SlimeView<T> {
    pub cells: Seq<CellView<T>>,
    pub pinch: Option<usize>,
    pub anchor: Vector2D<T>,
    pub target_radius: T,
    /// What each bucket of the grid holds.
    pub buckets: Seq<Seq<usize>>,
    /// The two multipliers of the grid's hash.
    pub multipliers: Vector2D<usize>,
    /// The generation the grid is in.
    pub stamp: usize,
}

impl<T> View for Slime<T> {
    type V = SlimeView<T>;

    /// The body as plain values.
    closed spec fn view(&self) -> SlimeView<T> {
        SlimeView {
            cells: views(self.cells@),
            pinch: self.pinch,
            anchor: self.anchor,
            target_radius: self.target_radius,
            buckets: self.grid@,
            multipliers: self.grid.multipliers(),
            stamp: self.grid.stamp(),
        }
    }
}

/// Whether the cell at `index` is the held one.
pub open spec fn held<T>(v: SlimeView<T>, index: int) -> bool {
    v.pinch matches Some(p) && p == index
}

/// What holds of every body: its cells can be counted in a machine word; the
/// grid has a bucket, and every id in it is the index of a cell; the held
/// cell exists, and is the one cell marked as held; a link leads from a cell
/// to a cell of higher index.
pub open spec fn valid<T>(v: SlimeView<T>) -> bool {
    &&& v.cells.len() <= usize::MAX
    &&& v.buckets.len() > 0
    &&& forall|k: int, j: int|
        0 <= k < v.buckets.len() && 0 <= j < v.buckets[k].len() ==> (#[trigger] v.buckets[k][j])
            < v.cells.len()
    &&& v.pinch matches Some(p) ==> p < v.cells.len()
    &&& forall|i: int|
        0 <= i < v.cells.len() ==> ((#[trigger] v.cells[i]).fix <==> held(v, i))
    &&& forall|i: int, k: int|
        0 <= i < v.cells.len() && 0 <= k < v.cells[i].links.len() ==> i < (
        #[trigger] v.cells[i].links[k]).neighbor < v.cells.len()
}

/// Free cells without links, one at each position.
pub open spec fn fresh_cells<T>(
    positions: Seq<Vector2D<T>>,
    speed: Vector2D<T>,
    size: T,
) -> Seq<CellView<T>> {
    Seq::new(
        positions.len(),
        |i: int| CellView { pos: positions[i], speed, size, fix: false, links: Seq::empty() },
    )
}

/// The cells after one bond was made: the first cell of the bond has one link
/// more, to the second. A bond that is not of two cells in rising order makes
/// no link.
pub open spec fn bonded<T>(cells: Seq<CellView<T>>, bond: Bond<T>) -> Seq<CellView<T>> {
    if bond.first < bond.second < cells.len() {
        let cell = cells[bond.first as int];
        let link = Link { neighbor: bond.second, rest_length: bond.rest_length };
        cells.update(bond.first as int, CellView { links: cell.links.push(link), ..cell })
    } else {
        cells
    }
}

/// The cells after the bonds `bonds` were made, one after the other.
pub open spec fn with_bonds<T>(cells: Seq<CellView<T>>, bonds: Seq<Bond<T>>) -> Seq<CellView<T>>
    decreases bonds.len(),
{
    if bonds.len() == 0 {
        cells
    } else {
        bonded(with_bonds(cells, bonds.drop_last()), bonds.last())
    }
}

impl<T: Copy> Slime<T> {
    /// The grid of the body is in order.
    pub closed spec fn grid_wf(&self) -> bool {
        self.grid.wf()
    }

    /// The invariant of a body.
    pub open spec fn wf(&self) -> bool {
        &&& self.grid_wf()
        &&& valid(self@)
    }

    /// A body of free cells, one at each of `positions`, all of radius
    /// `cell_size` and velocity `speed`, linked as `bonds` say, over an empty
    /// grid of `grid_size.x * grid_size.y` buckets.
    pub fn new(
        grid_size: Vector2D<usize>,
        hash: Vector2D<usize>,
        anchor: Vector2D<T>,
        positions: &Vec<Vector2D<T>>,
        speed: Vector2D<T>,
        cell_size: T,
        bonds: &Vec<Bond<T>>,
        target_radius: T,
    ) -> (r: Self)
        requires
            0 < grid_size.x * grid_size.y <= usize::MAX,
        ensures
            r.wf(),
            r@ == (SlimeView {
                cells: with_bonds(fresh_cells(positions@, speed, cell_size), bonds@),
                pinch: None,
                anchor,
                target_radius,
                buckets: empty_buckets((grid_size.x * grid_size.y) as nat),
                multipliers: hash,
                stamp: 0,
            }),
    {
        let mut cells: Vec<SlimeCell<T>> = Vec::new();
        let mut i: usize = 0;
        while i < positions.len()
            invariant
                i <= positions.len(),
                cells@.len() == i,
                forall|k: int|
                    0 <= k < i ==> (#[trigger] cells@[k])@ == (CellView {
                        pos: positions@[k],
                        speed,
                        size: cell_size,
                        fix: false,
                        links: Seq::empty(),
                    }),
            decreases positions.len() - i,
        {
            cells.push(SlimeCell::new(positions[i], speed, cell_size));
            i += 1;
        }
        let ghost fresh = fresh_cells(positions@, speed, cell_size);
        assert(views(cells@) =~= fresh);
        let mut k: usize = 0;
        assert(bonds@.take(0) =~= Seq::<Bond<T>>::empty());
        while k < bonds.len()
            invariant
                k <= bonds.len(),
                views(cells@) == with_bonds(fresh, bonds@.take(k as int)),
            decreases bonds.len() - k,
        {
            let bond = bonds[k];
            let ghost before = views(cells@);
            if bond.first < bond.second && bond.second < cells.len() {
                let link = Link { neighbor: bond.second, rest_length: bond.rest_length };
                cells[bond.first].links.push(link);
            }
            proof {
                assert(bonds@.take(k + 1).drop_last() =~= bonds@.take(k as int));
                assert(views(cells@) =~= bonded(before, bond));
            }
            k += 1;
        }
        let grid = SpatialGrid::new(grid_size.x * grid_size.y, hash);
        let r = Self { cells, pinch: None, anchor, target_radius, grid };
        proof {
            assert(bonds@.take(k as int) =~= bonds@);
            lemma_with_bonds(fresh, bonds@);
            assert(r@.cells =~= with_bonds(fresh, bonds@));
        }
        r
    }

    /// The number of cells.
    pub fn len(&self) -> (r: usize)
        ensures
            r == self@.cells.len(),
    {
        self.cells.len()
    }

    /// Whether `index` is the index of a cell.
    pub fn valid_cell(&self, index: usize) -> (r: bool)
        ensures
            r == (index < self@.cells.len()),
    {
        index < self.cells.len()
    }

    /// The cell at `index`, if there is one.
    pub fn cell(&self, index: usize) -> (r: Option<&SlimeCell<T>>)
        ensures
            index < self@.cells.len() ==> (r matches Some(c) && c@ == self@.cells[index as int]),
            index >= self@.cells.len() ==> r is None,
    {
        if index < self.cells.len() {
            Some(&self.cells[index])
        } else {
            None
        }
    }

    /// The two cells at two different indices, if both exist.
    pub fn get_two_cell(&self, index1: usize, index2: usize) -> (r: Option<
        (&SlimeCell<T>, &SlimeCell<T>),
    >)
        ensures
            two_cells(self@, index1, index2) ==> (r matches Some(pair) && pair.0@
                == self@.cells[index1 as int] && pair.1@ == self@.cells[index2 as int]),
            !two_cells(self@, index1, index2) ==> r is None,
    {
        if index1 == index2 {
            None
        } else if index1 < self.cells.len() && index2 < self.cells.len() {
            Some((&self.cells[index1], &self.cells[index2]))
        } else {
            None
        }
    }

    /// The index of the held cell, if one is held.
    pub fn pinch(&self) -> (r: Option<usize>)
        ensures
            r == self@.pinch,
    {
        self.pinch
    }

    /// The mean radius the body tends to.
    pub fn target_radius(&self) -> (r: T)
        ensures
            r == self@.target_radius,
    {
        self.target_radius
    }

    /// The generation the grid is in.
    pub fn stamp(&self) -> (r: usize)
        ensures
            r == self@.stamp,
    {
        self.grid.current_stamp()
    }

    /// The point the free cells fall towards: the held cell if one is held, the
    /// body's own anchor if none is.
    pub fn anchor(&self) -> (r: Vector2D<T>)
        requires
            self.wf(),
        ensures
            r == attractor(self@),
    {
        match self.pinch {
            Some(p) => self.cells[p].pos,
            None => self.anchor,
        }
    }

    /// Moves the cell at `index` to `to`. A held cell stays where it is, and
    /// an index without a cell is passed over.
    pub fn displace(&mut self, index: usize, to: Vector2D<T>)
        requires
            old(self).wf(),
        ensures
            final(self).wf(),
            final(self)@ == displaced(old(self)@, index, to),
    {
        if index < self.cells.len() {
            if !self.cells[index].fix {
                self.cells[index].pos = to;
            }
        }
        assert(self@.cells =~= displaced(old(self)@, index, to).cells);
    }

    /// Gives the cell at `index` the velocity `speed` and moves it to `to`. A
    /// held cell keeps both as they are, and an index without a cell is passed
    /// over.
    pub fn integrate(&mut self, index: usize, speed: Vector2D<T>, to: Vector2D<T>)
        requires
            old(self).wf(),
        ensures
            final(self).wf(),
            final(self)@ == integrated(old(self)@, index, speed, to),
    {
        if index < self.cells.len() {
            if !self.cells[index].fix {
                self.cells[index].speed = speed;
                self.cells[index].pos = to;
            }
        }
        assert(self@.cells =~= integrated(old(self)@, index, speed, to).cells);
    }

    /// Forgets what the grid held and inserts every cell that has a box in
    /// `areas`, each under its own index over its own box.
    pub fn repopulate(&mut self, areas: &Vec<TileBox>)
        requires
            old(self).wf(),
            old(self)@.stamp < usize::MAX,
        ensures
            final(self).wf(),
            final(self)@ == repopulated(old(self)@, areas@),
    {
        self.grid.clear();
        let ghost n = self.grid@.len();
        let ghost mult = self.grid.multipliers();
        let ghost run = insertions(old(self)@.cells.len(), areas@);
        let mut i: usize = 0;
        assert(run.take(0) =~= Seq::<Insertion>::empty());
        while i < self.cells.len() && i < areas.len()
            invariant
                self.grid.wf(),
                self.cells == old(self).cells,
                self.pinch == old(self).pinch,
                self.anchor == old(self).anchor,
                self.target_radius == old(self).target_radius,
                self.grid.multipliers() == mult,
                self.grid.stamp() == old(self)@.stamp + 1,
                n == old(self)@.buckets.len(),
                n > 0,
                self.grid@.len() == n,
                run == insertions(old(self)@.cells.len(), areas@),
                i <= run.len(),
                self.grid@ == after_insertions(empty_buckets(n), mult, run.take(i as int)),
            decreases areas.len() - i,
        {
            self.grid.push(i, areas[i]);
            proof {
                let next = run.take(i + 1);
                assert(next.drop_last() =~= run.take(i as int));
                assert(next.last() == Insertion { id: i, area: areas@[i as int] });
                lemma_after_insertions_len(empty_buckets(n), mult, next);
            }
            i += 1;
        }
        proof {
            assert(run.take(i as int) =~= run);
            assert(self@.cells =~= old(self)@.cells);
            assert(self@ == repopulated(old(self)@, areas@));
            lemma_repopulated_valid(old(self)@, areas@);
        }
    }

    /// The cells that the grid finds over `area`, each once, in the order in
    /// which the grid brings them.
    pub fn query(&self, area: TileBox) -> (r: Vec<usize>)
        requires
            self.wf(),
        ensures
            r@ == found(self@.buckets, self@.multipliers, area),
            forall|i: int| 0 <= i < r@.len() ==> r@[i] < self@.cells.len(),
    {
        let r = self.grid.get(area);
        proof {
            lemma_found_are_cells(self@, area);
        }
        r
    }

    /// The neighbours of the cell at `index` that the grid finds over `area`:
    /// the cells of higher index, so that a pair is looked at once, in the
    /// order in which the grid brings them. An id without a cell is passed over.
    pub fn candidates(&self, index: usize, area: TileBox) -> (r: Vec<usize>)
        requires
            self.wf(),
        ensures
            r@ == between(
                found(self@.buckets, self@.multipliers, area),
                index as int,
                self@.cells.len() as int,
            ),
    {
        let all = self.grid.get(area);
        let mut out: Vec<usize> = Vec::new();
        let mut i: usize = 0;
        assert(all@.take(0) =~= Seq::<usize>::empty());
        while i < all.len()
            invariant
                i <= all.len(),
                out@ == between(all@.take(i as int), index as int, self.cells@.len() as int),
            decreases all.len() - i,
        {
            let c = all[i];
            assert(all@.take(i + 1).drop_last() =~= all@.take(i as int));
            if c > index && self.valid_cell(c) {
                out.push(c);
            }
            i += 1;
        }
        assert(all@.take(i as int) =~= all@);
        out
    }

    /// What the pointer does to the body. While the button is down, a held
    /// cell follows the pointer; if none is held, the first of `hits` that is a
    /// cell becomes the held one and stays where it is. When the button is up,
    /// the held cell is let go.
    pub fn handle_input(&mut self, down: bool, pointer: Vector2D<T>, hits: &Vec<usize>)
        requires
            old(self).wf(),
        ensures
            final(self).wf(),
            final(self)@ == after_input(old(self)@, down, pointer, hits@),
    {
        proof {
            lemma_after_input_valid(self@, down, pointer, hits@);
        }
        match self.pinch {
            Some(p) => {
                if down {
                    self.cells[p].pos = pointer;
                } else {
                    self.cells[p].fix = false;
                    self.pinch = None;
                }
            },
            None => {
                if down {
                    match first_cell_of(hits, self.cells.len()) {
                        Some(h) => {
                            self.cells[h].fix = true;
                            self.pinch = Some(h);
                        },
                        None => {},
                    }
                }
            },
        }
        assert(self@.cells =~= after_input(old(self)@, down, pointer, hits@).cells);
    }

    /// Draws every cell that has an entry in `pixels`, in rising order of
    /// index, each at its own pixel.
    pub fn draw(&self, frame: &mut Frame, pixels: &Vec<Option<Vector2D<usize>>>)
        requires
            old(frame).wf(),
        ensures
            final(frame).wf(),
            final(frame).width == old(frame).width,
            final(frame).height == old(frame).height,
            final(frame).buffer@ == with_cells(
                old(frame).buffer@,
                old(frame).width,
                old(frame).height,
                self@.cells,
                pixels@,
                if self@.cells.len() <= pixels@.len() {
                    self@.cells.len() as int
                } else {
                    pixels@.len() as int
                },
            ),
    {
        let mut i: usize = 0;
        while i < self.cells.len() && i < pixels.len()
            invariant
                i <= self.cells@.len(),
                i <= pixels@.len(),
                frame.wf(),
                frame.width == old(frame).width,
                frame.height == old(frame).height,
                frame.buffer@ == with_cells(
                    old(frame).buffer@,
                    frame.width,
                    frame.height,
                    self@.cells,
                    pixels@,
                    i as int,
                ),
            decreases pixels.len() - i,
        {
            self.cells[i].draw(frame, pixels[i]);
            i += 1;
        }
    }
}

/// Whether `index1` and `index2` are the indices of two different cells.
pub open spec fn two_cells<T>(v: SlimeView<T>, index1: usize, index2: usize) -> bool {
    index1 != index2 && index1 < v.cells.len() && index2 < v.cells.len()
}

/// The point the free cells of a body fall towards.
pub open spec fn attractor<T>(v: SlimeView<T>) -> Vector2D<T> {
    match v.pinch {
        Some(p) => v.cells[p as int].pos,
        None => v.anchor,
    }
}

/// Whether `index` is the index of a cell that may move.
pub open spec fn free<T>(v: SlimeView<T>, index: usize) -> bool {
    index < v.cells.len() && !v.cells[index as int].fix
}

/// The body after the cell at `index` was asked to move to `to`.
pub open spec fn displaced<T>(v: SlimeView<T>, index: usize, to: Vector2D<T>) -> SlimeView<T> {
    if free(v, index) {
        SlimeView {
            cells: v.cells.update(index as int, CellView { pos: to, ..v.cells[index as int] }),
            ..v
        }
    } else {
        v
    }
}

/// The body after the cell at `index` was asked to take the velocity `speed`
/// and to move to `to`.
pub open spec fn integrated<T>(
    v: SlimeView<T>,
    index: usize,
    speed: Vector2D<T>,
    to: Vector2D<T>,
) -> SlimeView<T> {
    if free(v, index) {
        SlimeView {
            cells: v.cells.update(
                index as int,
                CellView { pos: to, speed, ..v.cells[index as int] },
            ),
            ..v
        }
    } else {
        v
    }
}

/// The insertions that fill the grid of a body of `cells` cells from `areas`:
/// each cell that has a box, under its index, in rising order.
pub open spec fn insertions(cells: nat, areas: Seq<TileBox>) -> Seq<Insertion> {
    Seq::new(
        if cells <= areas.len() {
            cells
        } else {
            areas.len()
        },
        |i: int| Insertion { id: i as usize, area: areas[i] },
    )
}

/// The body after its grid was cleared and filled from `areas`.
pub open spec fn repopulated<T>(v: SlimeView<T>, areas: Seq<TileBox>) -> SlimeView<T> {
    SlimeView {
        buckets: after_insertions(
            empty_buckets(v.buckets.len()),
            v.multipliers,
            insertions(v.cells.len(), areas),
        ),
        stamp: (v.stamp + 1) as usize,
        ..v
    }
}

/// The ids of `s` that lie above `low` and below `high`, in their order.
pub open spec fn between(s: Seq<usize>, low: int, high: int) -> Seq<usize>
    decreases s.len(),
{
    if s.len() == 0 {
        s
    } else {
        let before = between(s.drop_last(), low, high);
        if low < s.last() < high {
            before.push(s.last())
        } else {
            before
        }
    }
}

/// The first of `hits` that is the index of one of `cells` cells.
pub open spec fn first_cell(hits: Seq<usize>, cells: nat) -> Option<usize>
    decreases hits.len(),
{
    if hits.len() == 0 {
        None
    } else if hits[0] < cells {
        Some(hits[0])
    } else {
        first_cell(hits.drop_first(), cells)
    }
}

/// The body after the pointer was seen: `down` says whether the button is
/// held, `pointer` where the pointer is, and `hits` which cells it touches.
pub open spec fn after_input<T>(
    v: SlimeView<T>,
    down: bool,
    pointer: Vector2D<T>,
    hits: Seq<usize>,
) -> SlimeView<T> {
    match v.pinch {
        Some(p) => if down {
            SlimeView {
                cells: v.cells.update(p as int, CellView { pos: pointer, ..v.cells[p as int] }),
                ..v
            }
        } else {
            SlimeView {
                cells: v.cells.update(p as int, CellView { fix: false, ..v.cells[p as int] }),
                pinch: None,
                ..v
            }
        },
        None => match first_cell(hits, v.cells.len()) {
            Some(h) => if down {
                SlimeView {
                    cells: v.cells.update(h as int, CellView { fix: true, ..v.cells[h as int] }),
                    pinch: Some(h),
                    ..v
                }
            } else {
                v
            },
            None => v,
        },
    }
}

/// The first of `hits` that is the index of one of `cells` cells.
fn first_cell_of(hits: &Vec<usize>, cells: usize) -> (r: Option<usize>)
    ensures
        r == first_cell(hits@, cells as nat),
        r matches Some(h) ==> h < cells,
{
    let mut i: usize = 0;
    assert(hits@.skip(0) =~= hits@);
    while i < hits.len()
        invariant
            i <= hits.len(),
            first_cell(hits@, cells as nat) == first_cell(hits@.skip(i as int), cells as nat),
        decreases hits.len() - i,
    {
        assert(hits@.skip(i as int)[0] == hits@[i as int]);
        assert(hits@.skip(i as int).drop_first() =~= hits@.skip(i + 1));
        if hits[i] < cells {
            return Some(hits[i]);
        }
        i += 1;
    }
    assert(hits@.skip(i as int).len() == 0);
    None
}

/// The colour of a cell: red when held, green when free.
pub open spec fn color_of(fix: bool) -> u32 {
    if fix {
        packed(255, 0, 0)
    } else {
        packed(0, 255, 0)
    }
}

/// The colour a cell is drawn in.
pub fn cell_color(fix: bool) -> (c: u32)
    ensures
        c == color_of(fix),
{
    if fix {
        rgb(255, 0, 0)
    } else {
        rgb(0, 255, 0)
    }
}

/// The pixels of a frame after a cell was drawn at `pixel`.
pub open spec fn with_cell(
    buffer: Seq<u32>,
    width: usize,
    height: usize,
    fix: bool,
    pixel: Option<Vector2D<usize>>,
) -> Seq<u32> {
    match pixel {
        Some(at) => if at.x < width && at.y < height {
            buffer.update(at.y * width + at.x, color_of(fix))
        } else {
            buffer
        },
        None => buffer,
    }
}

/// The pixels of a frame after the first `n` cells were drawn, each at its
/// entry in `pixels`.
pub open spec fn with_cells<T>(
    buffer: Seq<u32>,
    width: usize,
    height: usize,
    cells: Seq<CellView<T>>,
    pixels: Seq<Option<Vector2D<usize>>>,
    n: int,
) -> Seq<u32>
    decreases n,
{
    if n <= 0 {
        buffer
    } else {
        with_cell(
            with_cells(buffer, width, height, cells, pixels, n - 1),
            width,
            height,
            cells[n - 1].fix,
            pixels[n - 1],
        )
    }
}

/// Which of two overlapping cells give way.
#[derive(Copy, Clone, Debug, PartialEq, Eq, Structural)]
pub enum Share {
    /// Both are free: each gives way by half the overlap.
    Both,
    /// The second is held: the first gives way by all of it.
    First,
    /// The first is held: the second gives way by all of it.
    Second,
    /// Both are held: neither moves.
    Neither,
}

/// Which of two overlapping cells give way, by whether each is held.
pub fn share(first_fix: bool, second_fix: bool) -> (r: Share)
    ensures
        r == match (first_fix, second_fix) {
            (false, false) => Share::Both,
            (false, true) => Share::First,
            (true, false) => Share::Second,
            (true, true) => Share::Neither,
        },
{
    if first_fix {
        if second_fix {
            Share::Neither
        } else {
            Share::Second
        }
    } else if second_fix {
        Share::First
    } else {
        Share::Both
    }
}

} // verus!
