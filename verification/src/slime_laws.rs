//! What holds of a body: that bonds, steps and the pointer leave it a body,
//! that a held cell stays where it is through a tick, that links stay as they
//! were made, and what its grid finds.

use crate::grid_laws::{
    boxes_meet, lemma_after_insertions_len, lemma_bucket_after_insertions, lemma_bucket_in_range,
    lemma_box_members, lemma_first_occurrences, lemma_query_after_insertions,
};
use crate::slime::{
    after_input, displaced, first_cell, held, insertions, integrated, repopulated, valid,
    with_bonds, Bond, CellView, SlimeView,
};
use crate::spatial_grid::{area_members, bucket_of, empty_buckets, found, in_box, TileBox};
use crate::vector::Vector2D;
use vstd::prelude::*;

verus! {

/// Whether the cells are free and each link leads to a cell of higher index.
pub open spec fn free_and_linked_upwards<T>(cells: Seq<CellView<T>>) -> bool {
    &&& forall|i: int| 0 <= i < cells.len() ==> !(#[trigger] cells[i]).fix
    &&& forall|i: int, k: int|
        0 <= i < cells.len() && 0 <= k < cells[i].links.len() ==> i < (
        #[trigger] cells[i].links[k]).neighbor < cells.len()
}

/// Bonds keep the cells where and as they are, and make links to cells of
/// higher index only.
pub proof fn lemma_with_bonds<T>(cells: Seq<CellView<T>>, bonds: Seq<Bond<T>>)
    requires
        free_and_linked_upwards(cells),
    ensures
        with_bonds(cells, bonds).len() == cells.len(),
        free_and_linked_upwards(with_bonds(cells, bonds)),
        forall|i: int|
            0 <= i < cells.len() ==> (#[trigger] with_bonds(cells, bonds)[i]).pos == cells[i].pos
                && with_bonds(cells, bonds)[i].speed == cells[i].speed && with_bonds(
                cells,
                bonds,
            )[i].size == cells[i].size,
    decreases bonds.len(),
{
    if bonds.len() > 0 {
        let before = with_bonds(cells, bonds.drop_last());
        let after = with_bonds(cells, bonds);
        let bond = bonds.last();
        lemma_with_bonds(cells, bonds.drop_last());
        assert forall|i: int, k: int|
            0 <= i < after.len() && 0 <= k < after[i].links.len() implies i < (
        #[trigger] after[i].links[k]).neighbor < after.len() by {
            if bond.first < bond.second < before.len() && i == bond.first && k
                == before[i].links.len() {
            } else {
                assert(after[i].links[k] == before[i].links[k]);
            }
        }
        assert forall|i: int| 0 <= i < cells.len() implies (#[trigger] after[i]).pos
            == cells[i].pos && after[i].speed == cells[i].speed && after[i].size
            == cells[i].size by {
            assert(before[i].pos == cells[i].pos);
        }
    }
}

/// The first cell among the hits is a cell.
pub proof fn lemma_first_cell(hits: Seq<usize>, cells: nat)
    ensures
        first_cell(hits, cells) matches Some(h) ==> h < cells && hits.contains(h),
    decreases hits.len(),
{
    if hits.len() > 0 {
        if hits[0] < cells {
            assert(hits.contains(hits[0]));
        } else {
            lemma_first_cell(hits.drop_first(), cells);
            if first_cell(hits, cells) is Some {
                let h = first_cell(hits, cells)->0;
                let rest = hits.drop_first();
                let k = choose|k: int| 0 <= k < rest.len() && rest[k] == h;
                assert(hits[k + 1] == h);
            }
        }
    }
}

/// The pointer leaves a body a body: at most one cell is held afterwards.
pub proof fn lemma_after_input_valid<T>(
    v: SlimeView<T>,
    down: bool,
    pointer: Vector2D<T>,
    hits: Seq<usize>,
)
    requires
        valid(v),
    ensures
        valid(after_input(v, down, pointer, hits)),
{
    let w = after_input(v, down, pointer, hits);
    lemma_first_cell(hits, v.cells.len());
    assert(w.cells.len() == v.cells.len());
    assert(w.buckets == v.buckets);
    assert forall|i: int| 0 <= i < w.cells.len() implies ((#[trigger] w.cells[i]).fix <==> held(
        w,
        i,
    )) by {
        assert(v.cells[i].fix <==> held(v, i));
    }
    assert forall|i: int, k: int|
        0 <= i < w.cells.len() && 0 <= k < w.cells[i].links.len() implies i < (
    #[trigger] w.cells[i].links[k]).neighbor < w.cells.len() by {
        assert(w.cells[i].links == v.cells[i].links);
        assert(i < v.cells[i].links[k].neighbor < v.cells.len());
    }
}

/// Filling the grid leaves a body a body: the grid then speaks of cells only.
pub proof fn lemma_repopulated_valid<T>(v: SlimeView<T>, areas: Seq<TileBox>)
    requires
        valid(v),
    ensures
        valid(repopulated(v, areas)),
{
    let w = repopulated(v, areas);
    let run = insertions(v.cells.len(), areas);
    let n = v.buckets.len();
    lemma_after_insertions_len(empty_buckets(n), v.multipliers, run);
    assert forall|k: int, j: int| 0 <= k < w.buckets.len() && 0 <= j < w.buckets[k].len() implies (
    #[trigger] w.buckets[k][j]) < w.cells.len() by {
        let id = w.buckets[k][j];
        assert(w.buckets[k].contains(id));
        lemma_bucket_after_insertions(empty_buckets(n), v.multipliers, run, k, id);
        assert(empty_buckets(n)[k] =~= Seq::<usize>::empty());
        let i = choose|i: int| 0 <= i < run.len() && (#[trigger] run[i]).id == id;
        assert(run[i].id == i as usize);
    }
    assert forall|i: int| 0 <= i < w.cells.len() implies ((#[trigger] w.cells[i]).fix <==> held(
        w,
        i,
    )) by {
        assert(v.cells[i].fix <==> held(v, i));
    }
}

/// After the grid of a body was filled from `areas`, a query over `area`
/// finds a cell exactly if the cell has a box and its box meets `area`: no
/// cell that shares a tile with `area` is missed.
pub proof fn lemma_query_after_repopulate<T>(
    v: SlimeView<T>,
    areas: Seq<TileBox>,
    area: TileBox,
    id: usize,
)
    requires
        valid(v),
    ensures
        found(repopulated(v, areas).buckets, v.multipliers, area).contains(id) <==> id
            < v.cells.len() && id < areas.len() && boxes_meet(
            v.multipliers,
            v.buckets.len(),
            areas[id as int],
            area,
        ),
{
    let run = insertions(v.cells.len(), areas);
    lemma_query_after_insertions(v.buckets.len(), v.multipliers, run, area, id);
    if id < v.cells.len() && id < areas.len() {
        assert(run[id as int].id == id);
    }
}

/// At most one cell of a body is held.
pub proof fn lemma_one_cell_held<T>(v: SlimeView<T>, i: int, j: int)
    requires
        valid(v),
        0 <= i < v.cells.len(),
        0 <= j < v.cells.len(),
        v.cells[i].fix,
        v.cells[j].fix,
    ensures
        i == j,
{
}

/// One thing that a tick does to a body: it asks a cell to move, it gives a
/// cell a velocity and asks it to move, or it fills the grid anew.
pub enum Step<T> {
    Displace { index: usize, to: Vector2D<T> },
    Integrate { index: usize, speed: Vector2D<T>, to: Vector2D<T> },
    Repopulate { areas: Seq<TileBox> },
}

/// The body after one step.
pub open spec fn after_step<T>(v: SlimeView<T>, step: Step<T>) -> SlimeView<T> {
    match step {
        Step::Displace { index, to } => displaced(v, index, to),
        Step::Integrate { index, speed, to } => integrated(v, index, speed, to),
        Step::Repopulate { areas } => repopulated(v, areas),
    }
}

/// The body after the steps `steps`, one after the other.
pub open spec fn after_steps<T>(v: SlimeView<T>, steps: Seq<Step<T>>) -> SlimeView<T>
    decreases steps.len(),
{
    if steps.len() == 0 {
        v
    } else {
        after_step(after_steps(v, steps.drop_last()), steps.last())
    }
}

/// A held cell stays where it is through a tick, whatever the tick asks of
/// the cells and however long it is: no run of steps moves it, lets it go or
/// holds another cell.
pub proof fn lemma_held_cell_stays<T>(v: SlimeView<T>, steps: Seq<Step<T>>, p: usize)
    requires
        valid(v),
        v.pinch == Some(p),
    ensures
        valid(after_steps(v, steps)),
        after_steps(v, steps).pinch == Some(p),
        after_steps(v, steps).cells.len() == v.cells.len(),
        after_steps(v, steps).cells[p as int].pos == v.cells[p as int].pos,
    decreases steps.len(),
{
    if steps.len() > 0 {
        let u = after_steps(v, steps.drop_last());
        lemma_held_cell_stays(v, steps.drop_last(), p);
        lemma_step_valid(u, steps.last());
        assert(u.cells[p as int].fix);
    }
}

/// Links are made when the body is made and stay as they are: no run of
/// steps adds, drops or changes one.
pub proof fn lemma_steps_keep_links<T>(v: SlimeView<T>, steps: Seq<Step<T>>, i: int)
    requires
        0 <= i < v.cells.len(),
    ensures
        after_steps(v, steps).cells.len() == v.cells.len(),
        after_steps(v, steps).cells[i].links == v.cells[i].links,
    decreases steps.len(),
{
    if steps.len() > 0 {
        lemma_steps_keep_links(v, steps.drop_last(), i);
    }
}

/// The pointer adds, drops and changes no link.
pub proof fn lemma_input_keeps_links<T>(
    v: SlimeView<T>,
    down: bool,
    pointer: Vector2D<T>,
    hits: Seq<usize>,
    i: int,
)
    requires
        valid(v),
        0 <= i < v.cells.len(),
    ensures
        after_input(v, down, pointer, hits).cells.len() == v.cells.len(),
        after_input(v, down, pointer, hits).cells[i].links == v.cells[i].links,
{
    lemma_first_cell(hits, v.cells.len());
}

/// A step leaves a body a body, with the same cells held and linked as before.
pub proof fn lemma_step_valid<T>(v: SlimeView<T>, step: Step<T>)
    requires
        valid(v),
    ensures
        valid(after_step(v, step)),
        after_step(v, step).pinch == v.pinch,
        after_step(v, step).cells.len() == v.cells.len(),
{
    let w = after_step(v, step);
    match step {
        Step::Repopulate { areas } => {
            lemma_repopulated_valid(v, areas);
        },
        _ => {
            assert(w.buckets == v.buckets);
            assert forall|i: int| 0 <= i < w.cells.len() implies ((#[trigger] w.cells[i]).fix
                <==> held(w, i)) by {
                assert(v.cells[i].fix <==> held(v, i));
            }
            assert forall|i: int, k: int|
                0 <= i < w.cells.len() && 0 <= k < w.cells[i].links.len() implies i < (
            #[trigger] w.cells[i].links[k]).neighbor < w.cells.len() by {
                assert(w.cells[i].links == v.cells[i].links);
                assert(i < v.cells[i].links[k].neighbor < v.cells.len());
            }
        },
    }
}

/// What the grid of a body finds are cells.
pub proof fn lemma_found_are_cells<T>(v: SlimeView<T>, area: TileBox)
    requires
        valid(v),
    ensures
        forall|i: int|
            0 <= i < found(v.buckets, v.multipliers, area).len() ==> (#[trigger] found(
                v.buckets,
                v.multipliers,
                area,
            )[i]) < v.cells.len(),
{
    let r = found(v.buckets, v.multipliers, area);
    let all = area_members(v.buckets, v.multipliers, area);
    lemma_first_occurrences(all);
    assert forall|i: int| 0 <= i < r.len() implies (#[trigger] r[i]) < v.cells.len() by {
        let id = r[i];
        assert(r.contains(id));
        lemma_box_members(v.buckets, v.multipliers, area, id);
        let (x, y) = choose|x: int, y: int|
            in_box(area, x, y) && v.buckets[#[trigger] bucket_of(
                v.multipliers,
                v.buckets.len(),
                x,
                y,
            )].contains(id);
        let k = bucket_of(v.multipliers, v.buckets.len(), x, y);
        lemma_bucket_in_range(v.multipliers, v.buckets.len(), x, y);
        let j = choose|j: int| 0 <= j < v.buckets[k].len() && v.buckets[k][j] == id;
        assert(v.buckets[k][j] < v.cells.len());
    }
}

} // verus!
