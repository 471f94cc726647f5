//! Conway's Game of Life over a grid of `bool` cells (`true` is alive): the
//! standard way to combine a neighborhood pattern with grid selection.
//!
//! A step reads every neighborhood from the old grid and writes the new
//! states into a second one, so that no cell changes while its neighbors are
//! still being counted.
use vstd::prelude::*;

use crate::coord::{coords_view, Coord};
use crate::grid::{index_of, VecGrid};
use crate::patterns::{has_neighbors, neighborhood, neighborhood_of};

verus! {

/// How many coordinates of `s` lie in `g` on a live cell.
pub open spec fn live_count(g: &VecGrid<bool>, s: Seq<(int, int)>) -> nat
    decreases s.len(),
{
    if s.len() == 0 {
        0
    } else {
        live_count(g, s.drop_last()) + if g.in_bounds(s.last()) && g.cell_at(s.last()) {
            1nat
        } else {
            0nat
        }
    }
}

/// The state of a cell after a step, from its state and its live neighbors.
pub open spec fn next_state(alive: bool, live_neighbors: int) -> bool {
    if alive {
        live_neighbors == 2 || live_neighbors == 3
    } else {
        live_neighbors == 3
    }
}

/// Counts the live cells of `coord`'s Moore neighborhood; neighbors outside
/// the grid count as dead.
pub fn live_neighbor_count(grid: &VecGrid<bool>, coord: Coord) -> (r: usize)
    requires
        grid.wf(),
        has_neighbors(coord),
    ensures
        r == live_count(grid, neighborhood_of(coord@)),
{
    let pattern = neighborhood(coord);
    let selected = grid.selection_iter(&pattern);
    let ghost s = neighborhood_of(coord@);
    let mut count: usize = 0;
    let mut i: usize = 0;
    while i < selected.len()
        invariant
            selected@.len() == pattern@.len(),
            coords_view(pattern@) == s,
            s.len() == 8,
            forall|j: int|
                0 <= j < selected@.len() ==> {
                    &&& (#[trigger] selected@[j]).0 == pattern@[j]
                    &&& selected@[j].1 is Ok <==> grid.in_bounds(pattern@[j]@)
                    &&& selected@[j].1 matches Ok(v) ==> *v == grid.cell_at(pattern@[j]@)
                },
            i <= selected@.len(),
            count <= i,
            count == live_count(grid, s.take(i as int)),
        decreases selected@.len() - i,
    {
        assert(s.take(i + 1).drop_last() =~= s.take(i as int));
        assert(s[i as int] == pattern@[i as int]@);
        if let Ok(alive) = selected[i].1 {
            if *alive {
                count = count + 1;
            }
        }
        i = i + 1;
    }
    assert(s.take(8) =~= s);
    count
}

/// The state of a cell after a step.
pub fn compute_state(alive: bool, live_neighbors: usize) -> (r: bool)
    ensures
        r == next_state(alive, live_neighbors as int),
{
    if alive {
        live_neighbors == 2 || live_neighbors == 3
    } else {
        live_neighbors == 3
    }
}

proof fn lemma_index_before(w: int, p: (int, int), x: int, y: int)
    requires
        0 <= p.0 < w,
        0 <= p.1,
        0 <= x,
        p.1 < y || (p.1 == y && p.0 < x),
    ensures
        index_of(w, p) < y * w + x,
{
    if p.1 < y {
        assert(p.1 * w + p.0 < y * w + x) by (nonlinear_arith)
            requires
                0 <= p.0 < w,
                0 <= p.1 < y,
                0 <= x,
        ;
    }
}

/// One step of the game: every cell of the result is the next state of the
/// same cell of `grid`, from the live neighbors that it has in `grid`.
pub fn step(grid: &VecGrid<bool>) -> (r: VecGrid<bool>)
    requires
        grid.wf(),
    ensures
        r.wf(),
        r.spec_width() == grid.spec_width(),
        r.spec_height() == grid.spec_height(),
        forall|p: (int, int)|
            grid.in_bounds(p) ==> #[trigger] r.cell_at(p) == next_state(
                grid.cell_at(p),
                live_count(grid, neighborhood_of(p)) as int,
            ),
{
    let w = grid.width();
    let h = grid.height();
    let ghost wi = w as int;
    let mut cells: Vec<bool> = Vec::new();
    let mut x: usize = 0;
    let mut y: usize = 0;
    while y < h
        invariant
            grid.wf(),
            w == grid.spec_width(),
            h == grid.spec_height(),
            wi == w,
            x < w || (x == 0 && w == 0),
            y <= h,
            y == h ==> x == 0,
            cells@.len() == y * w + x,
            forall|p: (int, int)|
                grid.in_bounds(p) && (p.1 < y || (p.1 == y && p.0 < x)) ==> #[trigger] cells@[index_of(wi, p)]
                    == next_state(grid.cell_at(p), live_count(grid, neighborhood_of(p)) as int),
        decreases h - y, w - x,
    {
        if w == 0 {
            assert(y * w == 0 && h * w == 0) by (nonlinear_arith)
                requires
                    w == 0,
            ;
            y = h;
        } else {
            let c = Coord::new(x as i32, y as i32);
            let n = live_neighbor_count(grid, c);
            let alive = match grid.get(c) {
                Ok(v) => *v,
                Err(_) => false,
            };
            let ghost before = cells@;
            let ghost here = (x as int, y as int);
            proof {
                assert(y * w + x < w * h) by (nonlinear_arith)
                    requires
                        x < w,
                        y < h,
                ;
                assert forall|p: (int, int)|
                    grid.in_bounds(p) && (p.1 < y || (p.1 == y && p.0 < x)) implies index_of(wi, p)
                    < before.len() by {
                    lemma_index_before(wi, p, x as int, y as int);
                }
            }
            cells.push(compute_state(alive, n));
            assert(cells@[index_of(wi, here)] == next_state(
                grid.cell_at(here),
                live_count(grid, neighborhood_of(here)) as int,
            ));
            if x + 1 < w {
                x = x + 1;
            } else {
                assert((y + 1) * w == y * w + w) by (nonlinear_arith);
                x = 0;
                y = y + 1;
            }
        }
    }
    assert(cells@.len() == w * h) by (nonlinear_arith)
        requires
            cells@.len() == h * w,
    ;
    VecGrid::from_vec(w, h, cells).unwrap()
}

} // verus!
