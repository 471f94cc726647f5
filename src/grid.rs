//! A rectangular grid addressed by `Coord`, and selection: resolving a
//! coordinate pattern against the grid, one result per coordinate.
use vstd::prelude::*;

use crate::coord::{coords_view, Coord};

verus! {

/// A coordinate outside the grid's addressable region.
#[derive(Clone, Copy, Debug, PartialEq, Eq, Structural)]
pub struct BoundsError {
    pub coord: Coord,
}

/// Where the cell at `p` stands among the cells of a grid `width` wide, row by row.
pub open spec fn index_of(width: int, p: (int, int)) -> int {
    p.1 * width + p.0
}

/// A dense grid of `width * height` cells, stored row by row.
pub struct VecGrid<T> {
    width: usize,
    height: usize,
    cells: Vec<T>,
}

impl<T> VecGrid<T> {
    pub closed spec fn spec_width(&self) -> int {
        self.width as int
    }

    pub closed spec fn spec_height(&self) -> int {
        self.height as int
    }

    /// The cells, row by row.
    pub closed spec fn spec_cells(&self) -> Seq<T> {
        self.cells@
    }

    pub open spec fn wf(&self) -> bool {
        &&& self.spec_cells().len() == self.spec_width() * self.spec_height()
        &&& self.spec_width() <= i32::MAX
        &&& self.spec_height() <= i32::MAX
    }

    pub open spec fn in_bounds(&self, p: (int, int)) -> bool {
        0 <= p.0 < self.spec_width() && 0 <= p.1 < self.spec_height()
    }

    pub open spec fn cell_at(&self, p: (int, int)) -> T {
        self.spec_cells()[index_of(self.spec_width(), p)]
    }

    /// Builds a grid from its cells given row by row; `None` where their
    /// number is not `width * height` or a side does not fit a coordinate.
    pub fn from_vec(width: usize, height: usize, cells: Vec<T>) -> (r: Option<VecGrid<T>>)
        ensures
            r is Some <==> cells@.len() == width * height && width <= i32::MAX && height
                <= i32::MAX,
            r matches Some(g) ==> g.wf() && g.spec_width() == width && g.spec_height() == height
                && g.spec_cells() == cells@,
    {
        if width > i32::MAX as usize || height > i32::MAX as usize {
            return None;
        }
        match width.checked_mul(height) {
            Some(n) => {
                if cells.len() == n {
                    Some(VecGrid { width, height, cells })
                } else {
                    None
                }
            },
            None => {
                let len = cells.len();
                assert(len != width * height);
                None
            },
        }
    }

    pub fn width(&self) -> (r: usize)
        ensures
            r == self.spec_width(),
    {
        self.width
    }

    pub fn height(&self) -> (r: usize)
        ensures
            r == self.spec_height(),
    {
        self.height
    }

    /// The cell at `c`, or a bounds failure.
    pub fn get(&self, c: Coord) -> (r: Result<&T, BoundsError>)
        requires
            self.wf(),
        ensures
            r is Ok <==> self.in_bounds(c@),
            r matches Ok(v) ==> *v == self.cell_at(c@),
            r matches Err(e) ==> e.coord == c,
    {
        if c.x < 0 || c.y < 0 || c.x as usize >= self.width || c.y as usize >= self.height {
            return Err(BoundsError { coord: c });
        }
        let (x, y, w, h) = (c.x as usize, c.y as usize, self.width, self.height);
        let n = self.cells.len();
        assert(y * w + x < w * h) by (nonlinear_arith)
            requires
                x < w,
                y < h,
        ;
        assert(y * w + x < n);
        Ok(&self.cells[y * w + x])
    }

    /// Resolves each coordinate of `pattern`, in order, to its cell or to a
    /// bounds failure; a coordinate outside the grid does not stop the others.
    pub fn selection_iter<'a>(&'a self, pattern: &Vec<Coord>) -> (r: Vec<(Coord, Result<&'a T, BoundsError>)>)
        requires
            self.wf(),
        ensures
            r@.len() == pattern@.len(),
            forall|i: int|
                0 <= i < r@.len() ==> {
                    &&& (#[trigger] r@[i]).0 == pattern@[i]
                    &&& r@[i].1 is Ok <==> self.in_bounds(pattern@[i]@)
                    &&& r@[i].1 matches Ok(v) ==> *v == self.cell_at(pattern@[i]@)
                    &&& r@[i].1 matches Err(e) ==> e.coord == pattern@[i]
                },
    {
        let mut r: Vec<(Coord, Result<&'a T, BoundsError>)> = Vec::new();
        let mut i: usize = 0;
        while i < pattern.len()
            invariant
                self.wf(),
                i <= pattern@.len(),
                r@.len() == i,
                forall|j: int|
                    0 <= j < i ==> {
                        &&& (#[trigger] r@[j]).0 == pattern@[j]
                        &&& r@[j].1 is Ok <==> self.in_bounds(pattern@[j]@)
                        &&& r@[j].1 matches Ok(v) ==> *v == self.cell_at(pattern@[j]@)
                        &&& r@[j].1 matches Err(e) ==> e.coord == pattern@[j]
                    },
            decreases pattern@.len() - i,
        {
            let c = pattern[i];
            r.push((c, self.get(c)));
            i = i + 1;
        }
        r
    }
}

} // verus!
