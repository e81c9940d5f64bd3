//! A rectangular raster of `i32` cells, held in an `ndarray` array.
//!
//! The array itself is opaque to the verifier: every statement about a
//! `Grid` goes through its abstract contents `grid_rows`, the sequence of
//! rows (top to bottom), each row a sequence of cell values (left to right).

use vstd::prelude::*;

verus! {

/// A rectangular grid of `i32` cells backed by `ndarray::Array2<i32>`.
#[verifier::external_body]
pub struct Grid {
    inner: ndarray::Array2<i32>,
}

/// What a `Grid` holds: its rows, top to bottom, each row left to right.
pub uninterp spec fn grid_rows(g: Grid) -> Seq<Seq<i32>>;

impl View for Grid {
    type V = Seq<Seq<i32>>;

    open spec fn view(&self) -> Seq<Seq<i32>> {
        grid_rows(*self)
    }
}

/// `s` is the model of a rectangular grid with `h` rows and `w` columns.
pub open spec fn is_grid(s: Seq<Seq<i32>>, h: int, w: int) -> bool {
    &&& s.len() == h
    &&& forall|y: int| 0 <= y < h ==> (#[trigger] s[y]).len() == w
}

/// Upper bound on the cell count of any grid this library allocates; keeps
/// every internal size computation inside `usize` and every allocation sane.
pub const MAX_CELLS: usize = 0x1000_0000;

impl Grid {
    /// Relies on `ndarray::Array2::from_elem`: a fresh `h` by `w` array with
    /// every cell equal to `fill`.
    #[verifier::external_body]
    pub(crate) fn filled(h: usize, w: usize, fill: i32) -> (g: Grid)
        requires
            h <= MAX_CELLS,
            w <= MAX_CELLS,
            h * w <= MAX_CELLS,
        ensures
            is_grid(grid_rows(g), h as int, w as int),
            forall|y: int, x: int| 0 <= y < h && 0 <= x < w ==> grid_rows(g)[y][x] == fill,
    {
        Grid { inner: ndarray::Array2::from_elem((h, w), fill) }
    }

    /// Relies on `ndarray::Array2::from_shape_vec` with shape `(h, w)`, which
    /// lays `data` out row by row; cell `(y, x)` of the result is
    /// `data[y * w + x]`.
    #[verifier::external_body]
    fn from_shape(h: usize, w: usize, data: Vec<i32>) -> (g: Grid)
        requires
            h <= MAX_CELLS,
            w <= MAX_CELLS,
            data.len() == h * w,
        ensures
            is_grid(grid_rows(g), h as int, w as int),
            forall|y: int, x: int|
                0 <= y < h && 0 <= x < w ==> grid_rows(g)[y][x] == data@[y * (w as int) + x],
    {
        Grid { inner: ndarray::Array2::from_shape_vec((h, w), data).unwrap() }
    }

    /// Relies on `ndarray`'s index access (`Index<[usize; 2]>`): reads cell
    /// `(y, x)`, row `y` and column `x`.
    #[verifier::external_body]
    pub(crate) fn get(&self, y: usize, x: usize) -> (v: i32)
        requires
            y < grid_rows(*self).len(),
            x < grid_rows(*self)[y as int].len(),
        ensures
            v == grid_rows(*self)[y as int][x as int],
    {
        self.inner[[y, x]]
    }

    /// Relies on `ndarray`'s mutable index access (`IndexMut<[usize; 2]>`):
    /// writes `v` to cell `(y, x)` and leaves every other cell unchanged.
    #[verifier::external_body]
    pub(crate) fn set(&mut self, y: usize, x: usize, v: i32)
        requires
            y < grid_rows(*old(self)).len(),
            x < grid_rows(*old(self))[y as int].len(),
        ensures
            grid_rows(*final(self)) == grid_rows(*old(self)).update(
                y as int,
                grid_rows(*old(self))[y as int].update(x as int, v),
            ),
    {
        self.inner[[y, x]] = v;
    }

    /// Relies on `ndarray::ArrayBase::dim`: the (rows, columns) pair of the
    /// array. A 2-D `ndarray` array is rectangular, so the column count
    /// applies to every row.
    #[verifier::external_body]
    pub(crate) fn dim(&self) -> (d: (usize, usize))
        ensures
            d.0 == grid_rows(*self).len(),
            forall|y: int|
                0 <= y < grid_rows(*self).len() ==> (#[trigger] grid_rows(*self)[y]).len()
                    == d.1,
    {
        self.inner.dim()
    }

    /// Relies on `Clone` for `ndarray` owned arrays: an element-wise copy.
    #[verifier::external_body]
    pub(crate) fn duplicate(&self) -> (g: Grid)
        ensures
            grid_rows(g) == grid_rows(*self),
    {
        Grid { inner: self.inner.clone() }
    }

    /// Builds an `h` by `w` grid from `data` given row by row.
    pub fn from_vec(h: usize, w: usize, data: Vec<i32>) -> (g: Grid)
        requires
            h <= MAX_CELLS,
            w <= MAX_CELLS,
            data.len() == h * w,
        ensures
            is_grid(g@, h as int, w as int),
            forall|y: int, x: int|
                0 <= y < h && 0 <= x < w ==> g@[y][x] == data@[y * (w as int) + x],
    {
        Grid::from_shape(h, w, data)
    }

    /// Reads cell `(y, x)`.
    pub fn cell(&self, y: usize, x: usize) -> (v: i32)
        requires
            y < self@.len(),
            x < self@[y as int].len(),
        ensures
            v == self@[y as int][x as int],
    {
        self.get(y, x)
    }

    /// The (rows, columns) pair of the grid.
    pub fn dims(&self) -> (d: (usize, usize))
        ensures
            d.0 == self@.len(),
            forall|y: int| 0 <= y < self@.len() ==> (#[trigger] self@[y]).len() == d.1,
    {
        self.dim()
    }
}

/// Whether two grids hold exactly the same rows.
pub fn grids_equal(a: &Grid, b: &Grid) -> (r: bool)
    ensures
        r <==> a@ == b@,
{
    let da = a.dims();
    let db = b.dims();
    if da.0 != db.0 {
        return false;
    }
    if da.0 == 0 {
        proof {
            assert(a@ =~= b@);
        }
        return true;
    }
    if da.1 != db.1 {
        proof {
            assert(a@[0].len() != b@[0].len());
        }
        return false;
    }
    let h: usize = da.0;
    let w: usize = da.1;
    let mut y: usize = 0;
    while y < h
        invariant
            h == a@.len(),
            h == b@.len(),
            0 <= y <= h,
            forall|i: int| 0 <= i < h ==> (#[trigger] a@[i]).len() == w,
            forall|i: int| 0 <= i < h ==> (#[trigger] b@[i]).len() == w,
            forall|i: int, j: int| 0 <= i < y && 0 <= j < w ==> a@[i][j] == b@[i][j],
        decreases h - y,
    {
        let mut x: usize = 0;
        while x < w
            invariant
                h == a@.len(),
                h == b@.len(),
                0 <= y < h,
                0 <= x <= w,
                forall|i: int| 0 <= i < h ==> (#[trigger] a@[i]).len() == w,
                forall|i: int| 0 <= i < h ==> (#[trigger] b@[i]).len() == w,
                forall|i: int, j: int| 0 <= i < y && 0 <= j < w ==> a@[i][j] == b@[i][j],
                forall|j: int| 0 <= j < x ==> a@[y as int][j] == b@[y as int][j],
            decreases w - x,
        {
            if a.get(y, x) != b.get(y, x) {
                return false;
            }
            x += 1;
        }
        y += 1;
    }
    proof {
        assert(a@ =~~= b@);
    }
    true
}

} // verus!
