//! A generic 3-by-3 stencil scan over a grid.
//!
//! `functional_convolve` applies a caller-supplied kernel to the 3-by-3
//! neighborhood of every cell. Neighbors that fall outside the grid are read
//! as a constant border fill value; that padding is the sole border policy,
//! with no special-casing of edge or corner cells in the kernel itself.

use vstd::prelude::*;

use crate::grid::{Grid, MAX_CELLS, is_grid};

verus! {

/// The 3-by-3 neighborhood a kernel sees: the center cell `c` and its eight
/// neighbors, named by compass direction.
#[derive(Clone, Copy, PartialEq, Eq, Structural)]
pub struct Window {
    pub nw: i32,
    pub n: i32,
    pub ne: i32,
    pub w: i32,
    pub c: i32,
    pub e: i32,
    pub sw: i32,
    pub s: i32,
    pub se: i32,
}

/// The value the border-padded copy of `m` holds at `(y, x)`: the cell itself
/// inside the grid, the fill value `b` outside it.
pub open spec fn pad_at(m: Seq<Seq<i32>>, b: i32, y: int, x: int) -> i32 {
    if 0 <= y < m.len() && 0 <= x < m[y].len() {
        m[y][x]
    } else {
        b
    }
}

/// The 3-by-3 window centered on cell `(y, x)` of `m`, padded with `b`.
pub open spec fn window_of(m: Seq<Seq<i32>>, b: i32, y: int, x: int) -> Window {
    Window {
        nw: pad_at(m, b, y - 1, x - 1),
        n: pad_at(m, b, y - 1, x),
        ne: pad_at(m, b, y - 1, x + 1),
        w: pad_at(m, b, y, x - 1),
        c: pad_at(m, b, y, x),
        e: pad_at(m, b, y, x + 1),
        sw: pad_at(m, b, y + 1, x - 1),
        s: pad_at(m, b, y + 1, x),
        se: pad_at(m, b, y + 1, x + 1),
    }
}

/// Applies `kern_func` to the 3-by-3 neighborhood of every cell of `matrix`,
/// reading `boarder_value` for neighbors outside the grid, and returns the
/// grid of kernel results.
pub fn functional_convolve<F: Fn(Window) -> i32>(
    matrix: &Grid,
    kern_func: F,
    boarder_value: i32,
) -> (out: Grid)
    requires
        matrix@.len() >= 1,
        matrix@[0].len() >= 1,
        is_grid(matrix@, matrix@.len() as int, matrix@[0].len() as int),
        (matrix@.len() + 2) * (matrix@[0].len() + 2) <= MAX_CELLS,
        forall|win: Window| #[trigger] call_requires(kern_func, (win,)),
    ensures
        is_grid(out@, matrix@.len() as int, matrix@[0].len() as int),
        forall|y: int, x: int|
            0 <= y < matrix@.len() && 0 <= x < matrix@[0].len() ==> call_ensures(
                kern_func,
                (window_of(matrix@, boarder_value, y, x),),
                #[trigger] out@[y][x],
            ),
{
    let d = matrix.dims();
    let h: usize = d.0;
    let w: usize = d.1;
    proof {
        assert((h + 2) * (w + 2) >= (h + 2) && (h + 2) * (w + 2) >= (w + 2) && (h + 2) * (w + 2)
            >= h * w) by (nonlinear_arith)
            requires
                h >= 1,
                w >= 1,
        ;
        assert(h + 2 <= MAX_CELLS && w + 2 <= MAX_CELLS && h * w <= MAX_CELLS);
    }
    let mut padded = Grid::filled(h + 2, w + 2, boarder_value);
    let ghost m = matrix@;
    let mut y: usize = 0;
    while y < h
        invariant
            h == m.len(),
            m == matrix@,
            is_grid(m, h as int, w as int),
            is_grid(padded@, h + 2, w + 2),
            h + 2 <= MAX_CELLS,
            w + 2 <= MAX_CELLS,
            0 <= y <= h,
            forall|i: int, j: int|
                0 <= i < h + 2 && 0 <= j < w + 2 && !(1 <= i < 1 + y && 1 <= j < 1 + w)
                    ==> padded@[i][j] == boarder_value,
            forall|i: int, j: int|
                1 <= i < 1 + y && 1 <= j < 1 + w ==> padded@[i][j] == m[i - 1][j - 1],
        decreases h - y,
    {
        let mut x: usize = 0;
        while x < w
            invariant
                h == m.len(),
                m == matrix@,
                is_grid(m, h as int, w as int),
                is_grid(padded@, h + 2, w + 2),
                h + 2 <= MAX_CELLS,
                w + 2 <= MAX_CELLS,
                0 <= y < h,
                0 <= x <= w,
                forall|i: int, j: int|
                    0 <= i < h + 2 && 0 <= j < w + 2 && !(1 <= i < 1 + y && 1 <= j < 1 + w) && !(i
                        == 1 + y && 1 <= j < 1 + x) ==> padded@[i][j] == boarder_value,
                forall|i: int, j: int|
                    1 <= i < 1 + y && 1 <= j < 1 + w ==> padded@[i][j] == m[i - 1][j - 1],
                forall|j: int|
                    1 <= j < 1 + x ==> #[trigger] padded@[1 + y as int][j] == m[y as int][j - 1],
            decreases w - x,
        {
            let v = matrix.get(y, x);
            padded.set(y + 1, x + 1, v);
            x += 1;
        }
        y += 1;
    }
    proof {
        assert(forall|i: int, j: int|
            0 <= i < h + 2 && 0 <= j < w + 2 ==> padded@[i][j] == pad_at(
                m,
                boarder_value,
                i - 1,
                j - 1,
            ));
    }
    let mut out = Grid::filled(h, w, 0);
    let mut y2: usize = 0;
    while y2 < h
        invariant
            h == m.len(),
            m == matrix@,
            is_grid(m, h as int, w as int),
            is_grid(padded@, h + 2, w + 2),
            h + 2 <= MAX_CELLS,
            w + 2 <= MAX_CELLS,
            is_grid(out@, h as int, w as int),
            0 <= y2 <= h,
            forall|win: Window| #[trigger] call_requires(kern_func, (win,)),
            forall|i: int, j: int|
                0 <= i < h + 2 && 0 <= j < w + 2 ==> padded@[i][j] == pad_at(
                    m,
                    boarder_value,
                    i - 1,
                    j - 1,
                ),
            forall|i: int, j: int|
                0 <= i < y2 && 0 <= j < w ==> call_ensures(
                    kern_func,
                    (window_of(m, boarder_value, i, j),),
                    #[trigger] out@[i][j],
                ),
        decreases h - y2,
    {
        let mut x2: usize = 0;
        while x2 < w
            invariant
                h == m.len(),
                m == matrix@,
                is_grid(m, h as int, w as int),
                is_grid(padded@, h + 2, w + 2),
                h + 2 <= MAX_CELLS,
                w + 2 <= MAX_CELLS,
                is_grid(out@, h as int, w as int),
                0 <= y2 < h,
                0 <= x2 <= w,
                forall|win: Window| #[trigger] call_requires(kern_func, (win,)),
                forall|i: int, j: int|
                    0 <= i < h + 2 && 0 <= j < w + 2 ==> padded@[i][j] == pad_at(
                        m,
                        boarder_value,
                        i - 1,
                        j - 1,
                    ),
                forall|i: int, j: int|
                    0 <= i < y2 && 0 <= j < w ==> call_ensures(
                        kern_func,
                        (window_of(m, boarder_value, i, j),),
                        #[trigger] out@[i][j],
                    ),
                forall|j: int|
                    0 <= j < x2 ==> call_ensures(
                        kern_func,
                        (window_of(m, boarder_value, y2 as int, j),),
                        #[trigger] out@[y2 as int][j],
                    ),
            decreases w - x2,
        {
            let win = Window {
                nw: padded.get(y2, x2),
                n: padded.get(y2, x2 + 1),
                ne: padded.get(y2, x2 + 2),
                w: padded.get(y2 + 1, x2),
                c: padded.get(y2 + 1, x2 + 1),
                e: padded.get(y2 + 1, x2 + 2),
                sw: padded.get(y2 + 2, x2),
                s: padded.get(y2 + 2, x2 + 1),
                se: padded.get(y2 + 2, x2 + 2),
            };
            proof {
                assert(win == window_of(m, boarder_value, y2 as int, x2 as int));
            }
            let v = kern_func(win);
            out.set(y2, x2, v);
            x2 += 1;
        }
        y2 += 1;
    }
    out
}

} // verus!
