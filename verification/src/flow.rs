//! Flow directions and the propagation step.
//!
//! `build_flow_map` precomputes, for every cell of an elevation grid, a
//! 4-bit mask of the cardinal neighbors that lie strictly downhill from it.
//! `flow_step` advances a wet-state grid by one time step: a cell is wet
//! afterwards when it is wet and carries flow bits, or when some cardinal
//! neighbor's mask has the bit that points back at it.

use vstd::prelude::*;

use crate::convolve::{Window, functional_convolve, window_of};
use crate::grid::{Grid, MAX_CELLS, is_grid};

verus! {

/// Elevation assumed for cells outside the grid: meant to sit above every
/// real elevation in the domain, so that border cells never claim a flow
/// path off the grid.
pub const BORDER_ELEVATION: i32 = 9999;

/// Flow-direction bit: the western neighbor is downhill.
pub const FLOW_WEST: i32 = 8;

/// Flow-direction bit: the northern neighbor is downhill.
pub const FLOW_NORTH: i32 = 4;

/// Flow-direction bit: the eastern neighbor is downhill.
pub const FLOW_EAST: i32 = 2;

/// Flow-direction bit: the southern neighbor is downhill.
pub const FLOW_SOUTH: i32 = 1;

/// The flow-direction mask a 3-by-3 window yields: one bit for each cardinal
/// neighbor strictly lower than the center. Corners play no part.
pub open spec fn flow_mask_of(win: Window) -> int {
    (if win.c > win.w {
        8int
    } else {
        0int
    }) + (if win.c > win.n {
        4int
    } else {
        0int
    }) + (if win.c > win.e {
        2int
    } else {
        0int
    }) + (if win.c > win.s {
        1int
    } else {
        0int
    })
}

/// The kernel behind `build_flow_map`: adds the direction bit of every
/// cardinal neighbor that is strictly lower than the center.
pub fn flow_map_kernel(kern_elements: Window) -> (out: i32)
    ensures
        out == flow_mask_of(kern_elements),
        0 <= out <= 15,
{
    let mut out: i32 = 0;
    if kern_elements.c > kern_elements.w {
        out += 8;
    }
    if kern_elements.c > kern_elements.n {
        out += 4;
    }
    if kern_elements.c > kern_elements.e {
        out += 2;
    }
    if kern_elements.c > kern_elements.s {
        out += 1;
    }
    out
}

/// The flow-direction mask of cell `(y, x)` of elevation grid `elev`:
/// neighbors outside the grid count as `BORDER_ELEVATION` high.
pub open spec fn flow_map_cell(elev: Seq<Seq<i32>>, y: int, x: int) -> int {
    flow_mask_of(window_of(elev, BORDER_ELEVATION, y, x))
}

/// The whole flow-direction map of `elev` as a grid model.
pub open spec fn flow_map_grid(elev: Seq<Seq<i32>>) -> Seq<Seq<i32>> {
    Seq::new(elev.len(), |y: int| Seq::new(elev[y].len(), |x: int| flow_map_cell(elev, y, x) as i32))
}

/// Builds the flow-direction map of `elev_map`: one convolution with the
/// flow kernel, border-filled with `BORDER_ELEVATION`.
pub fn build_flow_map(elev_map: &Grid) -> (fm: Grid)
    requires
        elev_map@.len() >= 1,
        elev_map@[0].len() >= 1,
        is_grid(elev_map@, elev_map@.len() as int, elev_map@[0].len() as int),
        (elev_map@.len() + 2) * (elev_map@[0].len() + 2) <= MAX_CELLS,
    ensures
        fm@ == flow_map_grid(elev_map@),
        is_grid(fm@, elev_map@.len() as int, elev_map@[0].len() as int),
        forall|y: int, x: int|
            0 <= y < elev_map@.len() && 0 <= x < elev_map@[0].len() ==> 0 <= #[trigger] fm@[y][x]
                <= 15,
{
    let out = functional_convolve(elev_map, flow_map_kernel, BORDER_ELEVATION);
    proof {
        assert forall|y: int, x: int| 0 <= y < elev_map@.len() && 0 <= x < elev_map@[0].len()
            implies #[trigger] out@[y][x] == flow_map_cell(elev_map@, y, x) && 0 <= out@[y][x]
            <= 15 by {
            assert(call_ensures(
                flow_map_kernel,
                (window_of(elev_map@, BORDER_ELEVATION, y, x),),
                out@[y][x],
            ));
        }
        assert(out@ =~~= flow_map_grid(elev_map@));
    }
    out
}

/// The element-wise product of the wet-state grid and the flow map: zero at
/// every dry cell, and (for 0/1 wet values) the cell's own direction mask at
/// every wet cell.
pub open spec fn masked_grid(cur: Seq<Seq<i32>>, fm: Seq<Seq<i32>>) -> Seq<Seq<i32>> {
    Seq::new(cur.len(), |y: int| Seq::new(cur[y].len(), |x: int| (cur[y][x] * fm[y][x]) as i32))
}

/// The propagation rule for one window of the masked grid: the center stays
/// or becomes wet when it already carries flow bits, or when a cardinal
/// neighbor's mask holds the bit that points back at the center.
pub open spec fn step_of(win: Window) -> int {
    if win.c > 0 {
        1
    } else if (8i32 & win.e) == 8 || (4i32 & win.s) == 4 || (2i32 & win.w) == 2 || (1i32 & win.n)
        == 1 {
        1
    } else {
        0
    }
}

/// The kernel behind `flow_step`.
pub fn flow_step_kernel(masked_map: Window) -> (r: i32)
    ensures
        r == step_of(masked_map),
        r == 0 || r == 1,
{
    if masked_map.c > 0 {
        1
    } else if ((8 & masked_map.e) == 8) || ((4 & masked_map.s) == 4) || ((2 & masked_map.w) == 2)
        || ((1 & masked_map.n) == 1) {
        1
    } else {
        0
    }
}

/// The wet state of cell `(y, x)` after one step from wet state `cur` under
/// flow map `fm`.
pub open spec fn flow_step_cell(cur: Seq<Seq<i32>>, fm: Seq<Seq<i32>>, y: int, x: int) -> int {
    step_of(window_of(masked_grid(cur, fm), 0, y, x))
}

/// The whole wet state after one step, as a grid model.
pub open spec fn flow_step_grid(cur: Seq<Seq<i32>>, fm: Seq<Seq<i32>>) -> Seq<Seq<i32>> {
    Seq::new(
        cur.len(),
        |y: int| Seq::new(cur[y].len(), |x: int| flow_step_cell(cur, fm, y, x) as i32),
    )
}

/// Advances the wet-state grid `current_map` by one step under `flow_map`:
/// masks the flow map by the current wet state, then convolves the masked
/// grid with the propagation kernel, border-filled with 0.
pub fn flow_step(current_map: &Grid, flow_map: &Grid) -> (out: Grid)
    requires
        current_map@.len() >= 1,
        current_map@[0].len() >= 1,
        is_grid(current_map@, current_map@.len() as int, current_map@[0].len() as int),
        is_grid(flow_map@, current_map@.len() as int, current_map@[0].len() as int),
        (current_map@.len() + 2) * (current_map@[0].len() + 2) <= MAX_CELLS,
        forall|y: int, x: int|
            0 <= y < current_map@.len() && 0 <= x < current_map@[0].len() ==> i32::MIN <= (
            #[trigger] current_map@[y][x]) * (#[trigger] flow_map@[y][x]) <= i32::MAX,
    ensures
        out@ == flow_step_grid(current_map@, flow_map@),
        is_grid(out@, current_map@.len() as int, current_map@[0].len() as int),
        forall|y: int, x: int|
            0 <= y < current_map@.len() && 0 <= x < current_map@[0].len() ==> #[trigger] out@[y][x]
                == 0 || out@[y][x] == 1,
{
    let d = current_map.dims();
    let h: usize = d.0;
    let w: usize = d.1;
    proof {
        assert((h + 2) * (w + 2) >= (h + 2) && (h + 2) * (w + 2) >= (w + 2) && (h + 2) * (w + 2)
            >= h * w) by (nonlinear_arith)
            requires
                h >= 1,
                w >= 1,
        ;
    }
    let ghost cm = current_map@;
    let ghost fm = flow_map@;
    let mut masked = Grid::filled(h, w, 0);
    let mut y: usize = 0;
    while y < h
        invariant
            h == cm.len(),
            cm == current_map@,
            fm == flow_map@,
            is_grid(cm, h as int, w as int),
            is_grid(fm, h as int, w as int),
            is_grid(masked@, h as int, w as int),
            0 <= y <= h,
            forall|i: int, j: int|
                0 <= i < h && 0 <= j < w ==> i32::MIN <= (#[trigger] cm[i][j]) * (
                #[trigger] fm[i][j]) <= i32::MAX,
            forall|i: int, j: int|
                0 <= i < y && 0 <= j < w ==> #[trigger] masked@[i][j] == (cm[i][j] * fm[i][j]) as i32,
        decreases h - y,
    {
        let mut x: usize = 0;
        while x < w
            invariant
                h == cm.len(),
                cm == current_map@,
                fm == flow_map@,
                is_grid(cm, h as int, w as int),
                is_grid(fm, h as int, w as int),
                is_grid(masked@, h as int, w as int),
                0 <= y < h,
                0 <= x <= w,
                forall|i: int, j: int|
                    0 <= i < h && 0 <= j < w ==> i32::MIN <= (#[trigger] cm[i][j]) * (
                    #[trigger] fm[i][j]) <= i32::MAX,
                forall|i: int, j: int|
                    0 <= i < y && 0 <= j < w ==> #[trigger] masked@[i][j] == (cm[i][j]
                        * fm[i][j]) as i32,
                forall|j: int|
                    0 <= j < x ==> #[trigger] masked@[y as int][j] == (cm[y as int][j]
                        * fm[y as int][j]) as i32,
            decreases w - x,
        {
            let v = current_map.get(y, x) * flow_map.get(y, x);
            masked.set(y, x, v);
            x += 1;
        }
        y += 1;
    }
    proof {
        assert(masked@ =~~= masked_grid(cm, fm));
    }
    let out = functional_convolve(&masked, flow_step_kernel, 0);
    proof {
        assert forall|y2: int, x2: int| 0 <= y2 < h && 0 <= x2 < w implies #[trigger] out@[y2][x2]
            == flow_step_cell(cm, fm, y2, x2) && (out@[y2][x2] == 0 || out@[y2][x2] == 1) by {
            assert(call_ensures(
                flow_step_kernel,
                (window_of(masked@, 0, y2, x2),),
                out@[y2][x2],
            ));
        }
        assert(out@ =~~= flow_step_grid(cm, fm));
    }
    out
}

/// The four bits of a flow mask, read back one by one: the mask built by
/// `flow_mask_of` holds the west, north, east or south bit exactly when the
/// corresponding neighbor is strictly lower than the center.
pub proof fn lemma_flow_mask_bits(win: Window)
    ensures
        (FLOW_WEST & (flow_mask_of(win) as i32)) == (if win.c > win.w {
            FLOW_WEST
        } else {
            0i32
        }),
        (FLOW_NORTH & (flow_mask_of(win) as i32)) == (if win.c > win.n {
            FLOW_NORTH
        } else {
            0i32
        }),
        (FLOW_EAST & (flow_mask_of(win) as i32)) == (if win.c > win.e {
            FLOW_EAST
        } else {
            0i32
        }),
        (FLOW_SOUTH & (flow_mask_of(win) as i32)) == (if win.c > win.s {
            FLOW_SOUTH
        } else {
            0i32
        }),
{
    let wb: i32 = if win.c > win.w {
        1
    } else {
        0
    };
    let nb: i32 = if win.c > win.n {
        1
    } else {
        0
    };
    let eb: i32 = if win.c > win.e {
        1
    } else {
        0
    };
    let sb: i32 = if win.c > win.s {
        1
    } else {
        0
    };
    let m: i32 = flow_mask_of(win) as i32;
    assert(m == 8 * wb + 4 * nb + 2 * eb + sb);
    assert((8i32 & m) == 8 * wb && (4i32 & m) == 4 * nb && (2i32 & m) == 2 * eb && (1i32 & m)
        == sb) by (bit_vector)
        requires
            m == 8 * wb + 4 * nb + 2 * eb + sb,
            wb == 0 || wb == 1,
            nb == 0 || nb == 1,
            eb == 0 || eb == 1,
            sb == 0 || sb == 1,
    ;
}

/// Direction bit pointing from a cell toward its neighbor at offset
/// `(dy, dx)`, for the four cardinal offsets.
pub open spec fn dir_bit(dy: int, dx: int) -> i32 {
    if dx == -1 {
        FLOW_WEST
    } else if dy == -1 {
        FLOW_NORTH
    } else if dx == 1 {
        FLOW_EAST
    } else {
        FLOW_SOUTH
    }
}

/// Flow-direction symmetry: when cell `(y, x)` is strictly higher than its
/// cardinal neighbor `(y + dy, x + dx)`, the higher cell's mask holds the
/// bit pointing at the lower cell, and the lower cell's mask does not hold
/// the bit pointing back up.
pub proof fn lemma_flow_direction_symmetry(
    elev: Seq<Seq<i32>>,
    h: int,
    w: int,
    y: int,
    x: int,
    dy: int,
    dx: int,
)
    requires
        is_grid(elev, h, w),
        0 <= y < h,
        0 <= x < w,
        0 <= y + dy < h,
        0 <= x + dx < w,
        (dy == 0 && (dx == 1 || dx == -1)) || (dx == 0 && (dy == 1 || dy == -1)),
        elev[y][x] > elev[y + dy][x + dx],
    ensures
        (dir_bit(dy, dx) & (flow_map_cell(elev, y, x) as i32)) == dir_bit(dy, dx),
        (dir_bit(-dy, -dx) & (flow_map_cell(elev, y + dy, x + dx) as i32)) == 0,
{
    lemma_flow_mask_bits(window_of(elev, BORDER_ELEVATION, y, x));
    lemma_flow_mask_bits(window_of(elev, BORDER_ELEVATION, y + dy, x + dx));
}

/// Border containment: when every elevation lies strictly below
/// `BORDER_ELEVATION`, a cell on the grid edge never carries a direction
/// bit toward a neighbor that does not exist.
pub proof fn lemma_border_containment(elev: Seq<Seq<i32>>, h: int, w: int, y: int, x: int)
    requires
        is_grid(elev, h, w),
        h >= 1,
        w >= 1,
        0 <= y < h,
        0 <= x < w,
        forall|i: int, j: int|
            0 <= i < h && 0 <= j < w ==> #[trigger] elev[i][j] < BORDER_ELEVATION,
    ensures
        x == 0 ==> (FLOW_WEST & (flow_map_cell(elev, y, x) as i32)) == 0,
        y == 0 ==> (FLOW_NORTH & (flow_map_cell(elev, y, x) as i32)) == 0,
        x == w - 1 ==> (FLOW_EAST & (flow_map_cell(elev, y, x) as i32)) == 0,
        y == h - 1 ==> (FLOW_SOUTH & (flow_map_cell(elev, y, x) as i32)) == 0,
{
    lemma_flow_mask_bits(window_of(elev, BORDER_ELEVATION, y, x));
}

/// Border policy for an optional cell read: a missing neighbor counts as
/// `BORDER_ELEVATION` high.
pub fn inf_boarder(input: Option<&i32>) -> (r: i32)
    ensures
        r == (match input {
            Some(v) => *v,
            None => BORDER_ELEVATION,
        }),
{
    match input {
        Some(v) => *v,
        None => BORDER_ELEVATION,
    }
}

/// Border policy for an optional cell read: a missing neighbor counts as 0.
pub fn zero_boarder(input: Option<&i32>) -> (r: i32)
    ensures
        r == (match input {
            Some(v) => *v,
            None => 0i32,
        }),
{
    match input {
        Some(v) => *v,
        None => 0,
    }
}

} // verus!
