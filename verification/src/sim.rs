//! The flow simulation engine: a fixed-point iteration over wet-state grids.
//!
//! A `WaterMap` owns the precomputed flow-direction map and two wet-state
//! buffers, `current` and `next`. Each call of `advance_state` computes a
//! tentative next state; when it equals `current` the simulation has
//! converged and nothing more is emitted, otherwise the buffers shift
//! forward and the new `current` is emitted.

use vstd::prelude::*;
use vstd::set::{axiom_set_remove_finite, axiom_set_remove_len, axiom_set_union_finite};
use vstd::set_lib::{lemma_len_subset, lemma_len_union};

use crate::convolve::window_of;
use crate::flow::{
    build_flow_map, flow_map_grid, flow_step, flow_step_cell, flow_step_grid, masked_grid, step_of,
};
use crate::grid::{Grid, MAX_CELLS, grids_equal, is_grid};

verus! {

/// One simulation run: the flow-direction map and the two wet-state buffers.
pub struct WaterMap {
    flow_map: Grid,
    current: Grid,
    next: Grid,
}

/// The abstract state of a `WaterMap`: the models of its three grids.
pub struct WaterMapState {
    pub flow_map: Seq<Seq<i32>>,
    pub current: Seq<Seq<i32>>,
    pub next: Seq<Seq<i32>>,
}

impl View for WaterMap {
    type V = WaterMapState;

    closed spec fn view(&self) -> WaterMapState {
        WaterMapState { flow_map: self.flow_map@, current: self.current@, next: self.next@ }
    }
}

/// The all-zero `h` by `w` wet-state grid with a single 1 at `(r, c)`.
pub open spec fn seed_grid(h: int, w: int, r: int, c: int) -> Seq<Seq<i32>> {
    Seq::new(
        h as nat,
        |y: int|
            Seq::new(
                w as nat,
                |x: int|
                    if y == r && x == c {
                        1i32
                    } else {
                        0i32
                    },
            ),
    )
}

/// Well-formedness of a simulation state with dimensions `h` by `w`: all
/// three grids share the dimensions, wet-state cells are 0 or 1, and flow
/// masks fit in four bits.
pub open spec fn wf_state(v: WaterMapState, h: int, w: int) -> bool {
    &&& h >= 1
    &&& w >= 1
    &&& (h + 2) * (w + 2) <= MAX_CELLS
    &&& is_grid(v.flow_map, h, w)
    &&& is_grid(v.current, h, w)
    &&& is_grid(v.next, h, w)
    &&& forall|y: int, x: int| 0 <= y < h && 0 <= x < w ==> 0 <= #[trigger] v.flow_map[y][x] <= 15
    &&& forall|y: int, x: int|
        0 <= y < h && 0 <= x < w ==> (#[trigger] v.current[y][x] == 0 || v.current[y][x] == 1)
    &&& forall|y: int, x: int|
        0 <= y < h && 0 <= x < w ==> (#[trigger] v.next[y][x] == 0 || v.next[y][x] == 1)
}

impl WaterMap {
    /// The simulation is well formed for its own dimensions.
    pub open spec fn wf(&self) -> bool {
        wf_state(self@, self@.current.len() as int, self@.current[0].len() as int)
    }

    /// Starts a simulation on elevation grid `map_array`: builds the
    /// flow-direction map, seeds one wet cell at `start_point`, and copies
    /// the seed into the `next` buffer.
    pub fn new(map_array: &Grid, start_point: (usize, usize)) -> (wm: WaterMap)
        requires
            map_array@.len() >= 1,
            map_array@[0].len() >= 1,
            is_grid(map_array@, map_array@.len() as int, map_array@[0].len() as int),
            (map_array@.len() + 2) * (map_array@[0].len() + 2) <= MAX_CELLS,
            start_point.0 < map_array@.len(),
            start_point.1 < map_array@[0].len(),
        ensures
            wm.wf(),
            wm@.flow_map == flow_map_grid(map_array@),
            wm@.current == seed_grid(
                map_array@.len() as int,
                map_array@[0].len() as int,
                start_point.0 as int,
                start_point.1 as int,
            ),
            wm@.next == wm@.current,
    {
        let d = map_array.dims();
        let h: usize = d.0;
        let w: usize = d.1;
        proof {
            assert((h + 2) * (w + 2) >= (h + 2) && (h + 2) * (w + 2) >= (w + 2) && (h + 2) * (w
                + 2) >= h * w) by (nonlinear_arith)
                requires
                    h >= 1,
                    w >= 1,
            ;
        }
        let mut new = WaterMap {
            flow_map: build_flow_map(map_array),
            current: Grid::filled(h, w, 0),
            next: Grid::filled(h, w, 0),
        };
        new.set_water(start_point);
        new.next = new.current.duplicate();
        proof {
            assert(new@.current =~~= seed_grid(
                h as int,
                w as int,
                start_point.0 as int,
                start_point.1 as int,
            ));
        }
        new
    }

    /// Marks cell `start_point` of the current wet-state grid as wet.
    pub fn set_water(&mut self, start_point: (usize, usize))
        requires
            start_point.0 < old(self)@.current.len(),
            start_point.1 < old(self)@.current[start_point.0 as int].len(),
        ensures
            final(self)@.current == old(self)@.current.update(
                start_point.0 as int,
                old(self)@.current[start_point.0 as int].update(start_point.1 as int, 1i32),
            ),
            final(self)@.flow_map == old(self)@.flow_map,
            final(self)@.next == old(self)@.next,
    {
        self.current.set(start_point.0, start_point.1, 1);
    }

    /// One advance of the fixed-point iteration. Computes the tentative next
    /// state from `current`; if it equals `current` the simulation has
    /// converged and `None` comes back with the state unchanged. Otherwise
    /// the buffers shift forward — the previous `next` becomes `current`,
    /// the tentative state becomes `next` — and a copy of the new `current`
    /// is emitted.
    pub fn advance_state(&mut self) -> (r: Option<Grid>)
        requires
            old(self).wf(),
        ensures
            final(self).wf(),
            final(self)@.flow_map == old(self)@.flow_map,
            ({
                let step = flow_step_grid(old(self)@.current, old(self)@.flow_map);
                match r {
                    None => step == old(self)@.current && final(self)@.current == old(
                        self,
                    )@.current && final(self)@.next == old(self)@.next,
                    Some(g) => step != old(self)@.current && final(self)@.current == old(
                        self,
                    )@.next && final(self)@.next == step && g@ == final(self)@.current,
                }
            }),
    {
        let ghost h = self@.current.len() as int;
        let ghost w = self@.current[0].len() as int;
        proof {
            assert forall|y: int, x: int| 0 <= y < h && 0 <= x < w implies i32::MIN <= (
            #[trigger] self@.current[y][x]) * (#[trigger] self@.flow_map[y][x]) <= i32::MAX by {
                let a = self@.current[y][x];
                let b = self@.flow_map[y][x];
                if a == 0 {
                    assert(a * b == 0) by (nonlinear_arith)
                        requires
                            a == 0,
                    ;
                } else {
                    assert(a * b == b) by (nonlinear_arith)
                        requires
                            a == 1,
                    ;
                }
            }
        }
        let new_next = flow_step(&self.current, &self.flow_map);
        if grids_equal(&self.current, &new_next) {
            None
        } else {
            self.current = self.next.duplicate();
            self.next = new_next;
            let out = self.current.duplicate();
            Some(out)
        }
    }
}

/// A wet cell that carries at least one flow-direction bit stays wet across
/// a step, whatever the rest of the grid holds: its masked value is its own
/// nonzero mask, and the propagation rule keeps any center with a positive
/// masked value wet. Since a step never changes the flow map, the set of
/// such cells never shrinks while the simulation runs — the engine behind
/// its termination.
pub proof fn lemma_active_cell_stays_wet(
    cur: Seq<Seq<i32>>,
    fm: Seq<Seq<i32>>,
    h: int,
    w: int,
    y: int,
    x: int,
)
    requires
        h >= 1,
        w >= 1,
        is_grid(cur, h, w),
        is_grid(fm, h, w),
        0 <= y < h,
        0 <= x < w,
        cur[y][x] == 1,
        fm[y][x] >= 1,
    ensures
        flow_step_grid(cur, fm)[y][x] == 1,
{
    let mg = masked_grid(cur, fm);
    assert(cur[y][x] * fm[y][x] == fm[y][x]) by (nonlinear_arith)
        requires
            cur[y][x] == 1,
    ;
    assert(mg[y][x] == fm[y][x]);
    assert(window_of(mg, 0, y, x).c == mg[y][x]);
    assert(step_of(window_of(mg, 0, y, x)) == 1);
    assert(flow_step_grid(cur, fm)[y][x] == flow_step_cell(cur, fm, y, x) as i32);
}

/// Monotonicity of the wet set over one step, for wet states whose wet
/// cells all carry at least one flow-direction bit: every wet cell is still
/// wet after the step. A wet cell whose mask is zero — a basin the water
/// cannot leave — is not covered: the propagation rule reads the masked
/// grid, which is zero there, so only inflow from a wet neighbor keeps such
/// a cell wet.
pub proof fn lemma_wet_monotone(cur: Seq<Seq<i32>>, fm: Seq<Seq<i32>>, h: int, w: int)
    requires
        h >= 1,
        w >= 1,
        is_grid(cur, h, w),
        is_grid(fm, h, w),
        forall|y: int, x: int|
            0 <= y < h && 0 <= x < w ==> (#[trigger] cur[y][x] == 0 || cur[y][x] == 1),
        forall|y: int, x: int| 0 <= y < h && 0 <= x < w ==> 0 <= #[trigger] fm[y][x] <= 15,
        forall|y: int, x: int|
            0 <= y < h && 0 <= x < w && #[trigger] cur[y][x] == 1 ==> fm[y][x] != 0,
    ensures
        forall|y: int, x: int|
            0 <= y < h && 0 <= x < w && #[trigger] cur[y][x] == 1 ==> flow_step_grid(
                cur,
                fm,
            )[y][x] == 1,
{
    assert forall|y: int, x: int|
        0 <= y < h && 0 <= x < w && #[trigger] cur[y][x] == 1 implies flow_step_grid(
        cur,
        fm,
    )[y][x] == 1 by {
        lemma_active_cell_stays_wet(cur, fm, h, w, y, x);
    }
}

/// The other piece of the termination argument: the step rule reads the wet
/// state only through the masked grid, which a cell reaches only when it is
/// wet and carries flow bits. So once a step changes no flow-carrying cell,
/// the step after it reproduces its input exactly: the iteration is at its
/// fixed point. Together with `lemma_active_cell_stays_wet` this bounds the
/// run: the set of flow-carrying wet cells grows strictly until the grids
/// stop changing, and it cannot outgrow the grid.
pub proof fn lemma_convergence_when_active_stable(
    cur: Seq<Seq<i32>>,
    fm: Seq<Seq<i32>>,
    h: int,
    w: int,
)
    requires
        h >= 1,
        w >= 1,
        is_grid(cur, h, w),
        is_grid(fm, h, w),
        forall|y: int, x: int|
            0 <= y < h && 0 <= x < w ==> (#[trigger] cur[y][x] == 0 || cur[y][x] == 1),
        forall|y: int, x: int|
            0 <= y < h && 0 <= x < w && #[trigger] fm[y][x] != 0 ==> (cur[y][x] == 1
                <==> flow_step_grid(cur, fm)[y][x] == 1),
    ensures
        flow_step_grid(flow_step_grid(cur, fm), fm) == flow_step_grid(cur, fm),
{
    let step = flow_step_grid(cur, fm);
    assert(is_grid(step, h, w));
    assert forall|y: int, x: int| 0 <= y < h && 0 <= x < w implies #[trigger] step[y][x] == 0
        || step[y][x] == 1 by {
        assert(step[y][x] == flow_step_cell(cur, fm, y, x) as i32);
    }
    assert forall|y: int, x: int| 0 <= y < h && 0 <= x < w implies #[trigger] masked_grid(
        step,
        fm,
    )[y][x] == masked_grid(cur, fm)[y][x] by {
        if fm[y][x] == 0 {
            assert(cur[y][x] * fm[y][x] == 0) by (nonlinear_arith)
                requires
                    fm[y][x] == 0,
            ;
            assert(step[y][x] * fm[y][x] == 0) by (nonlinear_arith)
                requires
                    fm[y][x] == 0,
            ;
        } else {
            assert(cur[y][x] == step[y][x]);
        }
    }
    assert(masked_grid(step, fm) =~~= masked_grid(cur, fm));
    assert forall|y: int, x: int| 0 <= y < h && 0 <= x < w implies #[trigger] flow_step_grid(
        step,
        fm,
    )[y][x] == step[y][x] by {
        assert(flow_step_cell(step, fm, y, x) == step_of(
            window_of(masked_grid(cur, fm), 0, y, x),
        ));
    }
    assert(flow_step_grid(step, fm) =~~= step);
}

/// The wet state after `k` applications of the step rule to `cur` under
/// flow map `fm`.
pub open spec fn iterate_step(cur: Seq<Seq<i32>>, fm: Seq<Seq<i32>>, k: nat) -> Seq<Seq<i32>>
    decreases k,
{
    if k == 0 {
        cur
    } else {
        flow_step_grid(iterate_step(cur, fm, (k - 1) as nat), fm)
    }
}

/// The cells of an `h` by `w` wet state that are wet and carry at least one
/// flow-direction bit.
pub open spec fn active_cells(cur: Seq<Seq<i32>>, fm: Seq<Seq<i32>>, h: int, w: int) -> Set<
    (int, int),
> {
    Set::new(
        |p: (int, int)|
            0 <= p.0 < h && 0 <= p.1 < w && cur[p.0][p.1] == 1 && fm[p.0][p.1] != 0,
    )
}

/// All cell positions of an `h` by `w` grid.
spec fn grid_cells(h: int, w: int) -> Set<(int, int)> {
    Set::new(|p: (int, int)| 0 <= p.0 < h && 0 <= p.1 < w)
}

/// The cell positions of row `y`, columns 0 up to `w`.
spec fn row_cells(y: int, w: int) -> Set<(int, int)> {
    Set::new(|p: (int, int)| p.0 == y && 0 <= p.1 < w)
}

proof fn lemma_row_cells_finite(y: int, w: int)
    requires
        w >= 0,
    ensures
        row_cells(y, w).finite(),
        row_cells(y, w).len() <= w,
    decreases w,
{
    if w == 0 {
        assert(row_cells(y, 0) =~= Set::<(int, int)>::empty());
    } else {
        lemma_row_cells_finite(y, w - 1);
        assert(row_cells(y, w) =~= row_cells(y, w - 1).insert((y, w - 1)));
    }
}

proof fn lemma_grid_cells_finite(h: int, w: int)
    requires
        h >= 0,
        w >= 0,
    ensures
        grid_cells(h, w).finite(),
        grid_cells(h, w).len() <= h * w,
    decreases h,
{
    if h == 0 {
        assert(grid_cells(0, w) =~= Set::<(int, int)>::empty());
    } else {
        lemma_grid_cells_finite(h - 1, w);
        lemma_row_cells_finite(h - 1, w);
        assert(grid_cells(h, w) =~= grid_cells(h - 1, w).union(row_cells(h - 1, w)));
        axiom_set_union_finite(grid_cells(h - 1, w), row_cells(h - 1, w));
        lemma_len_union(grid_cells(h - 1, w), row_cells(h - 1, w));
        assert((h - 1) * w + w == h * w) by (nonlinear_arith);
    }
}

/// A proper subset of a finite set is strictly smaller.
proof fn lemma_proper_subset_smaller(s1: Set<(int, int)>, s2: Set<(int, int)>)
    requires
        s1.subset_of(s2),
        s1 != s2,
        s2.finite(),
    ensures
        s1.len() < s2.len(),
{
    if forall|p: (int, int)| #[trigger] s2.contains(p) ==> s1.contains(p) {
        assert(s1 =~= s2);
    }
    let p = choose|p: (int, int)| s2.contains(p) && !s1.contains(p);
    assert(s1.subset_of(s2.remove(p)));
    axiom_set_remove_finite(s2, p);
    axiom_set_remove_len(s2, p);
    lemma_len_subset(s1, s2.remove(p));
}

/// One step keeps the grid's shape and keeps every cell 0 or 1.
proof fn lemma_step_shape(cur: Seq<Seq<i32>>, fm: Seq<Seq<i32>>, h: int, w: int)
    requires
        is_grid(cur, h, w),
    ensures
        is_grid(flow_step_grid(cur, fm), h, w),
        forall|y: int, x: int|
            0 <= y < h && 0 <= x < w ==> (#[trigger] flow_step_grid(cur, fm)[y][x] == 0
                || flow_step_grid(cur, fm)[y][x] == 1),
{
    assert forall|y: int, x: int| 0 <= y < h && 0 <= x < w implies #[trigger] flow_step_grid(
        cur,
        fm,
    )[y][x] == 0 || flow_step_grid(cur, fm)[y][x] == 1 by {
        assert(flow_step_grid(cur, fm)[y][x] == flow_step_cell(cur, fm, y, x) as i32);
    }
}

/// Every iterate keeps the grid's shape and keeps every cell 0 or 1.
proof fn lemma_iterate_shape(cur: Seq<Seq<i32>>, fm: Seq<Seq<i32>>, h: int, w: int, k: nat)
    requires
        is_grid(cur, h, w),
        forall|y: int, x: int|
            0 <= y < h && 0 <= x < w ==> (#[trigger] cur[y][x] == 0 || cur[y][x] == 1),
    ensures
        is_grid(iterate_step(cur, fm, k), h, w),
        forall|y: int, x: int|
            0 <= y < h && 0 <= x < w ==> (#[trigger] iterate_step(cur, fm, k)[y][x] == 0
                || iterate_step(cur, fm, k)[y][x] == 1),
    decreases k,
{
    if k > 0 {
        lemma_iterate_shape(cur, fm, h, w, (k - 1) as nat);
        lemma_step_shape(iterate_step(cur, fm, (k - 1) as nat), fm, h, w);
    }
}

/// The set of flow-carrying wet cells never shrinks across a step.
proof fn lemma_active_set_monotone(cur: Seq<Seq<i32>>, fm: Seq<Seq<i32>>, h: int, w: int)
    requires
        h >= 1,
        w >= 1,
        is_grid(cur, h, w),
        is_grid(fm, h, w),
        forall|y: int, x: int| 0 <= y < h && 0 <= x < w ==> 0 <= #[trigger] fm[y][x] <= 15,
    ensures
        active_cells(cur, fm, h, w).subset_of(
            active_cells(flow_step_grid(cur, fm), fm, h, w),
        ),
{
    assert forall|p: (int, int)| #[trigger] active_cells(cur, fm, h, w).contains(p)
        implies active_cells(flow_step_grid(cur, fm), fm, h, w).contains(p) by {
        lemma_active_cell_stays_wet(cur, fm, h, w, p.0, p.1);
    }
}

/// When a step leaves the set of flow-carrying wet cells unchanged, the step
/// after it reproduces its input: the set equality gives the cell-by-cell
/// hypothesis of `lemma_convergence_when_active_stable`.
proof fn lemma_stable_active_set_converges(cur: Seq<Seq<i32>>, fm: Seq<Seq<i32>>, h: int, w: int)
    requires
        h >= 1,
        w >= 1,
        is_grid(cur, h, w),
        is_grid(fm, h, w),
        forall|y: int, x: int|
            0 <= y < h && 0 <= x < w ==> (#[trigger] cur[y][x] == 0 || cur[y][x] == 1),
        active_cells(cur, fm, h, w) == active_cells(flow_step_grid(cur, fm), fm, h, w),
    ensures
        flow_step_grid(flow_step_grid(cur, fm), fm) == flow_step_grid(cur, fm),
{
    let step = flow_step_grid(cur, fm);
    lemma_step_shape(cur, fm, h, w);
    assert forall|y: int, x: int| 0 <= y < h && 0 <= x < w && #[trigger] fm[y][x] != 0 implies (
    cur[y][x] == 1 <==> step[y][x] == 1) by {
        let p = (y, x);
        assert(active_cells(cur, fm, h, w).contains(p) == active_cells(
            step,
            fm,
            h,
            w,
        ).contains(p));
    }
    lemma_convergence_when_active_stable(cur, fm, h, w);
}

/// Either the iteration has already reached its fixed point after `j` steps,
/// or it has found at least `j` flow-carrying wet cells by then.
proof fn lemma_iterate_progress(cur: Seq<Seq<i32>>, fm: Seq<Seq<i32>>, h: int, w: int, j: nat)
    requires
        h >= 1,
        w >= 1,
        is_grid(cur, h, w),
        is_grid(fm, h, w),
        forall|y: int, x: int|
            0 <= y < h && 0 <= x < w ==> (#[trigger] cur[y][x] == 0 || cur[y][x] == 1),
        forall|y: int, x: int| 0 <= y < h && 0 <= x < w ==> 0 <= #[trigger] fm[y][x] <= 15,
    ensures
        iterate_step(cur, fm, j + 1) == iterate_step(cur, fm, j) || active_cells(
            iterate_step(cur, fm, j),
            fm,
            h,
            w,
        ).len() >= j,
    decreases j,
{
    if j > 0 {
        let a = iterate_step(cur, fm, (j - 1) as nat);
        let b = iterate_step(cur, fm, j);
        let c = iterate_step(cur, fm, j + 1);
        lemma_iterate_progress(cur, fm, h, w, (j - 1) as nat);
        lemma_iterate_shape(cur, fm, h, w, (j - 1) as nat);
        if b == a {
            assert(c == b);
        } else {
            assert(active_cells(a, fm, h, w).len() >= j - 1);
            if c != b {
                lemma_active_set_monotone(a, fm, h, w);
                if active_cells(a, fm, h, w) == active_cells(b, fm, h, w) {
                    lemma_stable_active_set_converges(a, fm, h, w);
                    assert(c == b);
                }
                lemma_grid_cells_finite(h, w);
                assert(active_cells(b, fm, h, w).subset_of(grid_cells(h, w)));
                lemma_len_subset(active_cells(b, fm, h, w), grid_cells(h, w));
                lemma_proper_subset_smaller(
                    active_cells(a, fm, h, w),
                    active_cells(b, fm, h, w),
                );
            }
        }
    }
}

/// Termination bound for the step rule: from any 0/1-valued wet state under
/// a four-bit flow map, at most `h * w + 1` applications of the step reach a
/// state that one more application reproduces — the fixed point at which the
/// simulation stops. The set of flow-carrying wet cells can only grow, a
/// step that adds none of them is the second-to-last, and the grid caps the
/// set at `h * w` cells.
pub proof fn lemma_termination_bound(cur: Seq<Seq<i32>>, fm: Seq<Seq<i32>>, h: int, w: int)
    requires
        h >= 1,
        w >= 1,
        is_grid(cur, h, w),
        is_grid(fm, h, w),
        forall|y: int, x: int|
            0 <= y < h && 0 <= x < w ==> (#[trigger] cur[y][x] == 0 || cur[y][x] == 1),
        forall|y: int, x: int| 0 <= y < h && 0 <= x < w ==> 0 <= #[trigger] fm[y][x] <= 15,
    ensures
        iterate_step(cur, fm, (h * w + 1) as nat + 1) == iterate_step(cur, fm, (h * w + 1) as nat),
{
    assert(h * w >= 1) by (nonlinear_arith)
        requires
            h >= 1,
            w >= 1,
    ;
    let n = (h * w + 1) as nat;
    lemma_iterate_progress(cur, fm, h, w, n);
    if iterate_step(cur, fm, n + 1) != iterate_step(cur, fm, n) {
        lemma_grid_cells_finite(h, w);
        assert(active_cells(iterate_step(cur, fm, n), fm, h, w).subset_of(grid_cells(h, w)));
        lemma_len_subset(active_cells(iterate_step(cur, fm, n), fm, h, w), grid_cells(h, w));
    }
}

/// Idempotence at the fixed point: once one step leaves the wet state
/// unchanged, running the step again leaves it unchanged too, so a
/// converged simulation stays converged.
pub proof fn lemma_fixed_point_stable(cur: Seq<Seq<i32>>, fm: Seq<Seq<i32>>)
    requires
        flow_step_grid(cur, fm) == cur,
    ensures
        flow_step_grid(flow_step_grid(cur, fm), fm) == flow_step_grid(cur, fm),
{
}

/// Seeds a wet-state grid for `map`: all dry except one wet cell at
/// `(start_point[0], start_point[1])`.
pub fn simulate_flow(map: Grid, start_point: Vec<i32>) -> (out: Grid)
    requires
        map@.len() >= 1,
        map@[0].len() >= 1,
        is_grid(map@, map@.len() as int, map@[0].len() as int),
        map@.len() * map@[0].len() <= MAX_CELLS,
        start_point.len() >= 2,
        0 <= start_point@[0] < map@.len(),
        0 <= start_point@[1] < map@[0].len(),
    ensures
        out@ == seed_grid(
            map@.len() as int,
            map@[0].len() as int,
            start_point@[0] as int,
            start_point@[1] as int,
        ),
{
    let d = map.dims();
    proof {
        assert(d.0 * d.1 >= d.0 && d.0 * d.1 >= d.1) by (nonlinear_arith)
            requires
                d.0 >= 1,
                d.1 >= 1,
        ;
    }
    let mut water_is_present = Grid::filled(d.0, d.1, 0);
    let r = start_point[0];
    let c = start_point[1];
    water_is_present.set(r as usize, c as usize, 1);
    proof {
        assert(water_is_present@ =~~= seed_grid(
            map@.len() as int,
            map@[0].len() as int,
            start_point@[0] as int,
            start_point@[1] as int,
        ));
    }
    water_is_present
}

} // verus!
