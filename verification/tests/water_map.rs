use water_map::convolve::{Window, functional_convolve};
use water_map::flow::{
    build_flow_map, flow_map_kernel, flow_step, flow_step_kernel, inf_boarder, zero_boarder,
};
use water_map::grid::{Grid, grids_equal};
use water_map::sim::{WaterMap, simulate_flow};

fn grid(h: usize, w: usize, data: Vec<i32>) -> Grid {
    Grid::from_vec(h, w, data)
}

fn run_to_convergence(wm: &mut WaterMap) -> Vec<Grid> {
    let mut snapshots: Vec<Grid> = Vec::new();
    loop {
        match wm.advance_state() {
            Some(g) => snapshots.push(g),
            None => return snapshots,
        }
    }
}

fn wet_subset(a: &Grid, b: &Grid) -> bool {
    let (h, w) = a.dims();
    for y in 0..h {
        for x in 0..w {
            if a.cell(y, x) != 0 && b.cell(y, x) == 0 {
                return false;
            }
        }
    }
    true
}

#[test]
fn test_basic_flow_simulation() {
    let map = grid(
        5,
        5,
        vec![
            10, 10, 10, 10, 10, //
            10, 10, 10, 10, 10, //
            10, 10, 1, 10, 10, //
            10, 10, 10, 10, 10, //
            10, 10, 10, 10, 10,
        ],
    );
    let target = grid(
        5,
        5,
        vec![
            0, 0, 0, 0, 0, //
            0, 0, 0, 0, 0, //
            0, 0, 1, 0, 0, //
            0, 0, 0, 0, 0, //
            0, 0, 0, 0, 0,
        ],
    );
    let out = simulate_flow(map, vec![2, 2]);
    assert!(grids_equal(&out, &target));
}

#[test]
fn test_flow_simulation() {
    let map = grid(
        5,
        5,
        vec![
            10, 10, 1, 10, 10, //
            10, 10, 2, 10, 10, //
            10, 10, 3, 10, 10, //
            10, 10, 2, 10, 10, //
            10, 10, 1, 10, 10,
        ],
    );
    let target = grid(
        5,
        5,
        vec![
            0, 0, 1, 0, 0, //
            0, 0, 1, 0, 0, //
            0, 0, 1, 0, 0, //
            0, 0, 1, 0, 0, //
            0, 0, 1, 0, 0,
        ],
    );
    let mut map = WaterMap::new(&map, (2, 2));
    let snapshots = run_to_convergence(&mut map);
    let out = snapshots.last();
    assert!(out.is_some());
    assert!(grids_equal(out.unwrap(), &target));
}

#[test]
fn test_funct_convolve() {
    let input = grid(
        3,
        3,
        vec![
            2, 3, 4, //
            5, 6, 7, //
            8, 9, 10,
        ],
    );
    let target = grid(
        3,
        3,
        vec![
            16, 27, 20, //
            33, 54, 39, //
            28, 45, 32,
        ],
    );
    let out = functional_convolve(
        &input,
        |a: Window| a.nw + a.n + a.ne + a.w + a.c + a.e + a.sw + a.s + a.se,
        0,
    );
    assert!(grids_equal(&out, &target));
}

#[test]
fn test_build_flow_map() {
    let input = grid(
        4,
        5,
        vec![
            5, 5, 5, 5, 5, //
            5, 1, 6, 5, 5, //
            5, 2, 3, 4, 5, //
            5, 5, 5, 5, 5,
        ],
    );
    let target = grid(
        4,
        5,
        vec![
            0, 1, 0, 0, 0, //
            2, 0, 15, 1, 0, //
            2, 4, 8, 8, 8, //
            0, 4, 4, 4, 0,
        ],
    );
    let out = build_flow_map(&input);
    assert!(grids_equal(&out, &target));
}

#[test]
fn test_flow_step() {
    let flow_map = grid(
        4,
        5,
        vec![
            2, 0, 0, 1, 0, //
            0, 0, 0, 0, 0, //
            0, 0, 0, 0, 0, //
            4, 0, 0, 8, 0,
        ],
    );
    let current_step = grid(
        4,
        5,
        vec![
            1, 0, 0, 1, 0, //
            0, 0, 0, 0, 0, //
            0, 0, 0, 0, 0, //
            1, 0, 0, 1, 0,
        ],
    );
    let next_step = grid(
        4,
        5,
        vec![
            1, 1, 0, 1, 0, //
            0, 0, 0, 1, 0, //
            1, 0, 0, 0, 0, //
            1, 0, 1, 1, 0,
        ],
    );
    let out = flow_step(&current_step, &flow_map);
    assert!(grids_equal(&out, &next_step));
}

#[test]
fn test_flow_map_kernel_values() {
    // The sink cell of elevation 6 surrounded by 1, 5, 5, 3: every cardinal
    // neighbor is lower, so all four bits combine.
    let win = Window { nw: 5, n: 5, ne: 5, w: 1, c: 6, e: 5, sw: 5, s: 3, se: 5 };
    assert_eq!(flow_map_kernel(win), 8 + 4 + 2 + 1);
    // A cell lower than or equal to all neighbors is a basin: mask 0.
    let basin = Window { nw: 9, n: 9, ne: 9, w: 9, c: 9, e: 9, sw: 9, s: 9, se: 9 };
    assert_eq!(flow_map_kernel(basin), 0);
    // Corners never count, only the four cardinal neighbors do.
    let corners = Window { nw: 0, n: 9, ne: 0, w: 9, c: 5, e: 9, sw: 0, s: 9, se: 0 };
    assert_eq!(flow_map_kernel(corners), 0);
}

#[test]
fn test_flow_step_kernel_values() {
    // A wet center carrying any flow bits stays wet.
    let wet = Window { nw: 0, n: 0, ne: 0, w: 0, c: 2, e: 0, sw: 0, s: 0, se: 0 };
    assert_eq!(flow_step_kernel(wet), 1);
    // The eastern neighbor flows west (bit 8) into the center.
    let from_east = Window { nw: 0, n: 0, ne: 0, w: 0, c: 0, e: 8, sw: 0, s: 0, se: 0 };
    assert_eq!(flow_step_kernel(from_east), 1);
    // The eastern neighbor flowing further east (bit 2) does not wet the center.
    let away_east = Window { nw: 0, n: 0, ne: 0, w: 0, c: 0, e: 2, sw: 0, s: 0, se: 0 };
    assert_eq!(flow_step_kernel(away_east), 0);
    // The southern neighbor flows north (bit 4) into the center.
    let from_south = Window { nw: 0, n: 0, ne: 0, w: 0, c: 0, e: 0, sw: 0, s: 4, se: 0 };
    assert_eq!(flow_step_kernel(from_south), 1);
    // The western neighbor flows east (bit 2) into the center.
    let from_west = Window { nw: 0, n: 0, ne: 0, w: 2, c: 0, e: 0, sw: 0, s: 0, se: 0 };
    assert_eq!(flow_step_kernel(from_west), 1);
    // The northern neighbor flows south (bit 1) into the center.
    let from_north = Window { nw: 0, n: 1, ne: 0, w: 0, c: 0, e: 0, sw: 0, s: 0, se: 0 };
    assert_eq!(flow_step_kernel(from_north), 1);
    // A fully dry, maskless neighborhood stays dry.
    let dry = Window { nw: 0, n: 0, ne: 0, w: 0, c: 0, e: 0, sw: 0, s: 0, se: 0 };
    assert_eq!(flow_step_kernel(dry), 0);
}

#[test]
fn test_border_policies() {
    let v: i32 = 42;
    assert_eq!(inf_boarder(Some(&v)), 42);
    assert_eq!(inf_boarder(None), 9999);
    assert_eq!(zero_boarder(Some(&v)), 42);
    assert_eq!(zero_boarder(None), 0);
}

#[test]
fn test_border_masks_stay_on_grid() {
    // A plateau sloping toward its center: no border cell may claim a flow
    // path off the grid, and the single lowest cell keeps mask 0.
    let input = grid(1, 1, vec![7]);
    let out = build_flow_map(&input);
    assert_eq!(out.cell(0, 0), 0);
    let column = grid(2, 1, vec![5, 3]);
    let masks = build_flow_map(&column);
    // The higher cell points south (bit 1) and nowhere off-grid.
    assert_eq!(masks.cell(0, 0), 1);
    // The lower cell is a basin.
    assert_eq!(masks.cell(1, 0), 0);
}

#[test]
fn test_wet_set_grows_monotonically() {
    // Along a channel whose wet cells always carry flow bits, each snapshot's
    // wet set contains the previous one.
    let map = grid(
        5,
        5,
        vec![
            10, 10, 1, 10, 10, //
            10, 10, 2, 10, 10, //
            10, 10, 3, 10, 10, //
            10, 10, 2, 10, 10, //
            10, 10, 1, 10, 10,
        ],
    );
    let mut wm = WaterMap::new(&map, (2, 2));
    let snapshots = run_to_convergence(&mut wm);
    assert!(snapshots.len() >= 2);
    for i in 0..snapshots.len() - 1 {
        assert!(wet_subset(&snapshots[i], &snapshots[i + 1]));
    }
}

#[test]
fn test_converged_simulation_stays_converged() {
    let map = grid(
        5,
        5,
        vec![
            10, 10, 1, 10, 10, //
            10, 10, 2, 10, 10, //
            10, 10, 3, 10, 10, //
            10, 10, 2, 10, 10, //
            10, 10, 1, 10, 10,
        ],
    );
    let mut wm = WaterMap::new(&map, (2, 2));
    let _ = run_to_convergence(&mut wm);
    // Once converged, further advances change nothing and emit nothing.
    assert!(wm.advance_state().is_none());
    assert!(wm.advance_state().is_none());
}

#[test]
fn test_snapshot_count_stays_bounded() {
    // The buffers lag one step behind the tentative state, so a run emits at
    // most two snapshots per distinct wet state: never more than twice the
    // cell count.
    let map = grid(
        5,
        5,
        vec![
            10, 10, 1, 10, 10, //
            10, 10, 2, 10, 10, //
            10, 10, 3, 10, 10, //
            10, 10, 2, 10, 10, //
            10, 10, 1, 10, 10,
        ],
    );
    let mut wm = WaterMap::new(&map, (2, 2));
    let snapshots = run_to_convergence(&mut wm);
    assert_eq!(snapshots.len(), 4);
    assert!(snapshots.len() <= 2 * 5 * 5);
}

#[test]
fn test_flow_step_dries_isolated_sink() {
    // A wet cell with mask 0 and no wet neighbor is dropped by the
    // propagation rule: the masked grid is zero everywhere around it.
    let flow_map = grid(
        3,
        3,
        vec![
            0, 0, 0, //
            0, 0, 0, //
            0, 0, 0,
        ],
    );
    let current = grid(
        3,
        3,
        vec![
            0, 0, 0, //
            0, 1, 0, //
            0, 0, 0,
        ],
    );
    let all_dry = grid(3, 3, vec![0, 0, 0, 0, 0, 0, 0, 0, 0]);
    let out = flow_step(&current, &flow_map);
    assert!(grids_equal(&out, &all_dry));
}

#[test]
fn test_grids_equal_dimensions() {
    let a = grid(2, 3, vec![1, 2, 3, 4, 5, 6]);
    let b = grid(2, 3, vec![1, 2, 3, 4, 5, 6]);
    let c = grid(3, 2, vec![1, 2, 3, 4, 5, 6]);
    let d = grid(2, 3, vec![1, 2, 3, 4, 5, 7]);
    assert!(grids_equal(&a, &b));
    assert!(!grids_equal(&a, &c));
    assert!(!grids_equal(&a, &d));
    let (h, w) = a.dims();
    assert_eq!((h, w), (2, 3));
    assert_eq!(a.cell(1, 2), 6);
}
