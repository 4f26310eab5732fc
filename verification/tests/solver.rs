// The numeric solves, run in floating point around the library's control
// logic: the library decides when a solve stops, when the bypass diode
// conducts, which gain a search step uses and what is signalled.

use pv_model::convergence::{NonConvergence, Severity, SolverCalls};
use pv_model::parallel::Parallel;
use pv_model::pvcell::{BasicParams, PvCell, PvCellSolver, PvCellState};
use pv_model::scalar::Scalar;
use pv_model::series::{SearchAction, Series, SeriesSolver};

const T_REF: f64 = 298.15;
const S_REF: f64 = 1000.0;
const Q_K: f64 = 1.60217663e-19 / 1.38064852e-23;
const C_TO_K: f64 = 273.15;

fn s(x: f64) -> Scalar {
    Scalar::from_bits(x.to_bits())
}

fn f(x: Scalar) -> f64 {
    f64::from_bits(x.to_bits())
}

struct Bench {
    calls: SolverCalls,
    signals: Vec<NonConvergence>,
}

fn bench() -> Bench {
    Bench { calls: SolverCalls::new(), signals: Vec::new() }
}

fn basic(a_ref: f64, i_o_ref: f64, i_l_ref: f64, r_s: f64, r_sh_ref: f64, alpha_sc: f64, v_oc_ref: f64) -> BasicParams {
    BasicParams {
        a_ref: s(a_ref),
        i_o_ref: s(i_o_ref),
        i_l_ref: s(i_l_ref),
        r_s: s(r_s),
        r_sh_ref: s(r_sh_ref),
        alpha_sc: s(alpha_sc),
        v_oc_ref: s(v_oc_ref),
    }
}

fn params() -> BasicParams {
    basic(1.81, 8.5e-11, 7.4, 0.6, 600.0, 3.8e-3, 48.6)
}

fn compute_state(cell: &PvCell, irrad_ef: f64, cell_temp: f64) -> PvCellState {
    let irrad = irrad_ef * (1.0 - f(cell.shading));
    let tj = cell_temp + C_TO_K;
    let eg = f(cell.eg_ref) * (1. + f(cell.degdt) * (tj - T_REF));
    let gsh = irrad / (f(cell.r_sh_ref) * S_REF);
    let ra = T_REF / (f(cell.a_ref) * tj);
    let i0 = f(cell.i_o_ref) * (tj / T_REF).powi(3) * (Q_K * (f(cell.eg_ref) / T_REF - eg / tj)).exp();
    let il = (f(cell.i_l_ref) + f(cell.alpha_sc) * (tj - T_REF)) * irrad / S_REF;
    PvCellState { gsh: s(gsh), ra: s(ra), i0: s(i0), il: s(il) }
}

fn solve_i(cell: &PvCell, state: &PvCellState, v_pnl: f64, b: &mut Bench) -> f64 {
    assert!(b.calls.cell < u64::MAX);
    let mut run = cell.solver.begin(&mut b.calls);
    let (gsh, ra, i0, il, r_s) = (f(state.gsh), f(state.ra), f(state.i0), f(state.il), f(cell.r_s));
    let v = v_pnl / (cell.ns as f64);
    let mut i: f64 = 0.0;
    while cell.solver.should_step(&run) {
        let e = ((v + i * r_s) * ra).exp();
        let den = -1.0 - i0 * e * r_s * ra - r_s * gsh;
        let d = (il - i - i0 * (e - 1.0) - (v + i * r_s) * gsh) / den;
        i = i - d;
        run = cell.solver.after_current_step(run, s(d));
    }
    if cell.bypass_conducts(s(v)) {
        i += (f(cell.v_bypass) - v) / f(cell.r_bypass);
    }
    i *= cell.np as f64;
    if let Some(signal) = cell.current_signal(&run, s(v_pnl), s(i)) {
        b.signals.push(signal);
    }
    i
}

fn v_from_i(cell: &PvCell, state: &PvCellState, i_pnl: f64, b: &mut Bench) -> f64 {
    assert!(b.calls.cell < u64::MAX);
    let mut run = cell.solver.begin(&mut b.calls);
    let (gsh, ra, i0, il, r_s) = (f(state.gsh), f(state.ra), f(state.i0), f(state.il), f(cell.r_s));
    let mut v: f64 = f(cell.v_oc_ref);
    let i = i_pnl / (cell.np as f64);
    while cell.solver.should_step(&run) {
        let e = ((v + i * r_s) * ra).exp();
        let den = -i0 * e * ra - gsh;
        let d = (il - i - i0 * (e - 1.) - (v + i * r_s) * gsh) / den;
        v -= d;
        run = cell.solver.after_voltage_step(run, s(d));
    }
    if cell.bypass_conducts(s(v)) {
        let ir = solve_i(cell, state, f(cell.v_bypass), b) / (cell.np as f64);
        v = f(cell.v_bypass) - (i - ir) * f(cell.r_bypass);
    }
    v *= cell.ns as f64;
    if let Some(signal) = cell.voltage_signal(&run, s(i_pnl), s(v)) {
        b.signals.push(signal);
    }
    v
}

fn series_states(string: &Series, irrad_ef: f64, cell_temp: f64) -> Vec<PvCellState> {
    let mut states = Vec::with_capacity(string.len());
    for pnl in string.elements.iter() {
        states.push(compute_state(pnl, irrad_ef, cell_temp));
    }
    states
}

fn series_vs_from_i(string: &Series, states: &Vec<PvCellState>, i: f64, b: &mut Bench) -> Vec<f64> {
    let mut voltages = Vec::with_capacity(string.len());
    for (k, pnl) in string.elements.iter().enumerate() {
        voltages.push(v_from_i(pnl, &states[k], i, b));
    }
    voltages
}

fn series_v_from_i(string: &Series, states: &Vec<PvCellState>, i: f64, b: &mut Bench) -> f64 {
    series_vs_from_i(string, states, i, b).iter().sum()
}

fn series_i_from_v(string: &Series, states: &Vec<PvCellState>, v_str: f64, b: &mut Bench) -> f64 {
    let mut sum_voc: f64 = 0.0;
    let mut light_currents = Vec::new();
    let mut short_circuit_currents = Vec::new();
    for (k, pnl) in string.iter().enumerate() {
        sum_voc += f(pnl.v_oc_ref) * (pnl.ns as f64);
        light_currents.push(s(f(pnl.i_l_ref) * (pnl.np as f64)));
        short_circuit_currents.push(s(solve_i(pnl, &states[k], 0.0, b)));
    }
    let il = f(Scalar::smallest(&light_currents));
    let mut i0 = f(Scalar::smallest(&short_circuit_currents));
    assert!(b.calls.series < u64::MAX);
    let mut search = string.solver.begin(s(il / sum_voc), &mut b.calls);
    let mut finished = false;
    while string.solver.has_budget(&search) {
        let v0 = series_v_from_i(string, states, i0, b);
        let dv = v0 - v_str;
        let (next, action) = string.solver.observe(
            search,
            s(dv),
            s(dv * f(search.last_error)),
            s(f(search.gain) / 2.0),
        );
        search = next;
        match action {
            SearchAction::Finish => {
                finished = true;
                break;
            }
            SearchAction::Advance { gain } => {
                assert!(!(f(gain) < f(string.solver.min_g)));
                i0 += dv * f(gain);
            }
        }
        assert!(search.iterations <= string.solver.max_iter);
    }
    if let Some(signal) = string.solver.search_signal(finished, s(v_str), s(i0)) {
        b.signals.push(signal);
    }
    i0
}

fn parallel_states(array: &Parallel, irrad_ef: f64, cell_temp: f64) -> Vec<Vec<PvCellState>> {
    let mut states = Vec::with_capacity(array.len());
    for string in array.elements.iter() {
        states.push(series_states(string, irrad_ef, cell_temp));
    }
    states
}

fn parallel_i_from_v(array: &Parallel, states: &Vec<Vec<PvCellState>>, v: f64, b: &mut Bench) -> f64 {
    let mut i_arr = 0.0;
    for (k, it) in array.elements.iter().enumerate() {
        i_arr += series_i_from_v(it, &states[k], v, b);
    }
    i_arr
}

fn scenario_string() -> Series {
    let params0 = params();
    let params1 = PvCell {
        a_ref: s(1.94),
        i_o_ref: s(2.5e-11),
        i_l_ref: s(9.3),
        r_s: s(0.4),
        r_sh_ref: s(600.0),
        alpha_sc: s(3.8e-3),
        v_oc_ref: s(47.4),
        v_bypass: s(-0.65 * 3.0),
        r_bypass: s(0.1),
        eg_ref: s(1.121),
        degdt: s(-0.0002677),
        np: 2,
        ..PvCell::default()
    };
    let solver_settings = PvCellSolver { max_iter: 100, tol_i: s(0.001), tol_v: s(0.01) };
    let pnl0: PvCell = PvCell::new(&params0).with_ns(3).with_np(1).with_solver(solver_settings);
    let pnl1: PvCell = PvCell { ..params1 };
    let pnl2: PvCell = PvCell::new(&basic(1.94, 2.5e-11, 9.3, 0.4, 600.0, 3.8e-3, 47.4));
    Series::new(vec![
        pnl0.clone(),
        pnl1.clone(),
        pnl2.clone(),
        pnl2.clone(),
        pnl0.clone(),
        pnl2.clone(),
        pnl1.clone(),
        pnl0.clone(),
        pnl0.clone(),
        pnl0.clone(),
    ])
    .with_solver(SeriesSolver { max_iter: 1000, tol_v: s(1e-1), min_g: s(0.0) })
}

const CONDITIONS: [(f64, f64); 4] = [(200.0, 60.0), (800.0, 30.0), (600.0, 25.0), (999.0, 45.0)];
const VOLTAGES: [f64; 5] = [40.0 * 6.0, 80.0 * 6.0, 90.0 * 6.0, 110.0 * 6.0, 125.0 * 6.0];

fn run(repeat_n: usize, reduce: bool) -> f64 {
    let mut sum_p: f64 = 0.0;
    let mut string = scenario_string();
    let mut b = bench();
    if reduce {
        let (reduced, map_o_to_r, map_r_to_o) = string.reduce();
        string = reduced;
        println!(" reduced: {:?}", &string);
        println!("map_o_to_r: {:?}", &map_o_to_r);
        println!("map_r_to_o: {:?}", &map_r_to_o);
    }
    for _ in 0..repeat_n {
        for cond in CONDITIONS {
            let (irrad, temp) = cond;
            let states = series_states(&string, irrad, temp);
            for v in VOLTAGES {
                let i = series_i_from_v(&string, &states, v, &mut b);
                let v2 = series_v_from_i(&string, &states, i, &mut b);
                sum_p += v2 * i;
            }
        }
    }
    println!("series searches: {}", b.calls.series);
    println!("cell solves: {}", b.calls.cell);
    println!("sum_p: {sum_p}");
    sum_p
}

#[test]
fn vetorizacao() {
    let pnl = PvCell::new(&params());
    let mut string = Series::new(vec![pnl; 5]);

    string.elements[0].a_ref = s(1.92);
    string.elements[1].np = 2;
    println!("{:?}", &string);
    let (string2, _, _) = string.clone().reduce();
    println!("{:?}", &string2);

    let array1 = Parallel::new(vec![string.clone(), string, string2]);
    println!("{:?}", &array1);

    let (array2, _, _) = array1.reduce();
    println!("{:?}", &array2);

    let conditions = [600.0, 25.0];
    let voltage = 125.0;

    let states1 = parallel_states(&array1, conditions[0], conditions[1]);
    let states2 = parallel_states(&array2, conditions[0], conditions[1]);

    let mut b = bench();
    let i1 = parallel_i_from_v(&array1, &states1, voltage, &mut b);
    let i2 = parallel_i_from_v(&array2, &states2, voltage, &mut b);

    println!("i1 = {:?}", &i1);
    println!("i2 = {:?}", &i2);
}

#[test]
fn test_original() {
    let res = run(1, false);
    assert!((res - 49475.47731878234).abs() < 1.0);
}

#[test]
fn test_reduced() {
    let res = run(1, true);
    assert!((res - 49475.47731878234).abs() < 1.0);
}

#[test]
fn parallel_count_scales_current_exactly() {
    let cell = PvCell::new(&params()).with_ns(2);
    let state = compute_state(&cell, 800.0, 30.0);
    let mut b = bench();
    for v in [-10.0, 0.0, 20.0, 60.0, 90.0] {
        let one = solve_i(&cell, &state, v, &mut b);
        for k in [1u32, 2, 3, 7, 100] {
            let many = solve_i(&cell.clone().with_np(k), &state, v, &mut b);
            assert_eq!(many, (k as f64) * one);
        }
    }
}

#[test]
fn string_voltage_is_sum_of_cell_voltages() {
    let string = scenario_string();
    let states = series_states(&string, 600.0, 25.0);
    let mut b = bench();
    for i in [0.5, 2.0, 4.0, 5.5] {
        let total = series_v_from_i(&string, &states, i, &mut b);
        let mut sum = 0.0;
        for (k, pnl) in string.elements.iter().enumerate() {
            sum += v_from_i(pnl, &states[k], i, &mut b);
        }
        assert_eq!(total, sum);
    }
}

#[test]
fn round_trip_meets_voltage_tolerance() {
    let string = scenario_string();
    for (irrad, temp) in CONDITIONS {
        let states = series_states(&string, irrad, temp);
        for v in VOLTAGES {
            let mut b = bench();
            let i = series_i_from_v(&string, &states, v, &mut b);
            let v2 = series_v_from_i(&string, &states, i, &mut b);
            assert!(b.signals.is_empty());
            assert!((v2 - v).abs() < f(string.solver.tol_v));
        }
    }
}

#[test]
fn reduced_string_agrees_with_the_full_string() {
    let string = scenario_string();
    let (reduced, _, _) = string.reduce();
    let reduced = reduced.with_solver(string.solver.clone());
    assert_eq!(reduced.len(), 3);
    for (irrad, temp) in CONDITIONS {
        let states = series_states(&string, irrad, temp);
        let reduced_states = series_states(&reduced, irrad, temp);
        for v in VOLTAGES {
            let mut b = bench();
            let i = series_i_from_v(&string, &states, v, &mut b);
            let ir = series_i_from_v(&reduced, &reduced_states, v, &mut b);
            let back = series_v_from_i(&string, &states, i, &mut b);
            let back_reduced = series_v_from_i(&reduced, &reduced_states, ir, &mut b);
            assert!((back - v).abs() < 0.1 && (back_reduced - v).abs() < 0.1);
            let same = series_v_from_i(&reduced, &reduced_states, i, &mut b);
            assert!((same - back).abs() < 0.1);
        }
    }
}

#[test]
fn reduced_array_agrees_with_the_full_array() {
    let pnl = PvCell::new(&params());
    let mut string = Series::new(vec![pnl; 5]);
    string.elements[0].a_ref = s(1.92);
    string.elements[1].np = 2;
    let (string2, _, _) = string.reduce();
    let array1 = Parallel::new(vec![string.clone(), string, string2]);
    let (array2, forward, backward) = array1.reduce();
    assert_eq!(array2.len(), 1);
    assert_eq!(forward, vec![0, 0, 0]);
    assert_eq!(backward, vec![vec![0, 1, 2]]);
    let states1 = parallel_states(&array1, 600.0, 25.0);
    let states2 = parallel_states(&array2, 600.0, 25.0);
    let mut b = bench();
    let i1 = parallel_i_from_v(&array1, &states1, 125.0, &mut b);
    let i2 = parallel_i_from_v(&array2, &states2, 125.0, &mut b);
    assert!((i1 - i2).abs() < 0.05);
}

#[test]
fn search_counts_solves() {
    let string = scenario_string();
    let states = series_states(&string, 800.0, 30.0);
    let mut b = bench();
    series_i_from_v(&string, &states, 540.0, &mut b);
    assert_eq!(b.calls.series, 1);
    assert!(b.calls.cell >= 20);
}

#[test]
fn exhausted_search_warns() {
    let string = scenario_string().with_solver(SeriesSolver { max_iter: 2, tol_v: s(1e-9), min_g: s(0.0) });
    let states = series_states(&string, 800.0, 30.0);
    let mut b = bench();
    let i = series_i_from_v(&string, &states, 540.0, &mut b);
    assert_eq!(b.signals.len(), 1);
    let signal = b.signals[0];
    assert_eq!(signal.severity, Severity::Warning);
    assert_eq!(f(signal.input), 540.0);
    assert_eq!(f(signal.tolerance), 1e-9);
    assert_eq!(signal.max_iter, 2);
    assert!(i.is_normal());
}

#[test]
fn exhausted_newton_with_nan_is_an_error() {
    let cell = PvCell::default().with_solver(PvCellSolver { max_iter: 3, tol_i: s(0.001), tol_v: s(0.01) });
    let state = compute_state(&cell, 800.0, 30.0);
    let mut b = bench();
    let i = solve_i(&cell, &state, 10.0, &mut b);
    assert!(i.is_nan());
    assert_eq!(b.signals.len(), 1);
    assert_eq!(b.signals[0].severity, Severity::Error);
    assert_eq!(b.signals[0].max_iter, 3);
    assert_eq!(f(b.signals[0].input), 10.0);
}

#[test]
fn zero_budget_returns_the_seed() {
    let cell = PvCell::new(&params()).with_solver(PvCellSolver { max_iter: 0, tol_i: s(0.001), tol_v: s(0.01) });
    let state = compute_state(&cell, 800.0, 30.0);
    let mut b = bench();
    let i = solve_i(&cell, &state, 10.0, &mut b);
    assert_eq!(i, 0.0);
    assert_eq!(b.signals.len(), 1);
    assert_eq!(b.signals[0].severity, Severity::Error);
    let v = v_from_i(&cell, &state, 1.0, &mut b);
    assert_eq!(v, 48.6);
    assert_eq!(b.signals.len(), 2);
    assert_eq!(b.signals[1].severity, Severity::Warning);
}

#[test]
fn bypass_region_is_linear() {
    let cell = PvCell::new(&params());
    let state = compute_state(&cell, 200.0, 25.0);
    let mut b = bench();
    let i_a = solve_i(&cell, &state, -3.0, &mut b);
    let i_b = solve_i(&cell, &state, -4.0, &mut b);
    assert!(i_b > i_a);
    assert!(((i_b - i_a) - 10.0).abs() < 0.1);
    let v = v_from_i(&cell, &state, 20.0, &mut b);
    assert!(v < -1.95);
    let v2 = v_from_i(&cell, &state, 30.0, &mut b);
    assert!(((v - v2) - 1.0).abs() < 1e-9);
}
