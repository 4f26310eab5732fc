// The decisions of the iterative solves, step by step on chosen values.

use pv_model::convergence::{classify, signal, Severity, SolverCalls};
use pv_model::pvcell::{BasicParams, NewtonState, PvCell, PvCellSolver};
use pv_model::scalar::Scalar;
use pv_model::series::{SearchAction, SearchState, Series, SeriesSolver};

fn s(x: f64) -> Scalar {
    Scalar::from_bits(x.to_bits())
}

fn f(x: Scalar) -> f64 {
    f64::from_bits(x.to_bits())
}

fn cell() -> PvCell {
    PvCell::new(&BasicParams {
        a_ref: s(1.81),
        i_o_ref: s(8.5e-11),
        i_l_ref: s(7.4),
        r_s: s(0.6),
        r_sh_ref: s(600.0),
        alpha_sc: s(3.8e-3),
        v_oc_ref: s(48.6),
    })
}

#[test]
fn severity_follows_the_result() {
    assert_eq!(classify(s(7.4)), Severity::Warning);
    assert_eq!(classify(s(-7.4)), Severity::Warning);
    assert_eq!(classify(s(f64::MIN_POSITIVE)), Severity::Warning);
    assert_eq!(classify(s(0.0)), Severity::Error);
    assert_eq!(classify(s(1e-320)), Severity::Error);
    assert_eq!(classify(s(f64::INFINITY)), Severity::Error);
    assert_eq!(classify(s(f64::NEG_INFINITY)), Severity::Error);
    assert_eq!(classify(s(f64::NAN)), Severity::Error);
}

#[test]
fn signal_carries_input_tolerance_and_budget() {
    assert!(signal(true, s(f64::NAN), s(1.0), s(0.1), 5).is_none());
    let raised = signal(false, s(3.0), s(240.0), s(0.1), 1000).unwrap();
    assert_eq!(raised.severity, Severity::Warning);
    assert_eq!(f(raised.input), 240.0);
    assert_eq!(f(raised.tolerance), 0.1);
    assert_eq!(raised.max_iter, 1000);
    let raised = signal(false, s(f64::INFINITY), s(240.0), s(0.1), 1000).unwrap();
    assert_eq!(raised.severity, Severity::Error);
}

#[test]
fn solves_are_counted() {
    let mut calls = SolverCalls::new();
    assert_eq!((calls.cell, calls.series), (0, 0));
    calls.record_cell();
    calls.record_cell();
    calls.record_series();
    assert_eq!((calls.cell, calls.series), (2, 1));
    let run = PvCellSolver::default().begin(&mut calls);
    assert_eq!((run.iterations, run.converged), (0, false));
    assert_eq!((calls.cell, calls.series), (3, 1));
    let search = SeriesSolver::default().begin(s(0.25), &mut calls);
    assert_eq!(search.iterations, 0);
    assert_eq!(f(search.gain), 0.25);
    assert_eq!(search.last_error.to_bits(), 0);
    assert_eq!((calls.cell, calls.series), (3, 2));
}

#[test]
fn newton_stops_on_a_small_correction_or_an_empty_budget() {
    let solver = PvCellSolver { max_iter: 3, tol_i: s(0.001), tol_v: s(0.01) };
    let start = NewtonState { iterations: 0, converged: false };
    assert!(solver.should_step(&start));
    let one = solver.after_current_step(start, s(0.005));
    assert_eq!((one.iterations, one.converged), (1, false));
    assert!(solver.should_step(&one));
    let two = solver.after_current_step(one, s(-0.0005));
    assert_eq!((two.iterations, two.converged), (2, true));
    assert!(!solver.should_step(&two));
    let other = solver.after_voltage_step(one, s(-0.005));
    assert_eq!((other.iterations, other.converged), (2, true));
    let at_tolerance = solver.after_voltage_step(one, s(0.01));
    assert!(!at_tolerance.converged);
    let nan = solver.after_current_step(at_tolerance, s(f64::NAN));
    assert_eq!((nan.iterations, nan.converged), (3, false));
    assert!(!solver.should_step(&nan));
    let none = PvCellSolver { max_iter: 0, tol_i: s(0.001), tol_v: s(0.01) };
    assert!(!none.should_step(&start));
}

#[test]
fn bypass_conducts_below_the_threshold_only() {
    let c = cell();
    assert!(c.bypass_conducts(s(-2.0)));
    assert!(!c.bypass_conducts(s(-0.65 * 3.0)));
    assert!(!c.bypass_conducts(s(-1.9)));
    assert!(!c.bypass_conducts(s(0.0)));
    assert!(!c.bypass_conducts(s(f64::NAN)));
    assert!(c.bypass_conducts(s(f64::NEG_INFINITY)));
}

#[test]
fn cell_signals_use_the_right_tolerance() {
    let c = cell();
    let failed = NewtonState { iterations: 100, converged: false };
    let done = NewtonState { iterations: 4, converged: true };
    assert!(c.current_signal(&done, s(10.0), s(7.0)).is_none());
    assert!(c.voltage_signal(&done, s(7.0), s(10.0)).is_none());
    let raised = c.current_signal(&failed, s(10.0), s(7.0)).unwrap();
    assert_eq!(f(raised.tolerance), 0.001);
    assert_eq!(f(raised.input), 10.0);
    assert_eq!(raised.max_iter, 100);
    assert_eq!(raised.severity, Severity::Warning);
    let raised = c.voltage_signal(&failed, s(7.0), s(f64::NAN)).unwrap();
    assert_eq!(f(raised.tolerance), 0.01);
    assert_eq!(f(raised.input), 7.0);
    assert_eq!(raised.severity, Severity::Error);
}

#[test]
fn search_finishes_within_tolerance() {
    let solver = SeriesSolver { max_iter: 10, tol_v: s(0.1), min_g: s(0.001) };
    let state = SearchState { iterations: 3, gain: s(0.02), last_error: s(-4.0) };
    let (next, action) = solver.observe(state, s(-0.05), s(0.2), s(0.01));
    assert!(matches!(action, SearchAction::Finish));
    assert_eq!(next.iterations, 3);
    assert_eq!(f(next.gain), 0.02);
    assert_eq!(f(next.last_error), -4.0);
    let (_, action) = solver.observe(state, s(0.1), s(-0.4), s(0.01));
    assert!(matches!(action, SearchAction::Advance { .. }));
}

#[test]
fn search_halves_the_gain_on_a_sign_change() {
    let solver = SeriesSolver { max_iter: 10, tol_v: s(0.1), min_g: s(0.001) };
    let state = SearchState { iterations: 3, gain: s(0.02), last_error: s(-4.0) };
    let (next, action) = solver.observe(state, s(2.0), s(-8.0), s(0.01));
    assert_eq!(next.iterations, 4);
    assert_eq!(f(next.gain), 0.01);
    assert_eq!(f(next.last_error), 2.0);
    match action {
        SearchAction::Advance { gain } => assert_eq!(f(gain), 0.01),
        SearchAction::Finish => panic!("not within tolerance"),
    }
    let (next, _) = solver.observe(state, s(-2.0), s(8.0), s(0.01));
    assert_eq!(f(next.gain), 0.02);
    let (next, _) = solver.observe(state, s(-2.0), s(0.0), s(0.01));
    assert_eq!(f(next.gain), 0.02);
    let (next, _) = solver.observe(state, s(-2.0), s(-0.0), s(0.01));
    assert_eq!(f(next.gain), 0.02);
}

#[test]
fn search_never_uses_a_gain_below_the_floor() {
    let solver = SeriesSolver { max_iter: 10, tol_v: s(0.1), min_g: s(0.015) };
    let state = SearchState { iterations: 0, gain: s(0.02), last_error: s(-4.0) };
    let (next, _) = solver.observe(state, s(2.0), s(-8.0), s(0.01));
    assert_eq!(f(next.gain), 0.015);
    let low = SearchState { iterations: 0, gain: s(0.001), last_error: s(0.0) };
    let (next, _) = solver.observe(low, s(2.0), s(0.0), s(0.0005));
    assert_eq!(f(next.gain), 0.015);
    let (next, _) = solver.observe(low, s(2.0), s(0.0), s(f64::NAN));
    assert_eq!(f(next.gain), 0.015);
    let unset = SearchState { iterations: 0, gain: s(f64::NAN), last_error: s(0.0) };
    let (next, _) = solver.observe(unset, s(2.0), s(0.0), s(f64::NAN));
    assert_eq!(f(next.gain), 0.015);
    for gain in [-1.0, 0.0, 1e-9, 0.015, 0.5, f64::INFINITY] {
        for product in [-1.0, 0.0, 1.0, f64::NAN] {
            let state = SearchState { iterations: 0, gain: s(gain), last_error: s(1.0) };
            let (next, _) = solver.observe(state, s(5.0), s(product), s(gain / 2.0));
            assert!(f(next.gain) >= 0.015);
        }
    }
}

#[test]
fn search_budget_counts_steps() {
    let solver = SeriesSolver { max_iter: 2, tol_v: s(0.1), min_g: s(0.0) };
    let mut calls = SolverCalls::new();
    let mut state = solver.begin(s(0.02), &mut calls);
    let mut steps = 0;
    while solver.has_budget(&state) {
        let (next, _) = solver.observe(state, s(5.0), s(5.0 * f(state.last_error)), s(f(state.gain) / 2.0));
        state = next;
        steps += 1;
    }
    assert_eq!(steps, 2);
    assert_eq!(state.iterations, 2);
    let none = SeriesSolver { max_iter: 0, tol_v: s(0.1), min_g: s(0.0) };
    assert!(!none.has_budget(&state));
    let raised = solver.search_signal(false, s(540.0), s(6.5)).unwrap();
    assert_eq!(raised.severity, Severity::Warning);
    assert_eq!(f(raised.input), 540.0);
    assert_eq!(f(raised.tolerance), 0.1);
    assert_eq!(raised.max_iter, 2);
    assert!(solver.search_signal(true, s(540.0), s(6.5)).is_none());
}

#[test]
fn cells_of_a_string_are_reached_by_index_and_iteration() {
    let string = Series::new(vec![cell().with_ns(2), cell().with_ns(3), cell().with_np(4)]);
    assert_eq!(string[0].ns, 2);
    assert_eq!(string[1].ns, 3);
    assert_eq!(string[2].np, 4);
    let counts: Vec<u32> = string.iter().map(|c| c.ns).collect();
    assert_eq!(counts, vec![2, 3, 1]);
    let mut total = 0;
    for c in string {
        total += c.ns * c.np;
    }
    assert_eq!(total, 9);
}

#[test]
fn cells_compare_numerically() {
    assert!(cell() == cell());
    assert!(cell().with_shading(s(0.0)) == cell().with_shading(s(-0.0)));
    assert!(cell() != cell().with_ns(2));
    assert!(cell() != cell().with_np(2));
    assert!(cell() != cell().with_shading(s(0.5)));
    assert!(PvCell::default() != PvCell::default());
    let slower = PvCellSolver { max_iter: 5, tol_i: s(0.001), tol_v: s(0.01) };
    assert!(cell() != cell().with_solver(slower.clone()));
    assert!(slower == slower.clone());
    assert!(PvCellSolver::default() != slower);
}
