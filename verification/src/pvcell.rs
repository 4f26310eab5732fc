//! The cell: physical parameters, multiplicities, solver settings, and the
//! equivalence relations under which cells are folded together.

use vstd::prelude::*;
use vstd::std_specs::cmp::PartialEqSpecImpl;
use crate::convergence::{signal, signal_of, NonConvergence, SolverCalls};
use crate::scalar::Scalar;

verus! {

/// Bit pattern of the default current tolerance, 0.001 A.
pub const DEFAULT_TOL_I_BITS: u64 = 0x3f50_624d_d2f1_a9fc;

/// Bit pattern of the default voltage tolerance, 0.01 V.
pub const DEFAULT_TOL_V_BITS: u64 = 0x3f84_7ae1_47ae_147b;

/// Bit pattern of the quiet NaN that marks a physical parameter as not yet given.
pub const UNSET_BITS: u64 = 0x7ff8_0000_0000_0000;

/// Bit pattern of the default bypass threshold, three diode drops of -0.65 V.
pub const DEFAULT_V_BYPASS_BITS: u64 = 0xbfff_3333_3333_3334;

/// Bit pattern of the default bypass resistance, 0.1 ohm.
pub const DEFAULT_R_BYPASS_BITS: u64 = 0x3fb9_9999_9999_999a;

/// Bit pattern of the default band gap at reference temperature, 1.121 eV (silicon).
pub const DEFAULT_EG_REF_BITS: u64 = 0x3ff1_ef9d_b22d_0e56;

/// Bit pattern of the default band gap temperature coefficient, -0.0002677 per kelvin (silicon).
pub const DEFAULT_DEGDT_BITS: u64 = 0xbf31_8b42_bec1_714f;

/// Iteration budget and tolerances of the per-cell Newton solves.
#[derive(Debug)]
pub struct PvCellSolver {
    /// Largest number of Newton steps of one solve.
    pub max_iter: usize,
    /// Current tolerance, in amperes.
    pub tol_i: Scalar,
    /// Voltage tolerance, in volts.
    pub tol_v: Scalar,
}

impl PvCellSolver {
    /// The settings a cell starts with: 100 steps, 0.001 A, 0.01 V.
    pub open spec fn standard() -> PvCellSolver {
        PvCellSolver {
            max_iter: 100,
            tol_i: Scalar { bits: DEFAULT_TOL_I_BITS },
            tol_v: Scalar { bits: DEFAULT_TOL_V_BITS },
        }
    }
}

impl PvCellSolver {
    /// The same budget, and numerically equal tolerances.
    pub open spec fn same_settings(self, other: PvCellSolver) -> bool {
        self.max_iter == other.max_iter && self.tol_i.equals(other.tol_i) && self.tol_v.equals(
            other.tol_v,
        )
    }
}

impl Default for PvCellSolver {
    fn default() -> (r: PvCellSolver)
        ensures
            r == PvCellSolver::standard(),
    {
        PvCellSolver {
            max_iter: 100,
            tol_i: Scalar { bits: DEFAULT_TOL_I_BITS },
            tol_v: Scalar { bits: DEFAULT_TOL_V_BITS },
        }
    }
}

impl Clone for PvCellSolver {
    fn clone(&self) -> (r: PvCellSolver)
        ensures
            r == *self,
    {
        PvCellSolver { max_iter: self.max_iter, tol_i: self.tol_i, tol_v: self.tol_v }
    }
}

/// `==` compares the budget exactly and the tolerances numerically.
impl PartialEq for PvCellSolver {
    fn eq(&self, other: &PvCellSolver) -> (r: bool) {
        self.max_iter == other.max_iter && self.tol_i.num_eq(other.tol_i) && self.tol_v.num_eq(
            other.tol_v,
        )
    }
}

impl PartialEqSpecImpl for PvCellSolver {
    open spec fn obeys_eq_spec() -> bool {
        true
    }

    open spec fn eq_spec(&self, other: &PvCellSolver) -> bool {
        self.same_settings(*other)
    }
}

/// Progress of one Newton solve of a cell.
#[derive(Clone, Copy, Debug)]
pub struct NewtonState {
    /// Steps taken so far.
    pub iterations: usize,
    /// The last step's correction was within the tolerance.
    pub converged: bool,
}

impl PvCellSolver {
    /// The solve goes on: it has not converged and has budget left.
    pub open spec fn wants_step(self, state: NewtonState) -> bool {
        !state.converged && state.iterations < self.max_iter
    }

    /// Starts a solve, and counts it.
    pub fn begin(&self, calls: &mut SolverCalls) -> (r: NewtonState)
        requires
            old(calls).cell < u64::MAX,
        ensures
            r == (NewtonState { iterations: 0, converged: false }),
            final(calls).cell == old(calls).cell + 1,
            final(calls).series == old(calls).series,
    {
        calls.record_cell();
        NewtonState { iterations: 0, converged: false }
    }

    pub fn should_step(&self, state: &NewtonState) -> (r: bool)
        ensures
            r == self.wants_step(*state),
    {
        !state.converged && state.iterations < self.max_iter
    }

    /// Accounts for one step of a current solve, whose Newton correction was
    /// `correction`: the solve has converged if the correction's magnitude is
    /// below the current tolerance.
    pub fn after_current_step(&self, state: NewtonState, correction: Scalar) -> (r: NewtonState)
        requires
            self.wants_step(state),
        ensures
            r == (NewtonState {
                iterations: (state.iterations + 1) as usize,
                converged: correction.absolute().below(self.tol_i),
            }),
            r.iterations <= self.max_iter,
    {
        NewtonState {
            iterations: state.iterations + 1,
            converged: correction.abs().num_lt(self.tol_i),
        }
    }

    /// Accounts for one step of a voltage solve, whose Newton correction was
    /// `correction`: the solve has converged if the correction's magnitude is
    /// below the voltage tolerance.
    pub fn after_voltage_step(&self, state: NewtonState, correction: Scalar) -> (r: NewtonState)
        requires
            self.wants_step(state),
        ensures
            r == (NewtonState {
                iterations: (state.iterations + 1) as usize,
                converged: correction.absolute().below(self.tol_v),
            }),
            r.iterations <= self.max_iter,
    {
        NewtonState {
            iterations: state.iterations + 1,
            converged: correction.abs().num_lt(self.tol_v),
        }
    }
}

/// Electrical coefficients of one cell under one pair of ambient conditions.
#[derive(Debug)]
pub struct PvCellState {
    /// Shunt conductance.
    pub gsh: Scalar,
    /// Reciprocal of the thermal voltage, scaled by the ideality factor.
    pub ra: Scalar,
    /// Diode saturation current.
    pub i0: Scalar,
    /// Light-generated current.
    pub il: Scalar,
}

impl Clone for PvCellState {
    fn clone(&self) -> (r: PvCellState)
        ensures
            r == *self,
    {
        PvCellState { gsh: self.gsh, ra: self.ra, i0: self.i0, il: self.il }
    }
}

/// The seven datasheet parameters every cell must be given.
pub struct BasicParams {
    pub a_ref: Scalar,
    pub i_o_ref: Scalar,
    pub i_l_ref: Scalar,
    pub r_s: Scalar,
    pub r_sh_ref: Scalar,
    pub alpha_sc: Scalar,
    pub v_oc_ref: Scalar,
}

/// A group of `ns` by `np` identical physical cells, combined beforehand.
#[derive(Debug)]
pub struct PvCell {
    /// Ideality factor.
    pub a_ref: Scalar,
    /// Saturation current at reference conditions.
    pub i_o_ref: Scalar,
    /// Light current at reference conditions.
    pub i_l_ref: Scalar,
    /// Series resistance.
    pub r_s: Scalar,
    /// Shunt resistance at reference conditions.
    pub r_sh_ref: Scalar,
    /// Temperature coefficient of the short-circuit current.
    pub alpha_sc: Scalar,
    /// Open-circuit voltage at reference conditions.
    pub v_oc_ref: Scalar,
    /// Voltage below which the bypass diode conducts.
    pub v_bypass: Scalar,
    /// Resistance of the bypass path.
    pub r_bypass: Scalar,
    /// Band gap at reference temperature.
    pub eg_ref: Scalar,
    /// Temperature coefficient of the band gap.
    pub degdt: Scalar,
    /// Fraction of the irradiance that is occluded.
    pub shading: Scalar,
    /// Number of identical cells in parallel; scales current.
    pub np: u32,
    /// Number of identical cells in series; scales voltage.
    pub ns: u32,
    pub solver: PvCellSolver,
}

impl Clone for PvCell {
    fn clone(&self) -> (r: PvCell)
        ensures
            r == *self,
    {
        PvCell {
            a_ref: self.a_ref,
            i_o_ref: self.i_o_ref,
            i_l_ref: self.i_l_ref,
            r_s: self.r_s,
            r_sh_ref: self.r_sh_ref,
            alpha_sc: self.alpha_sc,
            v_oc_ref: self.v_oc_ref,
            v_bypass: self.v_bypass,
            r_bypass: self.r_bypass,
            eg_ref: self.eg_ref,
            degdt: self.degdt,
            shading: self.shading,
            np: self.np,
            ns: self.ns,
            solver: self.solver.clone(),
        }
    }
}

/// `==` holds of two cells with numerically equal physical parameters, the
/// same multiplicities and equal solver settings.
impl PartialEq for PvCell {
    fn eq(&self, other: &PvCell) -> (r: bool) {
        self.is_extended_params_equivalent(other) && self.np == other.np && self.ns == other.ns
            && self.solver.eq(&other.solver)
    }
}

impl PartialEqSpecImpl for PvCell {
    open spec fn obeys_eq_spec() -> bool {
        true
    }

    open spec fn eq_spec(&self, other: &PvCell) -> bool {
        self.params_equivalent(*other) && self.np == other.np && self.ns == other.ns
            && self.solver.same_settings(other.solver)
    }
}

impl PvCell {
    /// Both multiplicities are positive.
    pub open spec fn wf(self) -> bool {
        self.ns >= 1 && self.np >= 1
    }

    /// The cell that `default` returns: datasheet parameters unset, silicon
    /// band gap, default bypass diode, no shading, one cell, standard solver.
    pub open spec fn blank() -> PvCell {
        PvCell {
            a_ref: Scalar { bits: UNSET_BITS },
            i_o_ref: Scalar { bits: UNSET_BITS },
            i_l_ref: Scalar { bits: UNSET_BITS },
            r_s: Scalar { bits: UNSET_BITS },
            r_sh_ref: Scalar { bits: UNSET_BITS },
            alpha_sc: Scalar { bits: UNSET_BITS },
            v_oc_ref: Scalar { bits: UNSET_BITS },
            v_bypass: Scalar { bits: DEFAULT_V_BYPASS_BITS },
            r_bypass: Scalar { bits: DEFAULT_R_BYPASS_BITS },
            eg_ref: Scalar { bits: DEFAULT_EG_REF_BITS },
            degdt: Scalar { bits: DEFAULT_DEGDT_BITS },
            shading: Scalar { bits: 0 },
            np: 1,
            ns: 1,
            solver: PvCellSolver::standard(),
        }
    }

    /// The blank cell with the seven datasheet parameters filled in.
    pub open spec fn with_basic(params: BasicParams) -> PvCell {
        PvCell {
            a_ref: params.a_ref,
            i_o_ref: params.i_o_ref,
            i_l_ref: params.i_l_ref,
            r_s: params.r_s,
            r_sh_ref: params.r_sh_ref,
            alpha_sc: params.alpha_sc,
            v_oc_ref: params.v_oc_ref,
            ..PvCell::blank()
        }
    }

    /// All twelve physical parameters are numerically equal.
    pub open spec fn params_equivalent(self, other: PvCell) -> bool {
        &&& self.a_ref.equals(other.a_ref)
        &&& self.i_o_ref.equals(other.i_o_ref)
        &&& self.i_l_ref.equals(other.i_l_ref)
        &&& self.r_s.equals(other.r_s)
        &&& self.r_sh_ref.equals(other.r_sh_ref)
        &&& self.alpha_sc.equals(other.alpha_sc)
        &&& self.v_oc_ref.equals(other.v_oc_ref)
        &&& self.v_bypass.equals(other.v_bypass)
        &&& self.r_bypass.equals(other.r_bypass)
        &&& self.eg_ref.equals(other.eg_ref)
        &&& self.degdt.equals(other.degdt)
        &&& self.shading.equals(other.shading)
    }

    /// Same physical parameters and same parallel count: in a series string
    /// the two behave as one cell whose series count is the sum.
    pub open spec fn series_equivalent(self, other: PvCell) -> bool {
        self.params_equivalent(other) && self.np == other.np
    }

    /// Same physical parameters and same series count: side by side the two
    /// behave as one cell whose parallel count is the sum.
    pub open spec fn parallel_equivalent(self, other: PvCell) -> bool {
        self.params_equivalent(other) && self.ns == other.ns
    }

    pub fn default() -> (r: PvCell)
        ensures
            r == PvCell::blank(),
            r.wf(),
    {
        PvCell {
            a_ref: Scalar { bits: UNSET_BITS },
            i_o_ref: Scalar { bits: UNSET_BITS },
            i_l_ref: Scalar { bits: UNSET_BITS },
            r_s: Scalar { bits: UNSET_BITS },
            r_sh_ref: Scalar { bits: UNSET_BITS },
            alpha_sc: Scalar { bits: UNSET_BITS },
            v_oc_ref: Scalar { bits: UNSET_BITS },
            v_bypass: Scalar { bits: DEFAULT_V_BYPASS_BITS },
            r_bypass: Scalar { bits: DEFAULT_R_BYPASS_BITS },
            eg_ref: Scalar { bits: DEFAULT_EG_REF_BITS },
            degdt: Scalar { bits: DEFAULT_DEGDT_BITS },
            shading: Scalar { bits: 0 },
            np: 1,
            ns: 1,
            solver: PvCellSolver::default(),
        }
    }

    pub fn new(params: &BasicParams) -> (r: PvCell)
        ensures
            r == PvCell::with_basic(*params),
            r.wf(),
    {
        let mut cell = PvCell::default();
        cell.a_ref = params.a_ref;
        cell.i_o_ref = params.i_o_ref;
        cell.i_l_ref = params.i_l_ref;
        cell.r_s = params.r_s;
        cell.r_sh_ref = params.r_sh_ref;
        cell.alpha_sc = params.alpha_sc;
        cell.v_oc_ref = params.v_oc_ref;
        cell
    }

    pub fn with_ns(self, ns: u32) -> (r: PvCell)
        requires
            ns >= 1,
        ensures
            r == (PvCell { ns, ..self }),
    {
        let mut cell = self;
        cell.ns = ns;
        cell
    }

    pub fn with_np(self, np: u32) -> (r: PvCell)
        requires
            np >= 1,
        ensures
            r == (PvCell { np, ..self }),
    {
        let mut cell = self;
        cell.np = np;
        cell
    }

    pub fn with_shading(self, shading: Scalar) -> (r: PvCell)
        ensures
            r == (PvCell { shading, ..self }),
    {
        let mut cell = self;
        cell.shading = shading;
        cell
    }

    pub fn with_solver(self, settings: PvCellSolver) -> (r: PvCell)
        ensures
            r == (PvCell { solver: settings, ..self }),
    {
        let mut cell = self;
        cell.solver = settings;
        cell
    }

    /// Whether the bypass diode conducts at the sub-cell voltage `v`: it does
    /// below the bypass threshold.
    pub fn bypass_conducts(&self, v: Scalar) -> (r: bool)
        ensures
            r == v.below(self.v_bypass),
    {
        v.num_lt(self.v_bypass)
    }

    /// The signal of a finished current solve at terminal voltage `v_pnl`
    /// that returned `current`.
    pub fn current_signal(&self, state: &NewtonState, v_pnl: Scalar, current: Scalar) -> (r: Option<
        NonConvergence,
    >)
        ensures
            r == signal_of(
                state.converged,
                current,
                v_pnl,
                self.solver.tol_i,
                self.solver.max_iter,
            ),
    {
        signal(state.converged, current, v_pnl, self.solver.tol_i, self.solver.max_iter)
    }

    /// The signal of a finished voltage solve at terminal current `i_pnl`
    /// that returned `voltage`.
    pub fn voltage_signal(&self, state: &NewtonState, i_pnl: Scalar, voltage: Scalar) -> (r: Option<
        NonConvergence,
    >)
        ensures
            r == signal_of(
                state.converged,
                voltage,
                i_pnl,
                self.solver.tol_v,
                self.solver.max_iter,
            ),
    {
        signal(state.converged, voltage, i_pnl, self.solver.tol_v, self.solver.max_iter)
    }

    pub fn is_extended_params_equivalent(&self, other: &PvCell) -> (r: bool)
        ensures
            r == self.params_equivalent(*other),
    {
        self.a_ref.num_eq(other.a_ref) && self.i_o_ref.num_eq(other.i_o_ref)
            && self.i_l_ref.num_eq(other.i_l_ref) && self.r_s.num_eq(other.r_s)
            && self.r_sh_ref.num_eq(other.r_sh_ref) && self.alpha_sc.num_eq(other.alpha_sc)
            && self.v_oc_ref.num_eq(other.v_oc_ref) && self.v_bypass.num_eq(other.v_bypass)
            && self.r_bypass.num_eq(other.r_bypass) && self.eg_ref.num_eq(other.eg_ref)
            && self.degdt.num_eq(other.degdt) && self.shading.num_eq(other.shading)
    }

    pub fn is_series_equivalent(&self, other: &PvCell) -> (r: bool)
        ensures
            r == self.series_equivalent(*other),
    {
        self.is_extended_params_equivalent(other) && self.np == other.np
    }

    pub fn is_parallel_equivalent(&self, other: &PvCell) -> (r: bool)
        ensures
            r == self.parallel_equivalent(*other),
    {
        self.is_extended_params_equivalent(other) && self.ns == other.ns
    }
}

} // verus!
