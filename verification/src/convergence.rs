//! What a solve reports beside its value: how often solves were started, and
//! a signal when one ran out of iterations.

use vstd::prelude::*;
use crate::scalar::Scalar;

verus! {

/// How bad it is that a solve ran out of iterations.
#[derive(Clone, Copy, Debug, PartialEq, Eq, Structural)]
pub enum Severity {
    /// The value returned is a normal number: usable, but imprecise.
    Warning,
    /// The value returned is zero, subnormal, infinite or NaN.
    Error,
}

/// A solve used up its iteration budget without meeting its tolerance. The
/// value it stopped at is returned all the same.
#[derive(Clone, Copy, Debug)]
pub struct NonConvergence {
    pub severity: Severity,
    /// The voltage or current that the solve was asked about.
    pub input: Scalar,
    /// The tolerance that was not met.
    pub tolerance: Scalar,
    /// The iteration budget that was used up.
    pub max_iter: usize,
}

/// The severity that goes with a best-effort result.
pub open spec fn severity_of(result: Scalar) -> Severity {
    if result.normal() {
        Severity::Warning
    } else {
        Severity::Error
    }
}

/// The signal of a solve: nothing if it converged, and otherwise the
/// non-convergence with the severity of its result.
pub open spec fn signal_of(
    converged: bool,
    result: Scalar,
    input: Scalar,
    tolerance: Scalar,
    max_iter: usize,
) -> Option<NonConvergence> {
    if converged {
        None
    } else {
        Some(NonConvergence { severity: severity_of(result), input, tolerance, max_iter })
    }
}

pub fn classify(result: Scalar) -> (r: Severity)
    ensures
        r == severity_of(result),
{
    if result.is_normal() {
        Severity::Warning
    } else {
        Severity::Error
    }
}

pub fn signal(
    converged: bool,
    result: Scalar,
    input: Scalar,
    tolerance: Scalar,
    max_iter: usize,
) -> (r: Option<NonConvergence>)
    ensures
        r == signal_of(converged, result, input, tolerance, max_iter),
{
    if converged {
        None
    } else {
        Some(NonConvergence { severity: classify(result), input, tolerance, max_iter })
    }
}

/// Counts of the solves started, kept by the caller and handed to each solve.
#[derive(Clone, Copy, Debug)]
pub struct SolverCalls {
    /// Newton solves of single cells, in either direction.
    pub cell: u64,
    /// Current searches of whole strings.
    pub series: u64,
}

impl SolverCalls {
    pub fn new() -> (r: SolverCalls)
        ensures
            r.cell == 0,
            r.series == 0,
    {
        SolverCalls { cell: 0, series: 0 }
    }

    pub fn record_cell(&mut self)
        requires
            old(self).cell < u64::MAX,
        ensures
            final(self).cell == old(self).cell + 1,
            final(self).series == old(self).series,
    {
        self.cell = self.cell + 1;
    }

    pub fn record_series(&mut self)
        requires
            old(self).series < u64::MAX,
        ensures
            final(self).series == old(self).series + 1,
            final(self).cell == old(self).cell,
    {
        self.series = self.series + 1;
    }
}

} // verus!
