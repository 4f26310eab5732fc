//! Series/parallel photovoltaic topologies: element equivalence, structural
//! reduction with index maps, and the control logic of the iterative solvers.
//!
//! Electrical quantities are IEEE 754 binary64 values carried as bit patterns
//! ([`scalar::Scalar`]). The library compares and classifies them; arithmetic
//! on them is left to the caller, who runs each solve as a loop around the
//! decisions made here.
//!
//! - [`scalar`]: equality, order and classification of bit patterns.
//! - [`convergence`]: the non-convergence signal and the count of solves.
//! - [`pvcell`]: the cell, its equivalences and the control of its Newton solves.
//! - [`grouping`]: first-fit grouping of a sequence, on which both reductions rest.
//! - [`series`], [`series_reduction`]: the string, its current search and its reduction.
//! - [`parallel`], [`parallel_reduction`]: the array and its reduction.

pub mod scalar;
pub mod convergence;
pub mod pvcell;
pub mod grouping;
pub mod series;
pub mod series_reduction;
pub mod parallel;
pub mod parallel_reduction;
