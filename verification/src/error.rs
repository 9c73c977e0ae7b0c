//! The failure values of the kernel's numeric algorithms.
//!
//! Ill-posed geometric input surfaces as a typed error instead of garbage
//! geometry: the caller decides whether to abort or adjust its input.  The
//! algorithms that produce these values work on real numbers and live with
//! the drafting layer; the error types are shared vocabulary.

use vstd::prelude::*;

verus! {

/// A square matrix had no inverse: some pivot column held no nonzero entry
/// during Gauss-Jordan elimination.
#[derive(Debug, Clone)]
pub struct NotInvertible;

/// Parameter inversion on a curve exhausted its iteration bound without
/// bringing both axis errors below tolerance.
#[derive(Debug, Clone)]
pub struct RootFindingNonConvergence;

} // verus!
