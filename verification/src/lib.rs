//! Integer and text foundations of a 2D pattern-drafting kernel.
//!
//! The drafting layer composes points, lines and Bezier curves into garment
//! patterns and exports them as PDF documents.  This crate holds the parts of
//! that system whose behaviour is stated and proved: the binomial
//! coefficients that weight the Bernstein polynomials of a Bezier curve, the
//! decision logic of the seam-allowance walk, and the byte-exact assembly of
//! the PDF document catalog and cross-reference table.  It also carries the
//! vocabulary shared with the drafting layer: the typed failures of the
//! numeric algorithms and the shirt-construction choices.

pub mod binomial;
pub mod error;
pub mod margin;
pub mod pdf;
pub mod shirt;

pub use binomial::binomial;
pub use error::{NotInvertible, RootFindingNonConvergence};
pub use margin::{apply_decision, generate_margin_plan, join_decision, JoinAction, PlanEntry, SegTag};
pub use pdf::{write_info, write_xref};
pub use shirt::{BodyType, CollarType, SleeveType};
