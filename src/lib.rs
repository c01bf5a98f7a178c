//! A small linear-programming toolkit built around a two-phase revised simplex
//! method.
//!
//! What is verified here:
//! - the column layout of the standard-form tableau (`layout`);
//! - the basis / non-basis bookkeeping: initial basis, phase-one start,
//!   pivots, driving artificial columns out, reading off the solution
//!   (`basis`), and a basis matrix kept equal to the basic columns
//!   (`tableau`);
//! - the choices of the method: Dantzig's entering rule, the ratio test,
//!   partial pivoting and phase selection (`pricing`);
//! - a generic dense row-major matrix (`matrix`);
//! - the structure of MPS and GMPL model files (`mps`, `gmpl`);
//! - the status and error types, the version and the command-line values.
//!
//! The floating-point work that feeds the choices (linear solves, reduced
//! costs, ratios) is done by the caller, which hands over each real as an
//! integer key of the same order.

pub mod basis;
pub mod cli;
pub mod constraint;
pub mod gmpl;
pub mod lang;
pub mod layout;
pub mod matrix;
pub mod mps;
pub mod objective;
pub mod pricing;
pub mod status;
pub mod tableau;
pub mod text;
pub mod var;
pub mod version;
