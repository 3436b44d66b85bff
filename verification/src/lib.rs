//! Arithmetic over the finite field GF(256) defined by the irreducible
//! polynomial x^8 + x^4 + x^3 + x^2 + 1, together with Lagrange
//! interpolation over that field (the primitive used to reconstruct a
//! secret from a threshold set of shares).
//!
//! The field is modelled bottom-up: `model` holds the pure specification
//! functions (the generator's power sequence and the log/exp view of
//! multiplication), `tables` builds the process-wide lookup tables and
//! carries their well-formedness invariant, `gf256` implements the field
//! element operations against those tables, and `interpolate` evaluates
//! the unique interpolating polynomial through a set of distinct-x points.
//! `laws` states and proves the algebraic properties of the field.

pub mod model;
pub mod tables;
pub mod gf256;
pub mod interpolate;
pub mod laws;

pub use crate::gf256::Gf256;
pub use crate::gf256::GfError;
pub use crate::interpolate::lagrange_basis;
pub use crate::interpolate::lagrange_interpolate;
pub use crate::tables::Tables;
