//! Scalar-field arithmetic for BLS12-381, and the reconstruction of
//! evaluation-domain samples of which some are missing, for field-valued
//! and for group-valued data.
//!
//! - `types` holds the values: field elements, points of G1, polynomials.
//! - `recovery` reconstructs a sample sequence over a transform domain;
//!   `recovery_g1` returns the result as a polynomial.
//! - `laws` states what a reconstruction returns over a domain that keeps
//!   its promises; `module` and `polynomial` hold the algebra for that.
//! - `bigint` and `scalar_field` are the limb arithmetic below the field
//!   elements.

pub mod bigint;
pub mod laws;
pub mod module;
pub mod polynomial;
pub mod recovery;
pub mod recovery_g1;
pub mod scalar_field;
pub mod types;
