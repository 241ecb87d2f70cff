//! The value types: field elements, group elements and polynomials.

pub mod fr;
pub mod g1;
pub mod poly;
