//! Polynomials as coefficient sequences.

use crate::types::fr::FsFr;
use crate::types::g1::FsG1;
use vstd::prelude::*;

verus! {

/// A polynomial with field elements as coefficients, lowest degree first.
#[derive(Debug, Clone)]
pub struct FsPoly {
    pub coeffs: Vec<FsFr>,
}

/// A polynomial with group elements as coefficients, lowest degree first.
#[derive(Debug, Clone)]
pub struct FsPolyG1 {
    pub coeffs: Vec<FsG1>,
}

} // verus!
