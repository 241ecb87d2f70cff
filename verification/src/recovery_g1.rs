//! Reconstruction into polynomial containers, for field-valued and for
//! group-valued samples.

use crate::recovery::{
    agrees_with_known, filled, is_power_of_two, missing_positions, reconstruction,
    recover_samples, RecoveryError, TransformDomain,
};
use crate::types::fr::FsFr;
use crate::types::g1::FsG1;
use crate::types::poly::{FsPoly, FsPolyG1};
use vstd::prelude::*;

verus! {

impl FsPolyG1 {
    /// Reconstructs a sequence of group elements of which some are missing.
    /// The result holds the full sequence, known and formerly missing
    /// positions alike.
    pub fn recover_poly_from_samples_g1<D: TransformDomain<FsG1>>(
        samples: &[Option<FsG1>],
        fs: &D,
    ) -> (res: Result<Self, RecoveryError>)
        ensures
            fs.modelled() ==> match res {
                Ok(poly) => reconstruction(samples@, *fs) == Ok::<Seq<FsG1>, RecoveryError>(
                    poly.coeffs@,
                ),
                Err(e) => reconstruction(samples@, *fs) == Err::<Seq<FsG1>, RecoveryError>(e),
            },
            res == Err::<Self, RecoveryError>(RecoveryError::InvalidLength) <==> !is_power_of_two(
                samples@.len(),
            ),
            is_power_of_two(samples@.len()) && (missing_positions(samples@).len() == 0
                || missing_positions(samples@).len() == samples@.len()) ==> (res matches Ok(poly)
                && poly.coeffs@ == filled(samples@)),
            res matches Ok(poly) ==> agrees_with_known(samples@, poly.coeffs@),
    {
        match recover_samples(samples, fs) {
            Ok(coeffs) => Ok(FsPolyG1 { coeffs }),
            Err(e) => Err(e),
        }
    }
}

impl FsPoly {
    /// Reconstructs a sequence of field elements of which some are missing.
    /// The result holds the full sequence, known and formerly missing
    /// positions alike.
    pub fn recover_poly_from_samples<D: TransformDomain<FsFr>>(
        samples: &[Option<FsFr>],
        fs: &D,
    ) -> (res: Result<Self, RecoveryError>)
        ensures
            fs.modelled() ==> match res {
                Ok(poly) => reconstruction(samples@, *fs) == Ok::<Seq<FsFr>, RecoveryError>(
                    poly.coeffs@,
                ),
                Err(e) => reconstruction(samples@, *fs) == Err::<Seq<FsFr>, RecoveryError>(e),
            },
            res == Err::<Self, RecoveryError>(RecoveryError::InvalidLength) <==> !is_power_of_two(
                samples@.len(),
            ),
            is_power_of_two(samples@.len()) && (missing_positions(samples@).len() == 0
                || missing_positions(samples@).len() == samples@.len()) ==> (res matches Ok(poly)
                && poly.coeffs@ == filled(samples@)),
            res matches Ok(poly) ==> agrees_with_known(samples@, poly.coeffs@),
    {
        match recover_samples(samples, fs) {
            Ok(coeffs) => Ok(FsPoly { coeffs }),
            Err(e) => Err(e),
        }
    }
}

} // verus!
