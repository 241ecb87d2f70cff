//! Reconstruction of missing evaluation-domain samples.
//!
//! A sample sequence of power-of-two length holds, slot by slot, a value or
//! nothing. The missing values are found by multiplying the known ones with
//! the polynomial that vanishes on the missing positions, dividing that
//! polynomial out again on a shifted domain, and transforming back. The
//! transforms and the vanishing polynomial come from a `TransformDomain`;
//! the values are field elements or group elements, anything `Recoverable`.

use crate::scalar_field::{fr_inv, fr_pow};
use crate::types::fr::FsFr;
use vstd::prelude::*;

verus! {

/// Why a reconstruction failed.
#[derive(Debug, Clone, Copy, PartialEq, Eq, Structural)]
pub enum RecoveryError {
    /// The number of samples is not a power of two.
    InvalidLength,
    /// The vanishing polynomial that the domain returned is zero at a
    /// known position, or nonzero at a missing one.
    InconsistentZeroPolynomial,
    /// The reconstructed sequence differs from a known sample.
    ReconstructionMismatch,
}

impl RecoveryError {
    /// The message that goes with the error.
    pub fn message(&self) -> (res: String)
        ensures
            res@ == match *self {
                RecoveryError::InvalidLength => "len_samples must be a power of two"@,
                RecoveryError::InconsistentZeroPolynomial =>
                    "recovery error: samples should be none when and only when zero_eval is zero"@,
                RecoveryError::ReconstructionMismatch =>
                    "recovery error: samples should be none or equal reconstructed data"@,
            },
    {
        match self {
            RecoveryError::InvalidLength => "len_samples must be a power of two".to_owned(),
            RecoveryError::InconsistentZeroPolynomial =>
                "recovery error: samples should be none when and only when zero_eval is zero".to_owned(),
            RecoveryError::ReconstructionMismatch =>
                "recovery error: samples should be none or equal reconstructed data".to_owned(),
        }
    }
}

/// A value that can stand in a sample sequence: it has a neutral value,
/// can be scaled by a field element, and can be compared.
pub trait Recoverable: Sized + Copy {
    /// The neutral value: zero of the field, the identity of the group.
    spec fn spec_neutral() -> Self;

    /// This value scaled by the field element with the canonical value `s`.
    spec fn spec_scale(self, s: int) -> Self;

    /// The neutral value.
    fn neutral() -> (res: Self)
        ensures
            res == Self::spec_neutral(),
    ;

    /// This value scaled by `s`.
    fn scale(&self, s: &FsFr) -> (res: Self)
        ensures
            res == self.spec_scale(s@),
    ;

    /// Whether two values are the same.
    fn is_same(&self, other: &Self) -> (res: bool)
        ensures
            res == (*self == *other),
    ;
}

/// Whether `n` is a power of two.
pub open spec fn is_power_of_two(n: nat) -> bool
    decreases n,
{
    n == 1 || (n > 1 && n % 2 == 0 && is_power_of_two(n / 2))
}

/// Whether `n` is a power of two.
pub fn power_of_two(n: usize) -> (res: bool)
    ensures
        res == is_power_of_two(n as nat),
{
    let mut k: usize = n;
    while k > 1 && k % 2 == 0
        invariant
            is_power_of_two(k as nat) == is_power_of_two(n as nat),
        decreases k,
    {
        k = k / 2;
    }
    k == 1
}

/// The positions that hold no value, in increasing order.
pub open spec fn missing_positions<V>(samples: Seq<Option<V>>) -> Seq<usize>
    decreases samples.len(),
{
    if samples.len() == 0 {
        Seq::empty()
    } else if samples.last() is None {
        missing_positions(samples.drop_last()).push((samples.len() - 1) as usize)
    } else {
        missing_positions(samples.drop_last())
    }
}

/// The missing positions are in range, increase strictly, and are the
/// positions that hold no value.
pub proof fn lemma_missing_positions<V>(samples: Seq<Option<V>>)
    requires
        samples.len() <= usize::MAX,
    ensures
        missing_positions(samples).len() <= samples.len(),
        forall|j: int|
            0 <= j < missing_positions(samples).len() ==> (#[trigger] missing_positions(
                samples,
            )[j]) < samples.len() && samples[missing_positions(samples)[j] as int] is None,
        forall|j: int, k: int|
            0 <= j < k < missing_positions(samples).len() ==> (#[trigger] missing_positions(
                samples,
            )[j]) < (#[trigger] missing_positions(samples)[k]),
        forall|i: int|
            0 <= i < samples.len() && samples[i] is None ==> missing_positions(samples).contains(
                i as usize,
            ),
    decreases samples.len(),
{
    if samples.len() > 0 {
        let rest = samples.drop_last();
        lemma_missing_positions(rest);
        let m = missing_positions(samples);
        let mr = missing_positions(rest);
        let last: int = samples.len() - 1;
        assert forall|i: int| 0 <= i < samples.len() && samples[i] is None implies m.contains(
            i as usize,
        ) by {
            if i < last {
                assert(rest[i] is None);
                let j = choose|j: int| 0 <= j < mr.len() && mr[j] == i as usize;
                assert(m[j] == i as usize);
            } else {
                assert(m[m.len() - 1] == i as usize);
            }
        }
    }
}

/// The collected missing positions.
pub fn missing_indices<V>(samples: &[Option<V>]) -> (res: Vec<usize>)
    ensures
        res@ == missing_positions(samples@),
{
    let mut missing: Vec<usize> = Vec::new();
    let mut i: usize = 0;
    while i < samples.len()
        invariant
            i <= samples.len(),
            missing@ == missing_positions(samples@.take(i as int)),
        decreases samples.len() - i,
    {
        proof {
            assert(samples@.take(i + 1).drop_last() =~= samples@.take(i as int));
        }
        if samples[i].is_none() {
            missing.push(i);
        }
        i = i + 1;
    }
    proof {
        assert(samples@.take(samples.len() as int) =~= samples@);
    }
    missing
}

/// The transforms and the vanishing polynomial that a reconstruction
/// needs.
///
/// An implementation that is verified says in `spec_transform` and the
/// spec functions beside it what its methods return, and answers
/// `modelled()` with true. One that is written without a verifier keeps
/// the defaults: the contracts then claim nothing of it, and a
/// reconstruction holds everything it returns against the lengths it
/// needs and against the known samples.
pub trait TransformDomain<V: Recoverable> {
    /// Whether the spec functions say what the methods return.
    open spec fn modelled(&self) -> bool {
        false
    }

    /// What `transform` returns.
    open spec fn spec_transform(&self, values: Seq<V>, inverse: bool) -> Seq<V> {
        Seq::empty()
    }

    /// What `transform_scalars` returns.
    open spec fn spec_transform_scalars(&self, values: Seq<FsFr>, inverse: bool) -> Seq<FsFr> {
        Seq::empty()
    }

    /// What `annihilator` returns: evaluations first, coefficients second.
    open spec fn spec_annihilator(&self, width: nat, missing: Seq<usize>) -> (
        Seq<FsFr>,
        Seq<FsFr>,
    ) {
        (Seq::empty(), Seq::empty())
    }

    /// The value of what `coset_factor` returns.
    open spec fn spec_coset_factor(&self) -> int {
        1
    }

    /// The value of what `coset_factor_inverse` returns.
    open spec fn spec_coset_factor_inverse(&self) -> int {
        1
    }

    /// The forward transform (coefficients to evaluations), or the inverse
    /// one, of a sequence of values: as many values as it was given. A
    /// domain that cannot transform that many returns any other number.
    fn transform(&self, values: &[V], inverse: bool) -> (res: Vec<V>)
        ensures
            self.modelled() ==> res@ == self.spec_transform(values@, inverse),
    ;

    /// The forward or inverse transform of a sequence of field elements.
    fn transform_scalars(&self, values: &[FsFr], inverse: bool) -> (res: Vec<FsFr>)
        ensures
            self.modelled() ==> res@ == self.spec_transform_scalars(values@, inverse),
    ;

    /// The polynomial of least degree with leading coefficient one that is
    /// zero at exactly the domain points listed in `missing`: its values at
    /// the `width` domain points, and its `width` coefficients.
    fn annihilator(&self, width: usize, missing: &[usize]) -> (res: (Vec<FsFr>, Vec<FsFr>))
        requires
            0 < missing@.len() < width,
            forall|j: int| 0 <= j < missing@.len() ==> (#[trigger] missing@[j]) < width,
            forall|j: int, k: int|
                0 <= j < k < missing@.len() ==> (#[trigger] missing@[j]) < (#[trigger] missing@[k]),
        ensures
            self.modelled() ==> (res.0@, res.1@) == self.spec_annihilator(width as nat, missing@),
    ;

    /// The scalar `k` of the coset shift. Its inverse is no domain point.
    fn coset_factor(&self) -> (res: FsFr)
        ensures
            self.modelled() ==> res@ == self.spec_coset_factor(),
    ;

    /// The inverse of `coset_factor`.
    fn coset_factor_inverse(&self) -> (res: FsFr)
        ensures
            self.modelled() ==> res@ == self.spec_coset_factor_inverse(),
    ;
}

/// Whether there is one value of the vanishing polynomial for each
/// sample, zero at the missing positions and nowhere else.
pub open spec fn zero_set_matches<V>(samples: Seq<Option<V>>, zero_eval: Seq<FsFr>) -> bool {
    &&& zero_eval.len() == samples.len()
    &&& forall|i: int|
        0 <= i < samples.len() ==> ((#[trigger] samples[i]) is None <==> zero_eval[i]@ == 0)
}

/// Whether there is one value of the vanishing polynomial for each
/// sample, zero at the missing positions and nowhere else.
pub fn check_zero_set<V>(samples: &[Option<V>], zero_eval: &[FsFr]) -> (res: bool)
    ensures
        res == zero_set_matches(samples@, zero_eval@),
{
    if zero_eval.len() != samples.len() {
        return false;
    }
    let mut i: usize = 0;
    while i < samples.len()
        invariant
            i <= samples.len(),
            zero_eval@.len() == samples@.len(),
            forall|j: int|
                0 <= j < i ==> ((#[trigger] samples@[j]) is None <==> zero_eval@[j]@ == 0),
        decreases samples.len() - i,
    {
        if samples[i].is_none() != zero_eval[i].is_zero() {
            assert(!((samples@[i as int]) is None <==> zero_eval@[i as int]@ == 0));
            return false;
        }
        i = i + 1;
    }
    true
}

/// The samples with the neutral value in each empty slot.
pub open spec fn filled<V: Recoverable>(samples: Seq<Option<V>>) -> Seq<V> {
    Seq::new(
        samples.len(),
        |i: int|
            match samples[i] {
                Some(v) => v,
                None => V::spec_neutral(),
            },
    )
}

/// The samples with the neutral value in each empty slot.
pub fn fill_missing<V: Recoverable>(samples: &[Option<V>]) -> (res: Vec<V>)
    ensures
        res@ == filled(samples@),
{
    let mut out: Vec<V> = Vec::new();
    let mut i: usize = 0;
    while i < samples.len()
        invariant
            i <= samples.len(),
            out@.len() == i,
            forall|j: int| 0 <= j < i ==> out@[j] == filled(samples@)[j],
        decreases samples.len() - i,
    {
        let value: V = match samples[i] {
            Some(v) => v,
            None => V::neutral(),
        };
        out.push(value);
        i = i + 1;
    }
    proof {
        assert(out@ =~= filled(samples@));
    }
    out
}

/// The known samples scaled by the vanishing polynomial's values, and
/// the neutral value in each empty slot.
pub open spec fn masked<V: Recoverable>(samples: Seq<Option<V>>, zero_eval: Seq<FsFr>) -> Seq<V> {
    Seq::new(
        samples.len(),
        |i: int|
            match samples[i] {
                Some(v) => v.spec_scale(zero_eval[i]@),
                None => V::spec_neutral(),
            },
    )
}

/// The known samples scaled by the vanishing polynomial's values, and
/// the neutral value in each empty slot.
pub fn mask_samples<V: Recoverable>(samples: &[Option<V>], zero_eval: &[FsFr]) -> (res: Vec<V>)
    requires
        zero_eval@.len() == samples@.len(),
    ensures
        res@ == masked(samples@, zero_eval@),
{
    let mut out: Vec<V> = Vec::new();
    let mut i: usize = 0;
    while i < samples.len()
        invariant
            i <= samples.len(),
            zero_eval@.len() == samples@.len(),
            out@.len() == i,
            forall|j: int| 0 <= j < i ==> out@[j] == masked(samples@, zero_eval@)[j],
        decreases samples.len() - i,
    {
        let value: V = match samples[i] {
            Some(v) => v.scale(&zero_eval[i]),
            None => V::neutral(),
        };
        out.push(value);
        i = i + 1;
    }
    proof {
        assert(out@ =~= masked(samples@, zero_eval@));
    }
    out
}

/// The coefficients of `p(k * x)` from those of `p(x)`: the coefficient
/// at position `j` scaled by `k` to the power `j`.
pub open spec fn shifted<V: Recoverable>(coeffs: Seq<V>, k: int) -> Seq<V> {
    Seq::new(coeffs.len(), |j: int| coeffs[j].spec_scale(fr_pow(k, j as nat)))
}

/// The coefficients of `p(k * x)` from those of `p(x)`.
pub fn shift_coefficients<V: Recoverable>(coeffs: &[V], k: &FsFr) -> (res: Vec<V>)
    ensures
        res@ == shifted(coeffs@, k@),
{
    let mut out: Vec<V> = Vec::new();
    let mut power: FsFr = FsFr::one();
    let mut j: usize = 0;
    while j < coeffs.len()
        invariant
            j <= coeffs.len(),
            out@.len() == j,
            power@ == fr_pow(k@, j as nat),
            forall|i: int| 0 <= i < j ==> out@[i] == shifted(coeffs@, k@)[i],
        decreases coeffs.len() - j,
    {
        out.push(coeffs[j].scale(&power));
        power = k.mul(&power);
        j = j + 1;
    }
    proof {
        assert(out@ =~= shifted(coeffs@, k@));
    }
    out
}

/// Each value of `num` scaled by the inverse of the field element at the
/// same position of `den`; nothing where the two differ in length.
pub open spec fn divided<V: Recoverable>(num: Seq<V>, den: Seq<FsFr>) -> Seq<V> {
    if num.len() == den.len() {
        Seq::new(num.len(), |i: int| num[i].spec_scale(fr_inv(den[i]@)))
    } else {
        Seq::empty()
    }
}

/// Each value of `num` scaled by the inverse of the field element at the
/// same position of `den`; nothing where the two differ in length.
pub fn divide_pointwise<V: Recoverable>(num: &[V], den: &[FsFr]) -> (res: Vec<V>)
    ensures
        res@ == divided(num@, den@),
{
    let mut out: Vec<V> = Vec::new();
    if num.len() != den.len() {
        return out;
    }
    let mut i: usize = 0;
    while i < num.len()
        invariant
            i <= num.len(),
            den@.len() == num@.len(),
            out@.len() == i,
            forall|j: int| 0 <= j < i ==> out@[j] == divided(num@, den@)[j],
        decreases num.len() - i,
    {
        out.push(num[i].scale(&den[i].eucl_inverse()));
        i = i + 1;
    }
    proof {
        assert(out@ =~= divided(num@, den@));
    }
    out
}

/// Whether `data` has one value for each sample, and holds at each
/// position with a known sample that sample.
pub open spec fn agrees_with_known<V>(samples: Seq<Option<V>>, data: Seq<V>) -> bool {
    &&& data.len() == samples.len()
    &&& forall|i: int|
        0 <= i < samples.len() ==> ((#[trigger] samples[i]) matches Some(v) ==> data[i] == v)
}

/// Whether `data` has one value for each sample, and holds at each
/// position with a known sample that sample.
pub fn check_known<V: Recoverable>(samples: &[Option<V>], data: &[V]) -> (res: bool)
    ensures
        res == agrees_with_known(samples@, data@),
{
    if data.len() != samples.len() {
        return false;
    }
    let mut i: usize = 0;
    while i < samples.len()
        invariant
            i <= samples.len(),
            data@.len() == samples@.len(),
            forall|j: int|
                0 <= j < i ==> ((#[trigger] samples@[j]) matches Some(v) ==> data@[j] == v),
        decreases samples.len() - i,
    {
        match samples[i] {
            Some(v) => {
                if !data[i].is_same(&v) {
                    assert(samples@[i as int] == Some(v));
                    return false;
                }
            },
            None => {},
        }
        i = i + 1;
    }
    true
}

/// What a reconstruction returns, step by step.
///
/// A length that is no power of two is refused. Where no sample or every
/// sample is missing there is nothing to compute: the result is the
/// samples themselves, with the neutral value in each empty slot. In
/// every other case the domain is asked for the polynomial `Z` that
/// vanishes on the missing positions, and the result follows from the
/// known samples by transforms, a coset shift and a pointwise division.
/// A sequence of the wrong length from the domain ends the
/// reconstruction.
pub open spec fn reconstruction<V: Recoverable, D: TransformDomain<V>>(
    samples: Seq<Option<V>>,
    domain: D,
) -> Result<Seq<V>, RecoveryError> {
    let missing = missing_positions(samples);
    if !is_power_of_two(samples.len()) {
        Err(RecoveryError::InvalidLength)
    } else if missing.len() == 0 || missing.len() == samples.len() {
        Ok(filled(samples))
    } else {
        let (zero_eval, zero_poly) = domain.spec_annihilator(samples.len(), missing);
        if zero_poly.len() != samples.len() || !zero_set_matches(samples, zero_eval) {
            Err(RecoveryError::InconsistentZeroPolynomial)
        } else {
            let data = reconstructed_data(samples, domain, zero_eval, zero_poly);
            if agrees_with_known(samples, data) {
                Ok(data)
            } else {
                Err(RecoveryError::ReconstructionMismatch)
            }
        }
    }
}

/// The coefficients of the product of the data polynomial `D` and the
/// vanishing polynomial `Z`: the inverse transform of the masked samples.
pub open spec fn product_coefficients<V: Recoverable, D: TransformDomain<V>>(
    samples: Seq<Option<V>>,
    domain: D,
    zero_eval: Seq<FsFr>,
) -> Seq<V> {
    domain.spec_transform(masked(samples, zero_eval), true)
}

/// The values of `D(k * x)` at the domain points: those of
/// `(D * Z)(k * x)` divided by those of `Z(k * x)`.
pub open spec fn shifted_quotient<V: Recoverable, D: TransformDomain<V>>(
    samples: Seq<Option<V>>,
    domain: D,
    zero_eval: Seq<FsFr>,
    zero_poly: Seq<FsFr>,
) -> Seq<V> {
    let k = domain.spec_coset_factor();
    let numerator = domain.spec_transform(
        shifted(product_coefficients(samples, domain, zero_eval), k),
        false,
    );
    let denominator = domain.spec_transform_scalars(shifted(zero_poly, k), false);
    divided(numerator, denominator)
}

/// The evaluations that the known samples and the vanishing polynomial
/// lead to, before they are held against the known samples.
pub open spec fn reconstructed_data<V: Recoverable, D: TransformDomain<V>>(
    samples: Seq<Option<V>>,
    domain: D,
    zero_eval: Seq<FsFr>,
    zero_poly: Seq<FsFr>,
) -> Seq<V> {
    let quotient = shifted_quotient(samples, domain, zero_eval, zero_poly);
    // the coefficients of D(x)
    let reconstructed_poly = shifted(
        domain.spec_transform(quotient, true),
        domain.spec_coset_factor_inverse(),
    );
    domain.spec_transform(reconstructed_poly, false)
}

/// Reconstructs the full evaluation sequence from samples of which some
/// are missing.
///
/// The domain is not asked for anything where the length is refused, or
/// where no sample or every sample is missing. Whatever the domain
/// returns, a result that is `Ok` has one value for each sample and holds
/// every known sample in its place.
pub fn recover_samples<V: Recoverable, D: TransformDomain<V>>(
    samples: &[Option<V>],
    domain: &D,
) -> (res: Result<Vec<V>, RecoveryError>)
    ensures
        domain.modelled() ==> match res {
            Ok(data) => reconstruction(samples@, *domain) == Ok::<Seq<V>, RecoveryError>(data@),
            Err(e) => reconstruction(samples@, *domain) == Err::<Seq<V>, RecoveryError>(e),
        },
        res == Err::<Vec<V>, RecoveryError>(RecoveryError::InvalidLength) <==> !is_power_of_two(
            samples@.len(),
        ),
        is_power_of_two(samples@.len()) && (missing_positions(samples@).len() == 0
            || missing_positions(samples@).len() == samples@.len()) ==> (res matches Ok(data)
            && data@ == filled(samples@)),
        res matches Ok(data) ==> agrees_with_known(samples@, data@),
{
    let len_samples: usize = samples.len();
    if !power_of_two(len_samples) {
        return Err(RecoveryError::InvalidLength);
    }
    let missing: Vec<usize> = missing_indices(samples);
    proof {
        lemma_missing_positions(samples@);
    }
    if missing.len() == 0 || missing.len() == len_samples {
        let data: Vec<V> = fill_missing(samples);
        proof {
            lemma_filled_agrees(samples@);
        }
        return Ok(data);
    }
    // Z, the polynomial that vanishes on the missing positions
    let (zero_eval, zero_poly) = domain.annihilator(len_samples, missing.as_slice());
    if zero_poly.len() != len_samples || !check_zero_set(samples, zero_eval.as_slice()) {
        return Err(RecoveryError::InconsistentZeroPolynomial);
    }
    // the values of E * Z, which are those of D * Z
    let poly_evaluations_with_zero: Vec<V> = mask_samples(samples, zero_eval.as_slice());
    let poly_with_zero: Vec<V> = domain.transform(poly_evaluations_with_zero.as_slice(), true);

    // x -> k * x
    let k: FsFr = domain.coset_factor();
    let k_inverse: FsFr = domain.coset_factor_inverse();
    let shifted_poly_with_zero: Vec<V> = shift_coefficients(poly_with_zero.as_slice(), &k);
    let shifted_zero_poly: Vec<FsFr> = shift_coefficients(zero_poly.as_slice(), &k);

    // division by convolution: Q3 = Q1 / Q2
    let eval_shifted_poly_with_zero: Vec<V> = domain.transform(
        shifted_poly_with_zero.as_slice(),
        false,
    );
    let eval_shifted_zero_poly: Vec<FsFr> = domain.transform_scalars(
        shifted_zero_poly.as_slice(),
        false,
    );
    let eval_shifted_reconstructed: Vec<V> = divide_pointwise(
        eval_shifted_poly_with_zero.as_slice(),
        eval_shifted_zero_poly.as_slice(),
    );

    // the result of the division is D(k * x); k * x -> x
    let shifted_reconstructed_poly: Vec<V> = domain.transform(
        eval_shifted_reconstructed.as_slice(),
        true,
    );
    let reconstructed_poly: Vec<V> = shift_coefficients(
        shifted_reconstructed_poly.as_slice(),
        &k_inverse,
    );

    // D(x) evaluates to the data at the domain points
    let reconstructed_data: Vec<V> = domain.transform(reconstructed_poly.as_slice(), false);

    if !check_known(samples, reconstructed_data.as_slice()) {
        return Err(RecoveryError::ReconstructionMismatch);
    }
    Ok(reconstructed_data)
}

/// The samples with their gaps filled hold every known sample in its place.
pub proof fn lemma_filled_agrees<V: Recoverable>(samples: Seq<Option<V>>)
    ensures
        agrees_with_known(samples, filled(samples)),
{
}

} // verus!
