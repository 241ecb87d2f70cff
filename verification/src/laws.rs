//! What a reconstruction returns over a domain that keeps its promises.
//!
//! A domain is lawful where its forward transform gives the values of a
//! polynomial at the domain points, its inverse transform undoes the
//! forward one, and its vanishing polynomial is zero at the missing points
//! alone. Over such a domain a reconstruction returns the values of the
//! one polynomial that goes through the known samples and has fewer
//! coefficients than there are known samples.
//!
//! The laws speak of `reconstruction`, which is what `recover_samples`
//! returns over a domain that is modelled. They hold for every kind of
//! value that scaling and an addition make a module over the scalar
//! field: for field elements with the field's addition, and for group
//! elements with the group law.

use crate::module::{
    field_module, is_scalar, law_neutral_valid, law_scale_one, law_scale_scale, law_scale_zero,
    lemma_field_is_module, module_laws, Module,
};
use crate::polynomial::{
    all_valid, eval, evaluations, lemma_eval_all_neutral, lemma_eval_product, lemma_eval_shifted,
    lemma_eval_take, lemma_eval_valid, lemma_product_len, lemma_scalar_eval, lemma_shift_back,
    lemma_shifted_valid, product_poly, scalar_eval,
};
use crate::recovery::{
    agrees_with_known, divided, filled, is_power_of_two, lemma_missing_positions, masked,
    missing_positions, product_coefficients, reconstructed_data, reconstruction, shifted,
    shifted_quotient, zero_set_matches, Recoverable, RecoveryError, TransformDomain,
};
use crate::scalar_field::{fr_inv, fr_invertible, fr_mul, lemma_inverse_cancels};
use crate::types::fr::FsFr;
use vstd::prelude::*;

verus! {

/// Whether `missing` lists some but not all of `n` positions, in
/// increasing order.
pub open spec fn proper_missing(missing: Seq<usize>, n: nat) -> bool {
    &&& 0 < missing.len() < n
    &&& forall|j: int| 0 <= j < missing.len() ==> (#[trigger] missing[j]) < n
    &&& forall|j: int, k: int|
        0 <= j < k < missing.len() ==> (#[trigger] missing[j]) < (#[trigger] missing[k])
}

/// Whether the vanishing polynomial that the domain returns for
/// `missing` is what it should be: it has `missing.len()` as its degree,
/// its values at the domain points come with it, they are zero at the
/// missing points and nowhere else, and on the shifted domain it has an
/// inverse everywhere.
pub open spec fn annihilator_law<V: Recoverable, D: TransformDomain<V>>(
    domain: D,
    points: Seq<int>,
    missing: Seq<usize>,
) -> bool {
    let (zero_eval, zero_poly) = domain.spec_annihilator(points.len(), missing);
    &&& zero_poly.len() == points.len()
    &&& all_valid(field_module(), zero_poly)
    &&& forall|j: int|
        missing.len() < j < zero_poly.len() ==> (#[trigger] zero_poly[j]) == FsFr::spec_neutral()
    &&& zero_eval == evaluations(field_module(), zero_poly, points)
    &&& forall|i: int|
        0 <= i < points.len() ==> ((#[trigger] zero_eval[i])@ == 0 <==> missing.contains(
            i as usize,
        ))
    &&& forall|i: int|
        0 <= i < points.len() ==> fr_invertible(
            scalar_eval(zero_poly, fr_mul(domain.spec_coset_factor(), #[trigger] points[i])),
        )
}

/// Whether the domain is one of the given points for the given module.
#[verifier::opaque]
pub open spec fn lawful_domain<V: Recoverable, D: TransformDomain<V>>(
    domain: D,
    m: Module<V>,
    points: Seq<int>,
) -> bool {
    &&& domain.modelled()
    &&& forall|i: int| 0 <= i < points.len() ==> is_scalar(#[trigger] points[i])
    &&& is_scalar(domain.spec_coset_factor())
    &&& is_scalar(domain.spec_coset_factor_inverse())
    &&& fr_mul(domain.spec_coset_factor(), domain.spec_coset_factor_inverse()) == 1
    &&& forall|c: Seq<V>|
        c.len() == points.len() && all_valid(m, c) ==> #[trigger] domain.spec_transform(c, false)
            == evaluations(m, c, points)
    &&& forall|c: Seq<V>|
        c.len() == points.len() && all_valid(m, c) ==> domain.spec_transform(
            #[trigger] domain.spec_transform(c, false),
            true,
        ) == c
    &&& forall|z: Seq<FsFr>|
        z.len() == points.len() && all_valid(field_module(), z)
            ==> #[trigger] domain.spec_transform_scalars(z, false) == evaluations(
            field_module(),
            z,
            points,
        )
    &&& forall|missing: Seq<usize>|
        proper_missing(missing, points.len()) ==> #[trigger] annihilator_law(
            domain,
            points,
            missing,
        )
}

/// What a lawful domain says of itself and of its points.
pub proof fn law_domain_basics<V: Recoverable, D: TransformDomain<V>>(
    domain: D,
    m: Module<V>,
    points: Seq<int>,
)
    requires
        lawful_domain(domain, m, points),
    ensures
        domain.modelled(),
        forall|i: int| 0 <= i < points.len() ==> is_scalar(#[trigger] points[i]),
        is_scalar(domain.spec_coset_factor()),
        is_scalar(domain.spec_coset_factor_inverse()),
        fr_mul(domain.spec_coset_factor(), domain.spec_coset_factor_inverse()) == 1,
{
    reveal(lawful_domain);
}

/// The forward transform of a lawful domain gives the values at its
/// points.
pub proof fn law_forward_evaluates<V: Recoverable, D: TransformDomain<V>>(
    domain: D,
    m: Module<V>,
    points: Seq<int>,
    c: Seq<V>,
)
    requires
        lawful_domain(domain, m, points),
        c.len() == points.len(),
        all_valid(m, c),
    ensures
        domain.spec_transform(c, false) == evaluations(m, c, points),
{
    reveal(lawful_domain);
}

/// The inverse transform of a lawful domain undoes the forward one.
pub proof fn law_inverse_undoes_forward<V: Recoverable, D: TransformDomain<V>>(
    domain: D,
    m: Module<V>,
    points: Seq<int>,
    c: Seq<V>,
)
    requires
        lawful_domain(domain, m, points),
        c.len() == points.len(),
        all_valid(m, c),
    ensures
        domain.spec_transform(domain.spec_transform(c, false), true) == c,
{
    reveal(lawful_domain);
}

/// The forward transform of scalars gives the values at the points.
pub proof fn law_forward_evaluates_scalars<V: Recoverable, D: TransformDomain<V>>(
    domain: D,
    m: Module<V>,
    points: Seq<int>,
    z: Seq<FsFr>,
)
    requires
        lawful_domain(domain, m, points),
        z.len() == points.len(),
        all_valid(field_module(), z),
    ensures
        domain.spec_transform_scalars(z, false) == evaluations(field_module(), z, points),
{
    reveal(lawful_domain);
}

/// The vanishing polynomial of a lawful domain is what it should be.
pub proof fn law_annihilator<V: Recoverable, D: TransformDomain<V>>(
    domain: D,
    m: Module<V>,
    points: Seq<int>,
    missing: Seq<usize>,
)
    requires
        lawful_domain(domain, m, points),
        proper_missing(missing, points.len()),
    ensures
        annihilator_law(domain, points, missing),
{
    reveal(lawful_domain);
}

/// Whether the samples are values of the polynomial `d` at the domain
/// points, and `d` has fewer coefficients than there are known samples.
pub open spec fn samples_of_polynomial<V: Recoverable>(
    samples: Seq<Option<V>>,
    m: Module<V>,
    points: Seq<int>,
    d: Seq<V>,
) -> bool {
    &&& points.len() == samples.len()
    &&& d.len() == samples.len()
    &&& all_valid(m, d)
    &&& forall|j: int|
        samples.len() - missing_positions(samples).len() <= j < d.len() ==> (#[trigger] d[j])
            == V::spec_neutral()
    &&& forall|i: int|
        0 <= i < samples.len() ==> ((#[trigger] samples[i]) matches Some(v) ==> v == eval(
            m,
            d,
            points[i],
        ))
}

/// The product of the data polynomial and the vanishing polynomial, each
/// without the coefficients above its degree.
pub open spec fn data_times_annihilator<V: Recoverable>(
    m: Module<V>,
    d: Seq<V>,
    zero_poly: Seq<FsFr>,
    missing: nat,
) -> Seq<V> {
    product_poly(m, d.take(d.len() - missing), zero_poly.take(missing as int + 1))
}

/// The product has one coefficient for each domain point, and its value
/// is the product of the two values.
pub proof fn lemma_data_times_annihilator<V: Recoverable>(
    m: Module<V>,
    d: Seq<V>,
    zero_poly: Seq<FsFr>,
    missing: nat,
    x: int,
)
    requires
        module_laws(m),
        0 < missing < d.len(),
        zero_poly.len() == d.len(),
        all_valid(m, d),
        all_valid(field_module(), zero_poly),
        forall|j: int| d.len() - missing <= j < d.len() ==> (#[trigger] d[j]) == V::spec_neutral(),
        forall|j: int|
            missing < j < zero_poly.len() ==> (#[trigger] zero_poly[j]) == FsFr::spec_neutral(),
        is_scalar(x),
    ensures
        data_times_annihilator(m, d, zero_poly, missing).len() == d.len(),
        all_valid(m, data_times_annihilator(m, d, zero_poly, missing)),
        eval(m, data_times_annihilator(m, d, zero_poly, missing), x) == eval(m, d, x).spec_scale(
            scalar_eval(zero_poly, x),
        ),
{
    let low = d.take(d.len() - missing);
    let z = zero_poly.take(missing as int + 1);
    assert forall|i: int| 0 <= i < low.len() implies (m.valid)(#[trigger] low[i]) by {
        assert(low[i] == d[i]);
    }
    assert forall|i: int| 0 <= i < z.len() implies (field_module().valid)(#[trigger] z[i]) by {
        assert(z[i] == zero_poly[i]);
    }
    lemma_field_is_module();
    lemma_product_len(m, low, z);
    lemma_eval_product(m, low, z, x);
    lemma_eval_take(m, d, d.len() - missing, x);
    lemma_eval_take(field_module(), zero_poly, missing as int + 1, x);
}

/// The missing positions of samples of which some, but not all, are
/// missing are a proper list of positions.
pub proof fn lemma_missing_is_proper<V>(samples: Seq<Option<V>>)
    requires
        samples.len() <= usize::MAX,
        0 < missing_positions(samples).len() < samples.len(),
    ensures
        proper_missing(missing_positions(samples), samples.len()),
        forall|i: int|
            0 <= i < samples.len() ==> ((#[trigger] samples[i]) is None <==> missing_positions(
                samples,
            ).contains(i as usize)),
{
    lemma_missing_positions(samples);
    let missing = missing_positions(samples);
    assert forall|i: int| 0 <= i < samples.len() && missing.contains(i as usize) implies (
    #[trigger] samples[i]) is None by {
        let j = choose|j: int| 0 <= j < missing.len() && missing[j] == i as usize;
        assert(samples[missing[j] as int] is None);
    }
}

/// Over a lawful domain the masked samples are the values of the product
/// of the data polynomial and the vanishing polynomial, and the inverse
/// transform gives that product's coefficients.
pub proof fn lemma_product_coefficients<V: Recoverable, D: TransformDomain<V>>(
    samples: Seq<Option<V>>,
    domain: D,
    m: Module<V>,
    points: Seq<int>,
    d: Seq<V>,
)
    requires
        module_laws(m),
        lawful_domain(domain, m, points),
        samples_of_polynomial(samples, m, points, d),
        samples.len() <= usize::MAX,
        0 < missing_positions(samples).len() < samples.len(),
    ensures
        ({
            let missing = missing_positions(samples);
            let (zero_eval, zero_poly) = domain.spec_annihilator(samples.len(), missing);
            &&& zero_eval.len() == samples.len()
            &&& zero_poly.len() == samples.len()
            &&& zero_set_matches(samples, zero_eval)
            &&& product_coefficients(samples, domain, zero_eval) == data_times_annihilator(
                m,
                d,
                zero_poly,
                missing.len(),
            )
        }),
{
    let n = samples.len();
    let missing = missing_positions(samples);
    lemma_missing_is_proper(samples);
    law_domain_basics(domain, m, points);
    law_annihilator(domain, m, points, missing);
    let (zero_eval, zero_poly) = domain.spec_annihilator(n, missing);
    let product = data_times_annihilator(m, d, zero_poly, missing.len());
    assert(zero_set_matches(samples, zero_eval));
    let e = masked(samples, zero_eval);
    let values = evaluations(m, product, points);
    assert forall|i: int| 0 <= i < n implies e[i] == values[i] by {
        let x = points[i];
        lemma_data_times_annihilator(m, d, zero_poly, missing.len(), x);
        lemma_eval_valid(m, d, x);
        assert(zero_eval[i] == eval(field_module(), zero_poly, x));
        match samples[i] {
            Some(v) => {},
            None => {
                law_scale_zero(m, eval(m, d, x));
            },
        }
    }
    assert(e =~= values);
    lemma_data_times_annihilator(m, d, zero_poly, missing.len(), points[0]);
    law_forward_evaluates(domain, m, points, product);
    law_inverse_undoes_forward(domain, m, points, product);
}

/// Over a lawful domain the pointwise division on the shifted domain
/// gives the values of the data polynomial there.
pub proof fn lemma_shifted_quotient<V: Recoverable, D: TransformDomain<V>>(
    samples: Seq<Option<V>>,
    domain: D,
    m: Module<V>,
    points: Seq<int>,
    d: Seq<V>,
)
    requires
        module_laws(m),
        lawful_domain(domain, m, points),
        samples_of_polynomial(samples, m, points, d),
        samples.len() <= usize::MAX,
        0 < missing_positions(samples).len() < samples.len(),
    ensures
        ({
            let missing = missing_positions(samples);
            let (zero_eval, zero_poly) = domain.spec_annihilator(samples.len(), missing);
            shifted_quotient(samples, domain, zero_eval, zero_poly) == evaluations(
                m,
                shifted(d, domain.spec_coset_factor()),
                points,
            )
        }),
{
    let n = samples.len();
    let missing = missing_positions(samples);
    let k = domain.spec_coset_factor();
    let fm = field_module();
    lemma_missing_is_proper(samples);
    lemma_field_is_module();
    law_domain_basics(domain, m, points);
    law_annihilator(domain, m, points, missing);
    lemma_product_coefficients(samples, domain, m, points, d);
    let (zero_eval, zero_poly) = domain.spec_annihilator(n, missing);
    let product = data_times_annihilator(m, d, zero_poly, missing.len());
    lemma_data_times_annihilator(m, d, zero_poly, missing.len(), points[0]);
    lemma_shifted_valid(m, product, k);
    lemma_shifted_valid(fm, zero_poly, k);
    law_forward_evaluates(domain, m, points, shifted(product, k));
    law_forward_evaluates_scalars(domain, m, points, shifted(zero_poly, k));
    let numerator = domain.spec_transform(shifted(product, k), false);
    let denominator = domain.spec_transform_scalars(shifted(zero_poly, k), false);
    let quotient = divided(numerator, denominator);
    let values = evaluations(m, shifted(d, k), points);
    assert forall|i: int| 0 <= i < n implies quotient[i] == values[i] by {
        let x = points[i];
        let kx = fr_mul(k, x);
        let w = scalar_eval(zero_poly, kx);
        lemma_eval_shifted(m, product, k, x);
        lemma_eval_shifted(fm, zero_poly, k, x);
        lemma_eval_shifted(m, d, k, x);
        lemma_data_times_annihilator(m, d, zero_poly, missing.len(), kx);
        lemma_scalar_eval(zero_poly, kx);
        lemma_eval_valid(m, d, kx);
        lemma_inverse_cancels(w);
        law_scale_scale(m, eval(m, d, kx), w, fr_inv(w));
        law_scale_one(m, eval(m, d, kx));
    }
    assert(quotient =~= values);
}

/// Over a lawful domain a reconstruction returns the values of the
/// polynomial that the known samples are values of, where that polynomial
/// has fewer coefficients than there are known samples.
pub proof fn theorem_reconstruction<V: Recoverable, D: TransformDomain<V>>(
    samples: Seq<Option<V>>,
    domain: D,
    m: Module<V>,
    points: Seq<int>,
    d: Seq<V>,
)
    requires
        module_laws(m),
        lawful_domain(domain, m, points),
        samples_of_polynomial(samples, m, points, d),
        is_power_of_two(samples.len()),
        samples.len() <= usize::MAX,
    ensures
        reconstruction(samples, domain) == Ok::<Seq<V>, RecoveryError>(
            evaluations(m, d, points),
        ),
{
    let n = samples.len();
    let missing = missing_positions(samples);
    let values = evaluations(m, d, points);
    lemma_missing_positions(samples);
    law_domain_basics(domain, m, points);
    if missing.len() == 0 {
        assert forall|i: int| 0 <= i < n implies (#[trigger] samples[i]) is Some by {
            if samples[i] is None {
                assert(missing.contains(i as usize));
            }
        }
        assert(filled(samples) =~= values);
    } else if missing.len() == n {
        assert forall|i: int| 0 <= i < n implies filled(samples)[i] == values[i] by {
            lemma_eval_all_neutral(m, d, points[i]);
            match samples[i] {
                Some(v) => {},
                None => {},
            }
        }
        assert(filled(samples) =~= values);
    } else {
        let k = domain.spec_coset_factor();
        let k_inverse = domain.spec_coset_factor_inverse();
        let (zero_eval, zero_poly) = domain.spec_annihilator(n, missing);
        lemma_product_coefficients(samples, domain, m, points, d);
        lemma_shifted_quotient(samples, domain, m, points, d);
        lemma_shifted_valid(m, d, k);
        law_forward_evaluates(domain, m, points, shifted(d, k));
        law_inverse_undoes_forward(domain, m, points, shifted(d, k));
        lemma_shift_back(m, d, k, k_inverse);
        law_forward_evaluates(domain, m, points, d);
        assert(reconstructed_data(samples, domain, zero_eval, zero_poly) == values);
        assert(agrees_with_known(samples, values));
    }
}

/// Round trip: where the upper half of a polynomial's coefficients is
/// neutral and at least half of its values at the domain points are
/// known, a reconstruction over a lawful domain returns all of the
/// values, and the inverse transform of those returns the coefficients.
pub proof fn law_round_trip<V: Recoverable, D: TransformDomain<V>>(
    samples: Seq<Option<V>>,
    domain: D,
    m: Module<V>,
    points: Seq<int>,
    d: Seq<V>,
)
    requires
        module_laws(m),
        lawful_domain(domain, m, points),
        is_power_of_two(samples.len()),
        samples.len() <= usize::MAX,
        points.len() == samples.len(),
        d.len() == samples.len(),
        all_valid(m, d),
        forall|j: int| samples.len() / 2 <= j < d.len() ==> (#[trigger] d[j]) == V::spec_neutral(),
        samples.len() - missing_positions(samples).len() >= samples.len() / 2,
        forall|i: int|
            0 <= i < samples.len() ==> ((#[trigger] samples[i]) matches Some(v) ==> v == eval(
                m,
                d,
                points[i],
            )),
    ensures
        reconstruction(samples, domain) == Ok::<Seq<V>, RecoveryError>(
            evaluations(m, d, points),
        ),
        domain.spec_transform(evaluations(m, d, points), true) == d,
{
    theorem_reconstruction(samples, domain, m, points, d);
    law_forward_evaluates(domain, m, points, d);
    law_inverse_undoes_forward(domain, m, points, d);
}

/// Round trip for field elements: the field is a module over itself, so
/// that nothing is asked of the values.
pub proof fn law_round_trip_of_field_elements<D: TransformDomain<FsFr>>(
    samples: Seq<Option<FsFr>>,
    domain: D,
    points: Seq<int>,
    d: Seq<FsFr>,
)
    requires
        lawful_domain(domain, field_module(), points),
        is_power_of_two(samples.len()),
        samples.len() <= usize::MAX,
        points.len() == samples.len(),
        d.len() == samples.len(),
        all_valid(field_module(), d),
        forall|j: int|
            samples.len() / 2 <= j < d.len() ==> (#[trigger] d[j]) == FsFr::spec_neutral(),
        samples.len() - missing_positions(samples).len() >= samples.len() / 2,
        forall|i: int|
            0 <= i < samples.len() ==> ((#[trigger] samples[i]) matches Some(v) ==> v == eval(
                field_module(),
                d,
                points[i],
            )),
    ensures
        reconstruction(samples, domain) == Ok::<Seq<FsFr>, RecoveryError>(
            evaluations(field_module(), d, points),
        ),
        domain.spec_transform(evaluations(field_module(), d, points), true) == d,
{
    lemma_field_is_module();
    law_round_trip(samples, domain, field_module(), points, d);
}

/// The samples of a sequence of values: every one of them known.
pub open spec fn all_known<V>(values: Seq<V>) -> Seq<Option<V>> {
    Seq::new(values.len(), |i: int| Some(values[i]))
}

/// Idempotence: a reconstruction from samples that are all known returns
/// them unchanged, over any domain.
pub proof fn law_idempotence<V: Recoverable, D: TransformDomain<V>>(values: Seq<V>, domain: D)
    requires
        is_power_of_two(values.len()),
        values.len() <= usize::MAX,
    ensures
        reconstruction(all_known(values), domain) == Ok::<Seq<V>, RecoveryError>(values),
{
    let samples = all_known(values);
    lemma_missing_positions(samples);
    let missing = missing_positions(samples);
    if missing.len() > 0 {
        assert(samples[missing[0] as int] is None);
    }
    assert(filled(samples) =~= values);
}

/// A length that is no power of two is refused, over any domain and
/// whatever the samples hold.
pub proof fn law_invalid_length<V: Recoverable, D: TransformDomain<V>>(
    samples: Seq<Option<V>>,
    domain: D,
)
    requires
        !is_power_of_two(samples.len()),
    ensures
        reconstruction(samples, domain) == Err::<Seq<V>, RecoveryError>(
            RecoveryError::InvalidLength,
        ),
{
}

/// The coefficients followed by as many neutral values.
pub open spec fn padded<V: Recoverable>(c: Seq<V>) -> Seq<V> {
    c + Seq::new(c.len(), |i: int| V::spec_neutral())
}

/// Interleaving: take a source sequence over a domain of half the width,
/// pad its coefficients with neutral values to the full width, and
/// transform forward. The source then stands in the even places, and a
/// reconstruction from at least half of the extended values returns all
/// of them, the source in the even places among them.
pub proof fn law_interleave<V: Recoverable, S: TransformDomain<V>, D: TransformDomain<V>>(
    source: Seq<V>,
    samples: Seq<Option<V>>,
    half: S,
    domain: D,
    m: Module<V>,
    half_points: Seq<int>,
    points: Seq<int>,
)
    requires
        module_laws(m),
        lawful_domain(half, m, half_points),
        lawful_domain(domain, m, points),
        // the smaller domain's points are every second one of the larger
        points.len() == 2 * half_points.len(),
        forall|i: int| 0 <= i < half_points.len() ==> #[trigger] half_points[i] == points[2 * i],
        // the source's coefficients exist and give the source back
        source.len() == half_points.len(),
        half.spec_transform(source, true).len() == source.len(),
        all_valid(m, half.spec_transform(source, true)),
        half.spec_transform(half.spec_transform(source, true), false) == source,
        // the samples are extended values, at least half of them known
        is_power_of_two(samples.len()),
        samples.len() <= usize::MAX,
        samples.len() == points.len(),
        missing_positions(samples).len() <= half_points.len(),
        forall|i: int|
            0 <= i < samples.len() ==> ((#[trigger] samples[i]) matches Some(v) ==> v
                == domain.spec_transform(padded(half.spec_transform(source, true)), false)[i]),
    ensures
        ({
            let extended = domain.spec_transform(
                padded(half.spec_transform(source, true)),
                false,
            );
            &&& extended.len() == 2 * source.len()
            &&& forall|i: int| 0 <= i < source.len() ==> extended[2 * i] == #[trigger] source[i]
            &&& reconstruction(samples, domain) == Ok::<Seq<V>, RecoveryError>(extended)
        }),
{
    let c = half.spec_transform(source, true);
    let d = padded(c);
    let extended = domain.spec_transform(d, false);
    law_neutral_valid(m);
    law_domain_basics(half, m, half_points);
    law_domain_basics(domain, m, points);
    assert forall|i: int| 0 <= i < d.len() implies (m.valid)(#[trigger] d[i]) by {
        if i < c.len() {
            assert(d[i] == c[i]);
        }
    }
    law_forward_evaluates(domain, m, points, d);
    law_forward_evaluates(half, m, half_points, c);
    assert(d.take(c.len() as int) =~= c);
    assert forall|i: int| 0 <= i < source.len() implies extended[2 * i] == #[trigger] source[i] by {
        lemma_eval_take(m, d, c.len() as int, points[2 * i]);
        assert(half_points[i] == points[2 * i]);
        assert(source[i] == evaluations(m, c, half_points)[i]);
    }
    assert forall|i: int| 0 <= i < samples.len() implies ((#[trigger] samples[i]) matches Some(v)
        ==> v == eval(m, d, points[i])) by {
        assert(extended[i] == eval(m, d, points[i]));
    }
    theorem_reconstruction(samples, domain, m, points, d);
}

} // verus!
