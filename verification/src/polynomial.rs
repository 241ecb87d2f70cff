//! Polynomials with module values as coefficients: their values, sums,
//! products and coset shifts.

use crate::module::{
    field_module, is_scalar, law_add_commutes, law_add_neutral, law_add_valid, law_neutral_valid,
    law_scale_neutral, law_scale_one, law_scale_scale, law_scale_sum, law_scale_valid,
    law_scale_zero, law_sum_of_scalings, lemma_add_shuffle, lemma_field_is_module,
    lemma_scalings_commute, module_laws, Module,
};
use crate::recovery::{shifted, Recoverable};
use crate::scalar_field::{
    fr_add, fr_mul, fr_pow, lemma_fr_mul_associative, lemma_fr_mul_commutative,
    lemma_fr_pow_range,
};
use crate::types::fr::FsFr;
use vstd::prelude::*;

verus! {

/// Whether every value of the sequence belongs to the module.
pub open spec fn all_valid<V>(m: Module<V>, c: Seq<V>) -> bool {
    forall|i: int| 0 <= i < c.len() ==> (m.valid)(#[trigger] c[i])
}

/// The tail of a sequence of valid values is one.
pub proof fn lemma_tail_valid<V>(m: Module<V>, c: Seq<V>)
    requires
        all_valid(m, c),
        c.len() > 0,
    ensures
        all_valid(m, c.drop_first()),
        (m.valid)(c[0]),
{
    let rest = c.drop_first();
    assert forall|i: int| 0 <= i < rest.len() implies (m.valid)(#[trigger] rest[i]) by {
        assert(rest[i] == c[i + 1]);
    }
}

/// The value at `x` of the polynomial with the coefficients `c`, lowest
/// degree first: `c[0] + x * (c[1] + x * (c[2] + ...))`.
pub open spec fn eval<V: Recoverable>(m: Module<V>, c: Seq<V>, x: int) -> V
    decreases c.len(),
{
    if c.len() == 0 {
        V::spec_neutral()
    } else {
        (m.add)(c[0], eval(m, c.drop_first(), x).spec_scale(x))
    }
}

/// A polynomial with valid coefficients has valid values.
pub proof fn lemma_eval_valid<V: Recoverable>(m: Module<V>, c: Seq<V>, x: int)
    requires
        module_laws(m),
        all_valid(m, c),
        is_scalar(x),
    ensures
        (m.valid)(eval(m, c, x)),
    decreases c.len(),
{
    if c.len() > 0 {
        let rest = c.drop_first();
        lemma_tail_valid(m, c);
        lemma_eval_valid(m, rest, x);
        law_scale_valid(m, eval(m, rest, x), x);
        law_add_valid(m, c[0], eval(m, rest, x).spec_scale(x));
    } else {
        law_neutral_valid(m);
    }
}

/// Every coefficient scaled by `s`.
pub open spec fn scaled_poly<V: Recoverable>(c: Seq<V>, s: int) -> Seq<V> {
    Seq::new(c.len(), |i: int| c[i].spec_scale(s))
}

/// Scaled valid coefficients are valid.
pub proof fn lemma_scaled_valid<V: Recoverable>(m: Module<V>, c: Seq<V>, s: int)
    requires
        module_laws(m),
        all_valid(m, c),
        is_scalar(s),
    ensures
        all_valid(m, scaled_poly(c, s)),
{
    let sc = scaled_poly(c, s);
    assert forall|i: int| 0 <= i < sc.len() implies (m.valid)(#[trigger] sc[i]) by {
        law_scale_valid(m, c[i], s);
    }
}

/// Scaling the coefficients scales the value.
pub proof fn lemma_eval_scaled<V: Recoverable>(m: Module<V>, c: Seq<V>, s: int, x: int)
    requires
        module_laws(m),
        all_valid(m, c),
        is_scalar(s),
        is_scalar(x),
    ensures
        eval(m, scaled_poly(c, s), x) == eval(m, c, x).spec_scale(s),
    decreases c.len(),
{
    let sc = scaled_poly(c, s);
    if c.len() > 0 {
        let rest = c.drop_first();
        lemma_tail_valid(m, c);
        lemma_eval_scaled(m, rest, s, x);
        lemma_eval_valid(m, rest, x);
        assert(sc.drop_first() =~= scaled_poly(rest, s));
        let e = eval(m, rest, x);
        lemma_scalings_commute(m, e, s, x);
        law_scale_valid(m, e, x);
        law_scale_sum(m, c[0], e.spec_scale(x), s);
    } else {
        law_scale_neutral::<V>(m, s);
    }
}

/// The coefficients of `x * p(x)` from those of `p(x)`.
pub open spec fn times_x<V: Recoverable>(c: Seq<V>) -> Seq<V> {
    seq![V::spec_neutral()] + c
}

/// Multiplying a polynomial by `x` scales its value by `x`.
pub proof fn lemma_eval_times_x<V: Recoverable>(m: Module<V>, c: Seq<V>, x: int)
    requires
        module_laws(m),
        all_valid(m, c),
        is_scalar(x),
    ensures
        all_valid(m, times_x(c)),
        eval(m, times_x(c), x) == eval(m, c, x).spec_scale(x),
{
    let t = times_x(c);
    law_neutral_valid(m);
    assert forall|i: int| 0 <= i < t.len() implies (m.valid)(#[trigger] t[i]) by {
        if i > 0 {
            assert(t[i] == c[i - 1]);
        }
    }
    assert(t.drop_first() =~= c);
    lemma_eval_valid(m, c, x);
    let e = eval(m, c, x).spec_scale(x);
    law_scale_valid(m, eval(m, c, x), x);
    law_add_commutes(m, V::spec_neutral(), e);
    law_add_neutral(m, e);
}

/// The coefficient at position `i`, and the neutral value past the end.
pub open spec fn coefficient<V: Recoverable>(c: Seq<V>, i: int) -> V {
    if 0 <= i < c.len() {
        c[i]
    } else {
        V::spec_neutral()
    }
}

/// The coefficients after the lowest one; none where there is none.
pub open spec fn higher<V>(c: Seq<V>) -> Seq<V> {
    if c.len() > 0 {
        c.drop_first()
    } else {
        c
    }
}

/// The value of a polynomial is its lowest coefficient plus `x` times the
/// value of the rest, also where it has no coefficient at all.
pub proof fn lemma_eval_step<V: Recoverable>(m: Module<V>, c: Seq<V>, x: int)
    requires
        module_laws(m),
        all_valid(m, c),
        is_scalar(x),
    ensures
        all_valid(m, higher(c)),
        (m.valid)(coefficient(c, 0)),
        eval(m, c, x) == (m.add)(coefficient(c, 0), eval(m, higher(c), x).spec_scale(x)),
{
    if c.len() == 0 {
        let z = V::spec_neutral();
        law_neutral_valid(m);
        law_scale_neutral::<V>(m, x);
        law_add_neutral(m, z);
    } else {
        lemma_tail_valid(m, c);
    }
}

/// The coefficients of the sum of two polynomials.
pub open spec fn sum_poly<V: Recoverable>(m: Module<V>, a: Seq<V>, b: Seq<V>) -> Seq<V> {
    Seq::new(
        if a.len() >= b.len() {
            a.len()
        } else {
            b.len()
        },
        |i: int| (m.add)(coefficient(a, i), coefficient(b, i)),
    )
}

/// A sum of polynomials with valid coefficients has valid coefficients.
pub proof fn lemma_sum_valid<V: Recoverable>(m: Module<V>, a: Seq<V>, b: Seq<V>)
    requires
        module_laws(m),
        all_valid(m, a),
        all_valid(m, b),
    ensures
        all_valid(m, sum_poly(m, a, b)),
{
    let s = sum_poly(m, a, b);
    law_neutral_valid(m);
    assert forall|i: int| 0 <= i < s.len() implies (m.valid)(#[trigger] s[i]) by {
        law_add_valid(m, coefficient(a, i), coefficient(b, i));
    }
}

/// The value of a sum of polynomials is the sum of their values.
pub proof fn lemma_eval_sum<V: Recoverable>(m: Module<V>, a: Seq<V>, b: Seq<V>, x: int)
    requires
        module_laws(m),
        all_valid(m, a),
        all_valid(m, b),
        is_scalar(x),
    ensures
        eval(m, sum_poly(m, a, b), x) == (m.add)(eval(m, a, x), eval(m, b, x)),
    decreases a.len() + b.len(),
{
    let s = sum_poly(m, a, b);
    let z = V::spec_neutral();
    if a.len() == 0 && b.len() == 0 {
        law_neutral_valid(m);
        law_add_neutral(m, z);
    } else {
        let ar = higher(a);
        let br = higher(b);
        lemma_eval_step(m, a, x);
        lemma_eval_step(m, b, x);
        lemma_eval_sum(m, ar, br, x);
        lemma_eval_valid(m, ar, x);
        lemma_eval_valid(m, br, x);
        assert(s.drop_first() =~= sum_poly(m, ar, br));
        let a0 = coefficient(a, 0);
        let b0 = coefficient(b, 0);
        law_scale_valid(m, eval(m, ar, x), x);
        law_scale_valid(m, eval(m, br, x), x);
        law_scale_sum(m, eval(m, ar, x), eval(m, br, x), x);
        lemma_add_shuffle(m, a0, b0, eval(m, ar, x).spec_scale(x), eval(m, br, x).spec_scale(x));
    }
}

/// A polynomial whose coefficients are all neutral is neutral everywhere.
pub proof fn lemma_eval_all_neutral<V: Recoverable>(m: Module<V>, c: Seq<V>, x: int)
    requires
        module_laws(m),
        forall|i: int| 0 <= i < c.len() ==> c[i] == V::spec_neutral(),
        is_scalar(x),
    ensures
        eval(m, c, x) == V::spec_neutral(),
    decreases c.len(),
{
    if c.len() > 0 {
        let rest = c.drop_first();
        assert forall|i: int| 0 <= i < rest.len() implies rest[i] == V::spec_neutral() by {
            assert(rest[i] == c[i + 1]);
        }
        lemma_eval_all_neutral(m, rest, x);
        law_neutral_valid(m);
        law_scale_neutral::<V>(m, x);
        law_add_neutral(m, V::spec_neutral());
    }
}

/// Neutral coefficients at the top of a polynomial do not change its
/// values.
pub proof fn lemma_eval_take<V: Recoverable>(m: Module<V>, c: Seq<V>, l: int, x: int)
    requires
        module_laws(m),
        0 <= l <= c.len(),
        forall|i: int| l <= i < c.len() ==> c[i] == V::spec_neutral(),
        is_scalar(x),
    ensures
        eval(m, c, x) == eval(m, c.take(l), x),
    decreases c.len(),
{
    if l == c.len() {
        assert(c.take(l) =~= c);
    } else if l == 0 {
        lemma_eval_all_neutral(m, c, x);
    } else {
        let rest = c.drop_first();
        assert forall|i: int| l - 1 <= i < rest.len() implies rest[i] == V::spec_neutral() by {
            assert(rest[i] == c[i + 1]);
        }
        lemma_eval_take(m, rest, l - 1, x);
        assert(c.take(l).drop_first() =~= rest.take(l - 1));
    }
}

/// The powers of a scalar and of its inverse cancel.
pub proof fn lemma_fr_pow_inverse(k: int, k_inverse: int, j: nat)
    requires
        fr_mul(k, k_inverse) == 1,
    ensures
        fr_mul(fr_pow(k, j), fr_pow(k_inverse, j)) == 1,
    decreases j,
{
    if j > 0 {
        let p = fr_pow(k, (j - 1) as nat);
        let q = fr_pow(k_inverse, (j - 1) as nat);
        lemma_fr_pow_inverse(k, k_inverse, (j - 1) as nat);
        // (k * p) * (k' * q) == (k * k') * (p * q)
        lemma_fr_mul_associative(fr_mul(k, p), k_inverse, q);
        lemma_fr_mul_associative(k, p, k_inverse);
        lemma_fr_mul_commutative(p, k_inverse);
        lemma_fr_mul_associative(k, k_inverse, p);
        lemma_fr_mul_associative(fr_mul(k, k_inverse), p, q);
        assert(fr_mul(1, 1) == 1);
    }
}

/// The coefficients of `p(k * x)`, shifted from those of `p(x)`, are valid.
pub proof fn lemma_shifted_valid<V: Recoverable>(m: Module<V>, c: Seq<V>, k: int)
    requires
        module_laws(m),
        all_valid(m, c),
        is_scalar(k),
    ensures
        all_valid(m, shifted(c, k)),
{
    let sh = shifted(c, k);
    assert forall|i: int| 0 <= i < sh.len() implies (m.valid)(#[trigger] sh[i]) by {
        lemma_fr_pow_range(k, i as nat);
        law_scale_valid(m, c[i], fr_pow(k, i as nat));
    }
}

/// The shifted coefficients are those of `p(k * x)`: their polynomial has
/// at `x` the value of `p` at `k * x`.
pub proof fn lemma_eval_shifted<V: Recoverable>(m: Module<V>, c: Seq<V>, k: int, x: int)
    requires
        module_laws(m),
        all_valid(m, c),
        is_scalar(k),
        is_scalar(x),
    ensures
        eval(m, shifted(c, k), x) == eval(m, c, fr_mul(k, x)),
    decreases c.len(),
{
    if c.len() > 0 {
        let sh = shifted(c, k);
        let rest = c.drop_first();
        let inner = shifted(rest, k);
        lemma_tail_valid(m, c);
        lemma_eval_shifted(m, rest, k, x);
        lemma_shifted_valid(m, rest, k);
        law_scale_one(m, c[0]);
        assert(sh[0] == c[0]);
        assert(sh.drop_first() =~= scaled_poly(inner, k)) by {
            assert forall|j: int| 0 <= j < rest.len() implies sh.drop_first()[j] == scaled_poly(
                inner,
                k,
            )[j] by {
                lemma_fr_pow_range(k, j as nat);
                law_scale_scale(m, c[j + 1], fr_pow(k, j as nat), k);
                lemma_fr_mul_commutative(fr_pow(k, j as nat), k);
                assert(rest[j] == c[j + 1]);
                assert(sh.drop_first()[j] == sh[j + 1]);
            }
        }
        lemma_eval_scaled(m, inner, k, x);
        lemma_eval_valid(m, rest, fr_mul(k, x));
        law_scale_scale(m, eval(m, rest, fr_mul(k, x)), k, x);
    }
}

/// Shifting by a scalar and then by its inverse gives the coefficients
/// back.
pub proof fn lemma_shift_back<V: Recoverable>(m: Module<V>, c: Seq<V>, k: int, k_inverse: int)
    requires
        module_laws(m),
        all_valid(m, c),
        is_scalar(k),
        is_scalar(k_inverse),
        fr_mul(k, k_inverse) == 1,
    ensures
        shifted(shifted(c, k), k_inverse) == c,
{
    let back = shifted(shifted(c, k), k_inverse);
    assert forall|j: int| 0 <= j < c.len() implies back[j] == c[j] by {
        lemma_fr_pow_range(k, j as nat);
        lemma_fr_pow_range(k_inverse, j as nat);
        law_scale_scale(m, c[j], fr_pow(k, j as nat), fr_pow(k_inverse, j as nat));
        lemma_fr_pow_inverse(k, k_inverse, j as nat);
        law_scale_one(m, c[j]);
    }
    assert(back =~= c);
}

/// The value at `x` of a polynomial with field elements as coefficients.
pub open spec fn scalar_eval(z: Seq<FsFr>, x: int) -> int {
    eval(field_module(), z, x)@
}

/// The value of a scalar polynomial is a canonical value, and follows
/// from the lowest coefficient and the value of the rest.
pub proof fn lemma_scalar_eval(z: Seq<FsFr>, x: int)
    requires
        all_valid(field_module(), z),
        is_scalar(x),
    ensures
        is_scalar(scalar_eval(z, x)),
        z.len() == 0 ==> scalar_eval(z, x) == 0,
        z.len() > 0 ==> scalar_eval(z, x) == fr_add(
            z[0]@,
            fr_mul(scalar_eval(z.drop_first(), x), x),
        ),
{
    let fm = field_module();
    lemma_field_is_module();
    lemma_eval_valid(fm, z, x);
    eval(fm, z, x).lemma_range();
    if z.len() == 0 {
        FsFr::lemma_from_int(0);
    } else {
        let e = eval(fm, z.drop_first(), x);
        FsFr::lemma_from_int(e@ * x);
        FsFr::lemma_from_int(z[0]@ + e.spec_scale(x)@);
    }
}

/// The coefficients of the product of a polynomial `d` and a scalar
/// polynomial `z`.
pub open spec fn product_poly<V: Recoverable>(m: Module<V>, d: Seq<V>, z: Seq<FsFr>) -> Seq<V>
    decreases z.len(),
{
    if z.len() == 0 {
        Seq::empty()
    } else {
        sum_poly(m, scaled_poly(d, z[0]@), times_x(product_poly(m, d, z.drop_first())))
    }
}

/// The product has as many coefficients as its factors together, less one.
pub proof fn lemma_product_len<V: Recoverable>(m: Module<V>, d: Seq<V>, z: Seq<FsFr>)
    requires
        d.len() > 0,
        z.len() > 0,
    ensures
        product_poly(m, d, z).len() == d.len() + z.len() - 1,
    decreases z.len(),
{
    if z.len() > 1 {
        lemma_product_len(m, d, z.drop_first());
    } else {
        assert(product_poly(m, d, z.drop_first()).len() == 0);
    }
}

/// The value of a product is the value of the one factor scaled by the
/// value of the other.
pub proof fn lemma_eval_product<V: Recoverable>(m: Module<V>, d: Seq<V>, z: Seq<FsFr>, x: int)
    requires
        module_laws(m),
        all_valid(m, d),
        all_valid(field_module(), z),
        is_scalar(x),
    ensures
        all_valid(m, product_poly(m, d, z)),
        eval(m, product_poly(m, d, z), x) == eval(m, d, x).spec_scale(scalar_eval(z, x)),
    decreases z.len(),
{
    let ed = eval(m, d, x);
    lemma_eval_valid(m, d, x);
    lemma_scalar_eval(z, x);
    if z.len() == 0 {
        law_scale_zero(m, ed);
    } else {
        let rest = z.drop_first();
        let inner = product_poly(m, d, rest);
        let z0 = z[0]@;
        lemma_tail_valid(field_module(), z);
        z[0].lemma_range();
        lemma_eval_product(m, d, rest, x);
        lemma_scalar_eval(rest, x);
        let ez = scalar_eval(rest, x);
        lemma_scaled_valid(m, d, z0);
        lemma_eval_scaled(m, d, z0, x);
        lemma_eval_times_x(m, inner, x);
        lemma_sum_valid(m, scaled_poly(d, z0), times_x(inner));
        lemma_eval_sum(m, scaled_poly(d, z0), times_x(inner), x);
        law_scale_scale(m, ed, ez, x);
        law_sum_of_scalings(m, ed, z0, fr_mul(ez, x));
    }
}

/// The values of a polynomial at the given points.
pub open spec fn evaluations<V: Recoverable>(m: Module<V>, c: Seq<V>, points: Seq<int>) -> Seq<V> {
    Seq::new(points.len(), |i: int| eval(m, c, points[i]))
}

} // verus!
