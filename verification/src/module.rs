//! Sample values as a module over the scalar field.
//!
//! A reconstruction only ever scales and compares values. What it computes
//! is stated over an addition that goes with the scaling: for field
//! elements the field's own, for group elements the group law.

use crate::recovery::Recoverable;
use crate::scalar_field::{fr_add, fr_mul, modulus};
use crate::types::fr::FsFr;
use vstd::arithmetic::div_mod::{
    lemma_add_mod_noop, lemma_mul_mod_noop_left, lemma_mul_mod_noop_right, lemma_small_mod,
};
use vstd::prelude::*;

verus! {

/// An addition on sample values, and the values that it is an addition of.
#[verifier::reject_recursive_types(V)]
pub struct Module<V> {
    /// The values that belong to the module.
    pub valid: spec_fn(V) -> bool,
    /// The sum of two values.
    pub add: spec_fn(V, V) -> V,
}

/// Whether `s` is the canonical value of a field element.
pub open spec fn is_scalar(s: int) -> bool {
    0 <= s < modulus()
}

/// Whether the addition and the scaling make the valid values a module
/// over the scalar field, with the neutral value as its zero.
#[verifier::opaque]
pub open spec fn module_laws<V: Recoverable>(m: Module<V>) -> bool {
    &&& (m.valid)(V::spec_neutral())
    &&& forall|a: V, b: V|
        (m.valid)(a) && (m.valid)(b) ==> (m.valid)(#[trigger] (m.add)(a, b))
    &&& forall|a: V, s: int|
        (m.valid)(a) && is_scalar(s) ==> (m.valid)(#[trigger] a.spec_scale(s))
    &&& forall|a: V, b: V|
        (m.valid)(a) && (m.valid)(b) ==> #[trigger] (m.add)(a, b) == (m.add)(b, a)
    &&& forall|a: V, b: V, c: V|
        (m.valid)(a) && (m.valid)(b) && (m.valid)(c) ==> #[trigger] (m.add)((m.add)(a, b), c) == (
        m.add)(a, (m.add)(b, c))
    &&& forall|a: V| (m.valid)(a) ==> #[trigger] (m.add)(a, V::spec_neutral()) == a
    &&& forall|a: V| (m.valid)(a) ==> #[trigger] a.spec_scale(1) == a
    &&& forall|a: V| (m.valid)(a) ==> #[trigger] a.spec_scale(0) == V::spec_neutral()
    &&& forall|s: int|
        is_scalar(s) ==> #[trigger] V::spec_neutral().spec_scale(s) == V::spec_neutral()
    &&& forall|a: V, s: int, t: int|
        (m.valid)(a) && is_scalar(s) && is_scalar(t) ==> #[trigger] a.spec_scale(s).spec_scale(t)
            == a.spec_scale(fr_mul(s, t))
    &&& forall|a: V, b: V, s: int|
        (m.valid)(a) && (m.valid)(b) && is_scalar(s) ==> #[trigger] (m.add)(a, b).spec_scale(s)
            == (m.add)(a.spec_scale(s), b.spec_scale(s))
    &&& forall|a: V, s: int, t: int|
        (m.valid)(a) && is_scalar(s) && is_scalar(t) ==> #[trigger] (m.add)(
            a.spec_scale(s),
            a.spec_scale(t),
        ) == a.spec_scale(fr_add(s, t))
}

/// The field as a module over itself: the canonical elements with the
/// field's addition.
pub open spec fn field_module() -> Module<FsFr> {
    Module {
        valid: |a: FsFr| a.is_canonical(),
        add: |a: FsFr, b: FsFr| FsFr::from_int(a@ + b@),
    }
}

/// The field is a module over itself.
pub proof fn lemma_field_is_module()
    ensures
        module_laws(field_module()),
{
    reveal(module_laws);
    let m = field_module();
    let r = modulus();
    FsFr::lemma_from_int(0);
    assert forall|a: FsFr, b: FsFr| (m.valid)(a) && (m.valid)(b) implies (m.valid)(
        #[trigger] (m.add)(a, b),
    ) by {
        FsFr::lemma_from_int(a@ + b@);
    }
    assert forall|a: FsFr, s: int| (m.valid)(a) && is_scalar(s) implies (m.valid)(
        #[trigger] a.spec_scale(s),
    ) by {
        FsFr::lemma_from_int(a@ * s);
    }
    assert forall|a: FsFr, b: FsFr| (m.valid)(a) && (m.valid)(b) implies #[trigger] (m.add)(a, b)
        == (m.add)(b, a) by {
        assert(a@ + b@ == b@ + a@);
    }
    assert forall|a: FsFr, b: FsFr, c: FsFr|
        (m.valid)(a) && (m.valid)(b) && (m.valid)(c) implies #[trigger] (m.add)(
        (m.add)(a, b),
        c,
    ) == (m.add)(a, (m.add)(b, c)) by {
        FsFr::lemma_from_int(a@ + b@);
        FsFr::lemma_from_int(b@ + c@);
        lemma_add_mod_noop(a@ + b@, c@, r);
        lemma_add_mod_noop(a@, b@ + c@, r);
        a.lemma_range();
        b.lemma_range();
        c.lemma_range();
        lemma_small_mod(a@ as nat, r as nat);
        lemma_small_mod(c@ as nat, r as nat);
        FsFr::lemma_from_int((a@ + b@) % r + c@);
        FsFr::lemma_from_int(a@ + (b@ + c@) % r);
        (m.add)((m.add)(a, b), c).lemma_view_injective((m.add)(a, (m.add)(b, c)));
    }
    assert forall|a: FsFr| (m.valid)(a) implies #[trigger] (m.add)(a, FsFr::spec_neutral())
        == a by {
        a.lemma_from_int_of_view();
    }
    assert forall|a: FsFr| (m.valid)(a) implies #[trigger] a.spec_scale(1) == a by {
        assert(a@ * 1 == a@);
        a.lemma_from_int_of_view();
    }
    assert forall|a: FsFr| (m.valid)(a) implies #[trigger] a.spec_scale(0)
        == FsFr::spec_neutral() by {
        assert(a@ * 0 == 0);
    }
    assert forall|s: int| is_scalar(s) implies #[trigger] FsFr::spec_neutral().spec_scale(s)
        == FsFr::spec_neutral() by {
        assert(0 * s == 0);
    }
    assert forall|a: FsFr, s: int, t: int|
        (m.valid)(a) && is_scalar(s) && is_scalar(t) implies #[trigger] a.spec_scale(s).spec_scale(
        t,
    ) == a.spec_scale(fr_mul(s, t)) by {
        FsFr::lemma_from_int(a@ * s);
        FsFr::lemma_from_int(((a@ * s) % r) * t);
        FsFr::lemma_from_int(a@ * ((s * t) % r));
        lemma_mul_mod_noop_left(a@ * s, t, r);
        lemma_mul_mod_noop_right(a@, s * t, r);
        assert((a@ * s) * t == a@ * (s * t)) by (nonlinear_arith);
        a.spec_scale(s).spec_scale(t).lemma_view_injective(a.spec_scale(fr_mul(s, t)));
    }
    assert forall|a: FsFr, b: FsFr, s: int|
        (m.valid)(a) && (m.valid)(b) && is_scalar(s) implies #[trigger] (m.add)(a, b).spec_scale(s)
        == (m.add)(a.spec_scale(s), b.spec_scale(s)) by {
        FsFr::lemma_from_int(a@ + b@);
        FsFr::lemma_from_int(a@ * s);
        FsFr::lemma_from_int(b@ * s);
        FsFr::lemma_from_int(((a@ + b@) % r) * s);
        FsFr::lemma_from_int((a@ * s) % r + (b@ * s) % r);
        lemma_mul_mod_noop_left(a@ + b@, s, r);
        lemma_add_mod_noop(a@ * s, b@ * s, r);
        assert((a@ + b@) * s == a@ * s + b@ * s) by (nonlinear_arith);
        (m.add)(a, b).spec_scale(s).lemma_view_injective(
            (m.add)(a.spec_scale(s), b.spec_scale(s)),
        );
    }
    assert forall|a: FsFr, s: int, t: int|
        (m.valid)(a) && is_scalar(s) && is_scalar(t) implies #[trigger] (m.add)(
        a.spec_scale(s),
        a.spec_scale(t),
    ) == a.spec_scale(fr_add(s, t)) by {
        FsFr::lemma_from_int(a@ * s);
        FsFr::lemma_from_int(a@ * t);
        FsFr::lemma_from_int((a@ * s) % r + (a@ * t) % r);
        FsFr::lemma_from_int(a@ * ((s + t) % r));
        lemma_add_mod_noop(a@ * s, a@ * t, r);
        lemma_mul_mod_noop_right(a@, s + t, r);
        assert(a@ * (s + t) == a@ * s + a@ * t) by (nonlinear_arith);
        (m.add)(a.spec_scale(s), a.spec_scale(t)).lemma_view_injective(
            a.spec_scale(fr_add(s, t)),
        );
    }
}

/// The neutral value belongs to the module.
pub proof fn law_neutral_valid<V: Recoverable>(m: Module<V>)
    requires
        module_laws(m),
    ensures
        (m.valid)(V::spec_neutral()),
{
    reveal(module_laws);
}

/// A sum of valid values is valid.
pub proof fn law_add_valid<V: Recoverable>(m: Module<V>, a: V, b: V)
    requires
        module_laws(m),
        (m.valid)(a),
        (m.valid)(b),
    ensures
        (m.valid)((m.add)(a, b)),
{
    reveal(module_laws);
}

/// A scaled valid value is valid.
pub proof fn law_scale_valid<V: Recoverable>(m: Module<V>, a: V, s: int)
    requires
        module_laws(m),
        (m.valid)(a),
        is_scalar(s),
    ensures
        (m.valid)(a.spec_scale(s)),
{
    reveal(module_laws);
}

/// `a + b == b + a`.
pub proof fn law_add_commutes<V: Recoverable>(m: Module<V>, a: V, b: V)
    requires
        module_laws(m),
        (m.valid)(a),
        (m.valid)(b),
    ensures
        (m.add)(a, b) == (m.add)(b, a),
{
    reveal(module_laws);
}

/// `(a + b) + c == a + (b + c)`.
pub proof fn law_add_associates<V: Recoverable>(m: Module<V>, a: V, b: V, c: V)
    requires
        module_laws(m),
        (m.valid)(a),
        (m.valid)(b),
        (m.valid)(c),
    ensures
        (m.add)((m.add)(a, b), c) == (m.add)(a, (m.add)(b, c)),
{
    reveal(module_laws);
}

/// `a + 0 == a`.
pub proof fn law_add_neutral<V: Recoverable>(m: Module<V>, a: V)
    requires
        module_laws(m),
        (m.valid)(a),
    ensures
        (m.add)(a, V::spec_neutral()) == a,
{
    reveal(module_laws);
}

/// `1 * a == a`.
pub proof fn law_scale_one<V: Recoverable>(m: Module<V>, a: V)
    requires
        module_laws(m),
        (m.valid)(a),
    ensures
        a.spec_scale(1) == a,
{
    reveal(module_laws);
}

/// `0 * a == 0`.
pub proof fn law_scale_zero<V: Recoverable>(m: Module<V>, a: V)
    requires
        module_laws(m),
        (m.valid)(a),
    ensures
        a.spec_scale(0) == V::spec_neutral(),
{
    reveal(module_laws);
}

/// `s * 0 == 0`.
pub proof fn law_scale_neutral<V: Recoverable>(m: Module<V>, s: int)
    requires
        module_laws(m),
        is_scalar(s),
    ensures
        V::spec_neutral().spec_scale(s) == V::spec_neutral(),
{
    reveal(module_laws);
}

/// `t * (s * a) == (s * t) * a`.
pub proof fn law_scale_scale<V: Recoverable>(m: Module<V>, a: V, s: int, t: int)
    requires
        module_laws(m),
        (m.valid)(a),
        is_scalar(s),
        is_scalar(t),
    ensures
        a.spec_scale(s).spec_scale(t) == a.spec_scale(fr_mul(s, t)),
{
    reveal(module_laws);
}

/// `s * (a + b) == s * a + s * b`.
pub proof fn law_scale_sum<V: Recoverable>(m: Module<V>, a: V, b: V, s: int)
    requires
        module_laws(m),
        (m.valid)(a),
        (m.valid)(b),
        is_scalar(s),
    ensures
        (m.add)(a, b).spec_scale(s) == (m.add)(a.spec_scale(s), b.spec_scale(s)),
{
    reveal(module_laws);
}

/// `s * a + t * a == (s + t) * a`.
pub proof fn law_sum_of_scalings<V: Recoverable>(m: Module<V>, a: V, s: int, t: int)
    requires
        module_laws(m),
        (m.valid)(a),
        is_scalar(s),
        is_scalar(t),
    ensures
        (m.add)(a.spec_scale(s), a.spec_scale(t)) == a.spec_scale(fr_add(s, t)),
{
    reveal(module_laws);
}

/// Scalings by two scalars can be done in either order.
pub proof fn lemma_scalings_commute<V: Recoverable>(m: Module<V>, a: V, s: int, t: int)
    requires
        module_laws(m),
        (m.valid)(a),
        is_scalar(s),
        is_scalar(t),
    ensures
        a.spec_scale(s).spec_scale(t) == a.spec_scale(t).spec_scale(s),
{
    law_scale_scale(m, a, s, t);
    law_scale_scale(m, a, t, s);
    assert(s * t == t * s) by (nonlinear_arith);
}

/// `(a + b) + (c + d) == (a + c) + (b + d)`.
pub proof fn lemma_add_shuffle<V: Recoverable>(m: Module<V>, a: V, b: V, c: V, d: V)
    requires
        module_laws(m),
        (m.valid)(a),
        (m.valid)(b),
        (m.valid)(c),
        (m.valid)(d),
    ensures
        (m.add)((m.add)(a, b), (m.add)(c, d)) == (m.add)((m.add)(a, c), (m.add)(b, d)),
{
    let cd = (m.add)(c, d);
    let bd = (m.add)(b, d);
    law_add_valid(m, c, d);
    law_add_valid(m, b, d);
    law_add_valid(m, b, c);
    law_add_valid(m, c, b);
    // (a + b) + (c + d) == a + (b + (c + d)) == a + ((b + c) + d)
    law_add_associates(m, a, b, cd);
    law_add_associates(m, b, c, d);
    // == a + ((c + b) + d) == a + (c + (b + d)) == (a + c) + (b + d)
    law_add_commutes(m, b, c);
    law_add_associates(m, c, b, d);
    law_add_associates(m, a, c, bd);
}

} // verus!
