//! Arithmetic modulo the BLS12-381 scalar-field modulus on four-limb values.
//!
//! Every function here takes and returns canonical values, that is limb
//! vectors whose value is below the modulus, unless it says otherwise.

use crate::bigint::{
    add4, halve4, is_even4, is_zero4, limbs_val, mac, mul_add_row, radix, radix4, sub4,
};
use vstd::arithmetic::div_mod::{
    lemma_add_mod_noop, lemma_add_mod_noop_right,
    lemma_fundamental_div_mod, lemma_fundamental_div_mod_converse, lemma_mod_multiples_vanish,
    lemma_mul_mod_noop_left, lemma_mul_mod_noop_right, lemma_small_mod,
};
use vstd::prelude::*;

verus! {

/// The order `r` of the BLS12-381 scalar field.
pub open spec fn modulus() -> int {
    0x73eda753299d7d483339d80809a1d80553bda402fffe5bfeffffffff00000001int
}

/// The inverse of 2^256 modulo `r`.
pub open spec fn radix_inverse() -> int {
    0x1bbe869330009d577204078a4f77266aab6fca8f09dc705f13f75b69fe75c040int
}

/// `(a + b) mod r`.
pub open spec fn fr_add(a: int, b: int) -> int {
    (a + b) % modulus()
}

/// `(a - b) mod r`.
pub open spec fn fr_sub(a: int, b: int) -> int {
    (a - b) % modulus()
}

/// `(-a) mod r`.
pub open spec fn fr_neg(a: int) -> int {
    (-a) % modulus()
}

/// `(a * b) mod r`.
pub open spec fn fr_mul(a: int, b: int) -> int {
    (a * b) % modulus()
}

/// Whether a limb vector is a canonical field value.
pub open spec fn canonical(l: [u64; 4]) -> bool {
    limbs_val(l) < modulus()
}

/// If `x = q * r + rem` with `0 <= rem < r`, then `x mod r` is `rem`.
pub proof fn lemma_mod_witness(x: int, q: int, rem: int)
    requires
        x == q * modulus() + rem,
        0 <= rem < modulus(),
    ensures
        x % modulus() == rem,
{
    lemma_fundamental_div_mod_converse(x, modulus(), q, rem);
}

/// The limbs of the modulus.
pub(crate) fn modulus_limbs() -> (res: [u64; 4])
    ensures
        limbs_val(res) == modulus(),
{
    [0xffff_ffff_0000_0001, 0x53bd_a402_fffe_5bfe, 0x3339_d808_09a1_d805, 0x73ed_a753_299d_7d48]
}

/// Subtracts the modulus once if the value reaches it.
pub(crate) fn reduce_once(a: &[u64; 4]) -> (res: [u64; 4])
    ensures
        limbs_val(res) == if limbs_val(*a) >= modulus() {
            limbs_val(*a) - modulus()
        } else {
            limbs_val(*a)
        },
{
    let m: [u64; 4] = modulus_limbs();
    let (d, borrow) = sub4(a, &m);
    if borrow == 1 {
        *a
    } else {
        d
    }
}

/// The canonical value of any four limbs: `a mod r`.
pub(crate) fn reduce(a: &[u64; 4]) -> (res: [u64; 4])
    ensures
        limbs_val(res) == limbs_val(*a) % modulus(),
{
    let once: [u64; 4] = reduce_once(a);
    let twice: [u64; 4] = reduce_once(&once);
    proof {
        // four limbs hold less than three times the modulus
        let q: int = if limbs_val(*a) >= 2 * modulus() {
            2
        } else if limbs_val(*a) >= modulus() {
            1
        } else {
            0
        };
        assert(limbs_val(*a) < 3 * modulus());
        assert(limbs_val(*a) == q * modulus() + limbs_val(twice));
        lemma_mod_witness(limbs_val(*a), q, limbs_val(twice));
    }
    twice
}

/// `(a + b) mod r` of canonical values.
pub(crate) fn add_mod(a: &[u64; 4], b: &[u64; 4]) -> (res: [u64; 4])
    requires
        canonical(*a),
        canonical(*b),
    ensures
        limbs_val(res) == fr_add(limbs_val(*a), limbs_val(*b)),
{
    let (s, carry) = add4(a, b);
    let res: [u64; 4] = reduce_once(&s);
    proof {
        let q: int = if limbs_val(s) >= modulus() {
            1
        } else {
            0
        };
        lemma_mod_witness(limbs_val(*a) + limbs_val(*b), q, limbs_val(res));
    }
    res
}

/// `(a - b) mod r` of canonical values.
pub(crate) fn sub_mod(a: &[u64; 4], b: &[u64; 4]) -> (res: [u64; 4])
    requires
        canonical(*a),
        canonical(*b),
    ensures
        limbs_val(res) == fr_sub(limbs_val(*a), limbs_val(*b)),
        limbs_val(res) == if limbs_val(*a) >= limbs_val(*b) {
            limbs_val(*a) - limbs_val(*b)
        } else {
            limbs_val(*a) - limbs_val(*b) + modulus()
        },
{
    let (d, borrow) = sub4(a, b);
    if borrow == 1 {
        let m: [u64; 4] = modulus_limbs();
        let (res, carry) = add4(&d, &m);
        proof {
            lemma_mod_witness(limbs_val(*a) - limbs_val(*b), -1, limbs_val(res));
        }
        res
    } else {
        proof {
            lemma_mod_witness(limbs_val(*a) - limbs_val(*b), 0, limbs_val(d));
        }
        d
    }
}

/// `(-a) mod r` of a canonical value.
pub(crate) fn neg_mod(a: &[u64; 4]) -> (res: [u64; 4])
    requires
        canonical(*a),
    ensures
        limbs_val(res) == fr_neg(limbs_val(*a)),
{
    let zero: [u64; 4] = [0, 0, 0, 0];
    sub_mod(&zero, a)
}

/// One round of word-by-word Montgomery multiplication: the new
/// accumulator is `(acc + x * b + m * r) / 2^64` for the one limb `m`
/// that makes the sum divisible by 2^64. The ghost result is `m`.
pub(crate) fn montgomery_round(acc: &[u64; 4], x: u64, b: &[u64; 4]) -> (res: ([u64; 4], Ghost<int>))
    requires
        limbs_val(*acc) < 2 * modulus(),
        canonical(*b),
    ensures
        limbs_val(res.0) < 2 * modulus(),
        limbs_val(res.0) * radix() == limbs_val(*acc) + (x as int) * limbs_val(*b) + res.1@
            * modulus(),
        0 <= res.1@ < radix(),
{
    let (u0, up) = mul_add_row(acc, x, b);
    let wide: u128 = (u0 as u128) * 0xffff_fffe_ffff_ffffu128;
    let m: u64 = (wide % 0x1_0000_0000_0000_0000u128) as u64;
    let ghost q: int = (wide / 0x1_0000_0000_0000_0000u128) as int;
    let (z, c0) = mac(u0, m, 0xffff_ffff_0000_0001, 0);
    proof {
        assert(u0 as int + (m as int) * 0xffff_ffff_0000_0001int == radix() * ((u0 as int)
            * 0xffff_fffe_0000_0001int - q * 0xffff_ffff_0000_0001int));
        assert(z == 0);
        assert((x as int) * limbs_val(*b) <= 0xffff_ffff_ffff_ffffint * modulus())
            by (nonlinear_arith)
            requires
                0 <= x as int <= 0xffff_ffff_ffff_ffffint,
                0 <= limbs_val(*b) < modulus(),
        ;
    }
    let (v0, c1) = mac(up[0], m, 0x53bd_a402_fffe_5bfe, c0);
    let (v1, c2) = mac(up[1], m, 0x3339_d808_09a1_d805, c1);
    let (v2, c3) = mac(up[2], m, 0x73ed_a753_299d_7d48, c2);
    assert(up[3] as int + c3 as int <= 0xffff_ffff_ffff_ffffint);
    let v3: u64 = up[3] + c3;
    ([v0, v1, v2, v3], Ghost(m as int))
}

/// If `res * 2^256 == p + k * r` and `res` is canonical, then `res` is
/// `p / 2^256` modulo `r`.
pub proof fn lemma_montgomery_quotient(p: int, res: int, k: int)
    requires
        res * radix4() == p + k * modulus(),
        0 <= res < modulus(),
    ensures
        res == (p * radix_inverse()) % modulus(),
{
    let j: int = 0x3d443ab0d7bf2839181b2c170004ec0653ba5bfffffe5bfdfffffffeffffffffint;
    assert(radix4() * radix_inverse() == 1 + j * modulus());
    let e: int = k * radix_inverse() - res * j;
    assert(p * radix_inverse() == (-e) * modulus() + res) by (nonlinear_arith)
        requires
            res * radix4() == p + k * modulus(),
            radix4() * radix_inverse() == 1 + j * modulus(),
            e == k * radix_inverse() - res * j,
    ;
    lemma_mod_witness(p * radix_inverse(), -e, res);
}

/// Four rounds that each divide by 2^64 divide by 2^256 together.
pub proof fn lemma_montgomery_rounds(
    a: [u64; 4],
    v: int,
    acc1: int,
    acc2: int,
    acc3: int,
    acc4: int,
    m1: int,
    m2: int,
    m3: int,
    m4: int,
)
    requires
        acc1 * radix() == (a[0] as int) * v + m1 * modulus(),
        acc2 * radix() == acc1 + (a[1] as int) * v + m2 * modulus(),
        acc3 * radix() == acc2 + (a[2] as int) * v + m3 * modulus(),
        acc4 * radix() == acc3 + (a[3] as int) * v + m4 * modulus(),
    ensures
        acc4 * radix4() == limbs_val(a) * v + (m1 + m2 * 0x1_0000_0000_0000_0000int + m3
            * 0x1_0000_0000_0000_0000_0000_0000_0000_0000int + m4
            * 0x1_0000_0000_0000_0000_0000_0000_0000_0000_0000_0000_0000_0000int) * modulus(),
{
    let a0: int = a[0] as int;
    let a1: int = a[1] as int;
    let a2: int = a[2] as int;
    let a3: int = a[3] as int;
    assert(limbs_val(a) * v == a0 * v + (a1 * v) * 0x1_0000_0000_0000_0000int + (a2 * v)
        * 0x1_0000_0000_0000_0000_0000_0000_0000_0000int + (a3 * v)
        * 0x1_0000_0000_0000_0000_0000_0000_0000_0000_0000_0000_0000_0000int)
        by (nonlinear_arith)
        requires
            limbs_val(a) == a0 + a1 * 0x1_0000_0000_0000_0000int + a2
                * 0x1_0000_0000_0000_0000_0000_0000_0000_0000int + a3
                * 0x1_0000_0000_0000_0000_0000_0000_0000_0000_0000_0000_0000_0000int,
    ;
}

/// Montgomery multiplication: the canonical value congruent to
/// `a * b / 2^256` modulo `r`. Only `b` has to be canonical.
pub(crate) fn montgomery_mul(a: &[u64; 4], b: &[u64; 4]) -> (res: [u64; 4])
    requires
        canonical(*b),
    ensures
        limbs_val(res) == (limbs_val(*a) * limbs_val(*b) * radix_inverse()) % modulus(),
{
    let zero: [u64; 4] = [0, 0, 0, 0];
    let (acc1, Ghost(m1)) = montgomery_round(&zero, a[0], b);
    let (acc2, Ghost(m2)) = montgomery_round(&acc1, a[1], b);
    let (acc3, Ghost(m3)) = montgomery_round(&acc2, a[2], b);
    let (acc4, Ghost(m4)) = montgomery_round(&acc3, a[3], b);
    let res: [u64; 4] = reduce_once(&acc4);
    proof {
        let v: int = limbs_val(*b);
        let big_m: int = m1 + m2 * 0x1_0000_0000_0000_0000int + m3
            * 0x1_0000_0000_0000_0000_0000_0000_0000_0000int + m4
            * 0x1_0000_0000_0000_0000_0000_0000_0000_0000_0000_0000_0000_0000int;
        lemma_montgomery_rounds(
            *a,
            v,
            limbs_val(acc1),
            limbs_val(acc2),
            limbs_val(acc3),
            limbs_val(acc4),
            m1,
            m2,
            m3,
            m4,
        );
        let k: int = if limbs_val(acc4) >= modulus() {
            big_m - radix4()
        } else {
            big_m
        };
        lemma_montgomery_quotient(limbs_val(*a) * v, limbs_val(res), k);
    }
    res
}

/// 2^512 modulo `r`, the factor that undoes two Montgomery divisions.
pub open spec fn radix_squared() -> int {
    0x748d9d99f59ff1105d314967254398f2b6cedcb87925c23c999e990f3f29c6dint
}

/// The limbs of `radix_squared()`.
pub(crate) fn radix_squared_limbs() -> (res: [u64; 4])
    ensures
        limbs_val(res) == radix_squared(),
        canonical(res),
{
    [0xc999_e990_f3f2_9c6d, 0x2b6c_edcb_8792_5c23, 0x05d3_1496_7254_398f, 0x0748_d9d9_9f59_ff11]
}

/// Dividing by 2^256 twice and multiplying by 2^512 gives the value back.
pub proof fn lemma_montgomery_undo(p: int, t: int, res: int)
    requires
        t == (p * radix_inverse()) % modulus(),
        res == (t * radix_squared() * radix_inverse()) % modulus(),
    ensures
        res == p % modulus(),
{
    let c: int = radix_squared() * radix_inverse();
    let j: int =
        0x305e44d6b378addef371b10fd28f55f8a8e488d14454cb99dfac155286b2c8cb25311775c096f8df2fd562971f886422c9d676e1767d9bf07169c68b26cfffint;
    assert(radix_inverse() * c == 1 + j * modulus());
    assert(t * radix_squared() * radix_inverse() == t * c) by (nonlinear_arith)
        requires
            c == radix_squared() * radix_inverse(),
    ;
    lemma_mul_mod_noop_left(p * radix_inverse(), c, modulus());
    assert((p * radix_inverse()) * c == p + (p * j) * modulus()) by (nonlinear_arith)
        requires
            radix_inverse() * c == 1 + j * modulus(),
    ;
    lemma_mod_multiples_vanish(p * j, p, modulus());
}

/// `(a * b) mod r` of canonical values.
pub(crate) fn mul_mod(a: &[u64; 4], b: &[u64; 4]) -> (res: [u64; 4])
    requires
        canonical(*a),
        canonical(*b),
    ensures
        limbs_val(res) == fr_mul(limbs_val(*a), limbs_val(*b)),
{
    let t: [u64; 4] = montgomery_mul(a, b);
    let rr: [u64; 4] = radix_squared_limbs();
    let res: [u64; 4] = montgomery_mul(&t, &rr);
    proof {
        lemma_montgomery_undo(limbs_val(*a) * limbs_val(*b), limbs_val(t), limbs_val(res));
    }
    res
}

/// Whether `a` has a multiplicative inverse modulo `r`.
pub open spec fn fr_invertible(a: int) -> bool {
    exists|y: int| 0 <= y < modulus() && #[trigger] fr_mul(a, y) == 1
}

/// The multiplicative inverse of `a` modulo `r`, and 0 where there is none.
pub open spec fn fr_inv(a: int) -> int {
    if fr_invertible(a) {
        choose|y: int| 0 <= y < modulus() && #[trigger] fr_mul(a, y) == 1
    } else {
        0
    }
}

/// A value has at most one inverse among the canonical values.
pub proof fn lemma_inverse_unique(a: int, y1: int, y2: int)
    requires
        0 <= y1 < modulus(),
        0 <= y2 < modulus(),
        fr_mul(a, y1) == 1,
        fr_mul(a, y2) == 1,
    ensures
        y1 == y2,
{
    // y1 == y1 * (a * y2) == (y1 * a) * y2 == y2, all modulo r
    lemma_mul_mod_noop_right(y1, a * y2, modulus());
    lemma_mul_mod_noop_left(a * y1, y2, modulus());
    assert(y1 * (a * y2) == (a * y1) * y2) by (nonlinear_arith);
    lemma_small_mod(y1 as nat, modulus() as nat);
    lemma_small_mod(y2 as nat, modulus() as nat);
}

/// A canonical `y` with `a * y == 1` modulo `r` is the inverse of `a`.
pub proof fn lemma_inverse_is(a: int, y: int)
    requires
        0 <= y < modulus(),
        fr_mul(a, y) == 1,
    ensures
        fr_invertible(a),
        fr_inv(a) == y,
{
    lemma_inverse_unique(a, y, fr_inv(a));
}

/// The inverse of an invertible value is canonical, and their product is 1.
pub proof fn lemma_inverse_cancels(a: int)
    requires
        fr_invertible(a),
    ensures
        0 <= fr_inv(a) < modulus(),
        fr_mul(a, fr_inv(a)) == 1,
{
}

/// A value that shares a divisor above 1 with `r` has no inverse.
pub proof fn lemma_common_divisor_not_invertible(a: int, g: int, be: int, de: int)
    requires
        g > 1,
        a == be * g,
        modulus() == de * g,
    ensures
        !fr_invertible(a),
{
    assert forall|y: int| 0 <= y < modulus() implies #[trigger] fr_mul(a, y) != 1 by {
        if fr_mul(a, y) == 1 {
            let q: int = (a * y) / modulus();
            lemma_fundamental_div_mod(a * y, modulus());
            assert(a * y == modulus() * q + 1);
            assert(g * (be * y - de * q) == 1) by (nonlinear_arith)
                requires
                    a * y == modulus() * q + 1,
                    a == be * g,
                    modulus() == de * g,
            ;
            assert(false) by (nonlinear_arith)
                requires
                    g > 1,
                    g * (be * y - de * q) == 1,
            ;
        }
    }
}

/// Half of a canonical value modulo `r`: the canonical `h` with
/// `2 * h == a` modulo `r`. The ghost result says whether `r` was added.
pub(crate) fn half_mod(a: &[u64; 4]) -> (res: ([u64; 4], Ghost<int>))
    requires
        canonical(*a),
    ensures
        canonical(res.0),
        res.1@ == 0 || res.1@ == 1,
        2 * limbs_val(res.0) == limbs_val(*a) + res.1@ * modulus(),
{
    if is_even4(a) {
        let h: [u64; 4] = halve4(a, 0);
        assert(2 * limbs_val(h) == limbs_val(*a));
        (h, Ghost(0))
    } else {
        let m: [u64; 4] = modulus_limbs();
        let (s, carry) = add4(a, &m);
        let h: [u64; 4] = halve4(&s, carry);
        proof {
            let t: int = limbs_val(*a) + modulus();
            assert(limbs_val(s) + (carry as int) * radix4() == t);
            assert(modulus() % 2 == 1);
            assert(t % 2 == 0);
            assert(limbs_val(h) == t / 2);
            assert(2 * limbs_val(h) == t);
        }
        (h, Ghost(1))
    }
}

/// Halving step of the inversion: from `a * x == u + c * r`, with `u`
/// and `x` halved modulo `r`, the same relation holds of the halves.
pub proof fn lemma_halving_step(a: int, x: int, xh: int, u: int, uh: int, c: int, e: int) -> (ch:
    int)
    requires
        a * x == u + c * modulus(),
        2 * xh == x + e * modulus(),
        2 * uh == u,
    ensures
        a * xh == uh + ch * modulus(),
{
    let k: int = c + e * a;
    let w: int = a * xh - uh;
    assert(2 * w == k * modulus()) by (nonlinear_arith)
        requires
            w == a * xh - uh,
            k == c + e * a,
            a * x == u + c * modulus(),
            2 * xh == x + e * modulus(),
            2 * uh == u,
    ;
    let h: int = 0x39f6d3a994cebea4199cec0404d0ec02a9ded2017fff2dff7fffffff80000000int;
    assert(modulus() == 2 * h + 1);
    assert(k * modulus() == 2 * (h * k) + k) by (nonlinear_arith)
        requires
            modulus() == 2 * h + 1,
    ;
    assert(k == 2 * (w - h * k));
    let ch: int = w - h * k;
    assert(ch * modulus() == w) by (nonlinear_arith)
        requires
            2 * w == k * modulus(),
            k == 2 * ch,
    ;
    ch
}

/// Subtraction step of the inversion.
pub proof fn lemma_subtract_step(
    a: int,
    x1: int,
    x2: int,
    xd: int,
    u: int,
    v: int,
    c1: int,
    c2: int,
    e: int,
    al: int,
    be: int,
    ga: int,
    de: int,
)
    requires
        a * x1 == u + c1 * modulus(),
        a * x2 == v + c2 * modulus(),
        xd == x1 - x2 + e * modulus(),
        a == al * u + be * v,
        modulus() == ga * u + de * v,
    ensures
        a * xd == (u - v) + (c1 - c2 + e * a) * modulus(),
        a == al * (u - v) + (be + al) * v,
        modulus() == ga * (u - v) + (de + ga) * v,
{
    assert(a * xd == (u - v) + (c1 - c2 + e * a) * modulus()) by (nonlinear_arith)
        requires
            a * x1 == u + c1 * modulus(),
            a * x2 == v + c2 * modulus(),
            xd == x1 - x2 + e * modulus(),
    ;
    assert(a == al * (u - v) + (be + al) * v) by (nonlinear_arith)
        requires
            a == al * u + be * v,
    ;
    assert(modulus() == ga * (u - v) + (de + ga) * v) by (nonlinear_arith)
        requires
            modulus() == ga * u + de * v,
    ;
}

/// The multiplicative inverse of a canonical value modulo `r`, by the
/// binary extended Euclidean algorithm; 0 where there is none.
pub(crate) fn inv_mod(a: &[u64; 4]) -> (res: [u64; 4])
    requires
        canonical(*a),
    ensures
        canonical(res),
        limbs_val(res) == fr_inv(limbs_val(*a)),
{
    let mut u: [u64; 4] = *a;
    let mut v: [u64; 4] = modulus_limbs();
    let mut x1: [u64; 4] = [1, 0, 0, 0];
    let mut x2: [u64; 4] = [0, 0, 0, 0];
    let ghost av: int = limbs_val(*a);
    let ghost mut c1: int = 0;
    let ghost mut c2: int = -1;
    let ghost mut al: int = 1;
    let ghost mut be: int = 0;
    let ghost mut ga: int = 0;
    let ghost mut de: int = 1;
    proof {
        assert(limbs_val(x1) == 1);
        assert(limbs_val(x2) == 0);
        assert(av * limbs_val(x1) == limbs_val(u) + c1 * modulus()) by (nonlinear_arith)
            requires
                limbs_val(x1) == 1,
                limbs_val(u) == av,
                c1 == 0,
        ;
        assert(av * limbs_val(x2) == limbs_val(v) + c2 * modulus()) by (nonlinear_arith)
            requires
                limbs_val(x2) == 0,
                limbs_val(v) == modulus(),
                c2 == -1,
        ;
        assert(av == al * limbs_val(u) + be * limbs_val(v)) by (nonlinear_arith)
            requires
                limbs_val(u) == av,
                al == 1,
                be == 0,
        ;
        assert(modulus() == ga * limbs_val(u) + de * limbs_val(v)) by (nonlinear_arith)
            requires
                limbs_val(v) == modulus(),
                ga == 0,
                de == 1,
        ;
    }
    while !is_zero4(&u)
        invariant
            av == limbs_val(*a),
            limbs_val(u) <= modulus(),
            1 <= limbs_val(v) <= modulus(),
            limbs_val(v) % 2 == 1,
            canonical(x1),
            canonical(x2),
            av * limbs_val(x1) == limbs_val(u) + c1 * modulus(),
            av * limbs_val(x2) == limbs_val(v) + c2 * modulus(),
            av == al * limbs_val(u) + be * limbs_val(v),
            modulus() == ga * limbs_val(u) + de * limbs_val(v),
        decreases limbs_val(u) + limbs_val(v),
    {
        if is_even4(&u) {
            let uh: [u64; 4] = halve4(&u, 0);
            let (xh, Ghost(e)) = half_mod(&x1);
            proof {
                c1 = lemma_halving_step(
                    av,
                    limbs_val(x1),
                    limbs_val(xh),
                    limbs_val(u),
                    limbs_val(uh),
                    c1,
                    e,
                );
                assert((2 * al) * limbs_val(uh) == al * limbs_val(u)) by (nonlinear_arith)
                    requires
                        2 * limbs_val(uh) == limbs_val(u),
                ;
                assert((2 * ga) * limbs_val(uh) == ga * limbs_val(u)) by (nonlinear_arith)
                    requires
                        2 * limbs_val(uh) == limbs_val(u),
                ;
                al = 2 * al;
                ga = 2 * ga;
            }
            u = uh;
            x1 = xh;
        } else {
            let (d, borrow) = sub4(&u, &v);
            if borrow == 0 {
                let xd: [u64; 4] = sub_mod(&x1, &x2);
                proof {
                    let e: int = if limbs_val(x1) >= limbs_val(x2) {
                        0
                    } else {
                        1
                    };
                    lemma_subtract_step(
                        av,
                        limbs_val(x1),
                        limbs_val(x2),
                        limbs_val(xd),
                        limbs_val(u),
                        limbs_val(v),
                        c1,
                        c2,
                        e,
                        al,
                        be,
                        ga,
                        de,
                    );
                    c1 = c1 - c2 + e * av;
                    be = be + al;
                    de = de + ga;
                }
                u = d;
                x1 = xd;
            } else {
                let (d2, borrow2) = sub4(&v, &u);
                let xd: [u64; 4] = sub_mod(&x2, &x1);
                proof {
                    let e: int = if limbs_val(x2) >= limbs_val(x1) {
                        0
                    } else {
                        1
                    };
                    lemma_subtract_step(
                        av,
                        limbs_val(x2),
                        limbs_val(x1),
                        limbs_val(xd),
                        limbs_val(v),
                        limbs_val(u),
                        c2,
                        c1,
                        e,
                        be,
                        al,
                        de,
                        ga,
                    );
                    let c1_old: int = c1;
                    let al_old: int = al;
                    let ga_old: int = ga;
                    c1 = c2 - c1 + e * av;
                    c2 = c1_old;
                    al = be;
                    be = al_old + be;
                    ga = de;
                    de = ga_old + de;
                }
                v = u;
                u = d2;
                x2 = x1;
                x1 = xd;
            }
        }
    }
    let one: [u64; 4] = [1, 0, 0, 0];
    let (gm1, borrow) = sub4(&v, &one);
    if is_zero4(&gm1) {
        proof {
            lemma_mod_witness(av * limbs_val(x2), c2, 1);
            lemma_inverse_is(av, limbs_val(x2));
        }
        x2
    } else {
        proof {
            lemma_common_divisor_not_invertible(av, limbs_val(v), be, de);
        }
        [0, 0, 0, 0]
    }
}

/// `a` to the power `n`, modulo `r`.
pub open spec fn fr_pow(a: int, n: nat) -> int
    decreases n,
{
    if n == 0 {
        1
    } else {
        fr_mul(a, fr_pow(a, (n - 1) as nat))
    }
}

/// A power modulo `r` is a canonical value.
pub proof fn lemma_fr_pow_range(a: int, n: nat)
    ensures
        0 <= fr_pow(a, n) < modulus(),
{
}

/// Multiplication modulo `r` is associative.
pub proof fn lemma_fr_mul_associative(x: int, y: int, z: int)
    ensures
        fr_mul(x, fr_mul(y, z)) == fr_mul(fr_mul(x, y), z),
{
    lemma_mul_mod_noop_right(x, y * z, modulus());
    lemma_mul_mod_noop_left(x * y, z, modulus());
    assert(x * (y * z) == (x * y) * z) by (nonlinear_arith);
}

/// Multiplication modulo `r` is commutative.
pub proof fn lemma_fr_mul_commutative(x: int, y: int)
    ensures
        fr_mul(x, y) == fr_mul(y, x),
{
    assert(x * y == y * x) by (nonlinear_arith);
}

/// Addition modulo `r` is associative and commutative.
pub proof fn lemma_fr_add_associative(x: int, y: int, z: int)
    ensures
        fr_add(x, fr_add(y, z)) == fr_add(fr_add(x, y), z),
        fr_add(x, y) == fr_add(y, x),
{
    lemma_add_mod_noop_right(x, y + z, modulus());
    lemma_add_mod_noop_right(z, x + y, modulus());
}

/// Multiplication modulo `r` distributes over addition.
pub proof fn lemma_fr_mul_distributes(x: int, y: int, z: int)
    ensures
        fr_mul(x, fr_add(y, z)) == fr_add(fr_mul(x, y), fr_mul(x, z)),
{
    lemma_mul_mod_noop_right(x, y + z, modulus());
    lemma_add_mod_noop(x * y, x * z, modulus());
    assert(x * (y + z) == x * y + x * z) by (nonlinear_arith);
}

/// Zero and one are the identities of canonical values, and the negative
/// and the difference are what the sum undoes.
pub proof fn lemma_fr_identities(x: int, y: int)
    requires
        0 <= x < modulus(),
    ensures
        fr_add(x, 0) == x,
        fr_mul(x, 1) == x,
        fr_mul(x, 0) == 0,
        fr_add(x, fr_neg(x)) == 0,
        fr_add(fr_sub(x, y), y) == x,
{
    lemma_small_mod(x as nat, modulus() as nat);
    assert(x * 1 == x);
    assert(x * 0 == 0);
    lemma_add_mod_noop_right(x, -x, modulus());
    lemma_add_mod_noop_right(y, x - y, modulus());
}

/// An even power is a power of the square.
pub proof fn lemma_fr_pow_of_square(a: int, k: nat)
    ensures
        fr_pow(a, 2 * k) == fr_pow(fr_mul(a, a), k),
    decreases k,
{
    if k > 0 {
        lemma_fr_pow_of_square(a, (k - 1) as nat);
        let z: int = fr_pow(a, (2 * k - 2) as nat);
        assert(fr_pow(a, (2 * k - 1) as nat) == fr_mul(a, z));
        assert(fr_pow(a, 2 * k) == fr_mul(a, fr_mul(a, z)));
        lemma_fr_mul_associative(a, a, z);
    }
}

/// `a` to the power `n` modulo `r`, by squaring and multiplying from the
/// lowest bit of `n` upwards.
pub(crate) fn pow_mod(a: &[u64; 4], n: usize) -> (res: [u64; 4])
    requires
        canonical(*a),
    ensures
        canonical(res),
        limbs_val(res) == fr_pow(limbs_val(*a), n as nat),
{
    let mut out: [u64; 4] = [1, 0, 0, 0];
    let mut temp: [u64; 4] = *a;
    let mut k: usize = n;
    proof {
        let p: int = fr_pow(limbs_val(*a), n as nat);
        lemma_fr_pow_range(limbs_val(*a), n as nat);
        lemma_small_mod(p as nat, modulus() as nat);
        assert(limbs_val(out) == 1);
        assert(limbs_val(out) * p == p) by (nonlinear_arith)
            requires
                limbs_val(out) == 1,
        ;
    }
    while k > 0
        invariant
            canonical(out),
            canonical(temp),
            fr_mul(limbs_val(out), fr_pow(limbs_val(temp), k as nat)) == fr_pow(
                limbs_val(*a),
                n as nat,
            ),
        decreases k,
    {
        let ghost t: int = limbs_val(temp);
        let ghost o: int = limbs_val(out);
        let ghost k0: nat = k as nat;
        if k % 2 == 1 {
            proof {
                lemma_fr_mul_associative(o, t, fr_pow(t, (k0 - 1) as nat));
            }
            out = mul_mod(&out, &temp);
        }
        k = k / 2;
        proof {
            lemma_fr_pow_of_square(t, k as nat);
        }
        if k > 0 {
            temp = mul_mod(&temp, &temp);
        }
    }
    proof {
        lemma_small_mod(limbs_val(out) as nat, modulus() as nat);
    }
    out
}

} // verus!
