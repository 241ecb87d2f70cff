//! Elements of the BLS12-381 scalar field.

use crate::bigint::{
    eq4, le_bytes_val, limbs_from_le_bytes, limbs_to_le_bytes, limbs_val, lemma_limbs_val_injective,
    radix4, sub4,
};
use crate::scalar_field::{
    add_mod, canonical, fr_add, fr_inv, fr_invertible, fr_mul, fr_neg, fr_pow, fr_sub, inv_mod,
    lemma_inverse_cancels, modulus, modulus_limbs, mul_mod, neg_mod, pow_mod, reduce, sub_mod,
};
use crate::recovery::Recoverable;
use vstd::arithmetic::div_mod::lemma_small_mod;
use vstd::prelude::*;

verus! {

/// The error code of `FsFr::from_scalar` for bytes that encode a value
/// at or above the modulus.
pub const INVALID_ENCODING: u8 = 1;

/// An element of the scalar field: an integer modulo `r`, kept as the
/// four little-endian limbs of its canonical value.
#[derive(Debug, Clone, Copy)]
pub struct FsFr {
    limbs: [u64; 4],
}

impl View for FsFr {
    type V = int;

    /// The canonical value, from 0 to `r - 1`.
    closed spec fn view(&self) -> int {
        limbs_val(self.limbs)
    }
}

/// One limb from a source of randomness.
///
/// Calls `rand::random::<u64>()`. Nothing is claimed of the value.
#[verifier::external_body]
fn random_limb() -> u64 {
    rand::random()
}

impl FsFr {
    /// The limbs hold a value below the modulus.
    #[verifier::type_invariant]
    pub closed spec fn is_canonical(&self) -> bool {
        canonical(self.limbs)
    }

    /// A canonical element's value lies in the field's range.
    pub proof fn lemma_range(self)
        requires
            self.is_canonical(),
        ensures
            0 <= self@ < modulus(),
    {
    }

    /// Elements with the same value are the same element.
    pub proof fn lemma_view_injective(self, other: Self)
        requires
            self@ == other@,
        ensures
            self == other,
    {
        lemma_limbs_val_injective(self.limbs, other.limbs);
    }

    /// The reserved null value: the element that all-ones limbs reduce to.
    pub open spec fn null_value() -> int {
        (radix4() - 1) % modulus()
    }

    /// The reserved null element. It differs from zero.
    pub fn null() -> (res: Self)
        ensures
            res@ == Self::null_value(),
            res@ != 0,
    {
        Self::from_u64_arr(
            &[
                0xffff_ffff_ffff_ffff,
                0xffff_ffff_ffff_ffff,
                0xffff_ffff_ffff_ffff,
                0xffff_ffff_ffff_ffff,
            ],
        )
    }

    /// The additive identity.
    pub fn zero() -> (res: Self)
        ensures
            res@ == 0,
    {
        Self::from_u64(0)
    }

    /// The multiplicative identity.
    pub fn one() -> (res: Self)
        ensures
            res@ == 1,
    {
        Self::from_u64(1)
    }

    /// An element from four random limbs, reduced modulo `r`.
    pub fn rand() -> (res: Self)
        ensures
            0 <= res@ < modulus(),
    {
        let val: [u64; 4] = [random_limb(), random_limb(), random_limb(), random_limb()];
        Self::from_u64_arr(&val)
    }

    /// The element that four little-endian limbs stand for, reduced
    /// modulo `r`.
    pub fn from_u64_arr(u: &[u64; 4]) -> (res: Self)
        ensures
            res@ == limbs_val(*u) % modulus(),
    {
        FsFr { limbs: reduce(u) }
    }

    /// The element with the value `val`.
    pub fn from_u64(val: u64) -> (res: Self)
        ensures
            res@ == val as int,
    {
        let res: FsFr = Self::from_u64_arr(&[val, 0, 0, 0]);
        proof {
            lemma_small_mod(val as nat, modulus() as nat);
        }
        res
    }

    /// The four little-endian limbs of the canonical value.
    pub fn to_u64_arr(&self) -> (res: [u64; 4])
        ensures
            limbs_val(res) == self@,
            0 <= self@ < modulus(),
    {
        proof {
            use_type_invariant(self);
        }
        self.limbs
    }

    /// Whether this is the multiplicative identity.
    pub fn is_one(&self) -> (res: bool)
        ensures
            res == (self@ == 1),
    {
        let val: [u64; 4] = self.to_u64_arr();
        val[0] == 1 && val[1] == 0 && val[2] == 0 && val[3] == 0
    }

    /// Whether this is the additive identity.
    pub fn is_zero(&self) -> (res: bool)
        ensures
            res == (self@ == 0),
    {
        let val: [u64; 4] = self.to_u64_arr();
        val[0] == 0 && val[1] == 0 && val[2] == 0 && val[3] == 0
    }

    /// Whether this is the reserved null element.
    pub fn is_null(&self) -> (res: bool)
        ensures
            res == (self@ == Self::null_value()),
    {
        self.equals(&Self::null())
    }

    /// The square.
    pub fn sqr(&self) -> (res: Self)
        ensures
            res@ == fr_mul(self@, self@),
    {
        self.mul(self)
    }

    /// The product.
    pub fn mul(&self, b: &Self) -> (res: Self)
        ensures
            res@ == fr_mul(self@, b@),
    {
        proof {
            use_type_invariant(self);
            use_type_invariant(b);
        }
        FsFr { limbs: mul_mod(&self.limbs, &b.limbs) }
    }

    /// The sum.
    pub fn add(&self, b: &Self) -> (res: Self)
        ensures
            res@ == fr_add(self@, b@),
    {
        proof {
            use_type_invariant(self);
            use_type_invariant(b);
        }
        FsFr { limbs: add_mod(&self.limbs, &b.limbs) }
    }

    /// The difference.
    pub fn sub(&self, b: &Self) -> (res: Self)
        ensures
            res@ == fr_sub(self@, b@),
    {
        proof {
            use_type_invariant(self);
            use_type_invariant(b);
        }
        FsFr { limbs: sub_mod(&self.limbs, &b.limbs) }
    }

    /// The multiplicative inverse by the Euclidean algorithm, and zero
    /// for an element that has none.
    pub fn eucl_inverse(&self) -> (res: Self)
        ensures
            res@ == fr_inv(self@),
            fr_invertible(self@) ==> fr_mul(self@, res@) == 1,
            !fr_invertible(self@) ==> res@ == 0,
    {
        proof {
            use_type_invariant(self);
            if fr_invertible(self@) {
                lemma_inverse_cancels(self@);
            }
        }
        FsFr { limbs: inv_mod(&self.limbs) }
    }

    /// The additive inverse.
    pub fn negate(&self) -> (res: Self)
        ensures
            res@ == fr_neg(self@),
    {
        proof {
            use_type_invariant(self);
        }
        FsFr { limbs: neg_mod(&self.limbs) }
    }

    /// The multiplicative inverse, and zero for an element that has none.
    pub fn inverse(&self) -> (res: Self)
        ensures
            res@ == fr_inv(self@),
            fr_invertible(self@) ==> fr_mul(self@, res@) == 1,
            !fr_invertible(self@) ==> res@ == 0,
    {
        self.eucl_inverse()
    }

    /// This element to the power `n`.
    pub fn pow(&self, n: usize) -> (res: Self)
        ensures
            res@ == fr_pow(self@, n as nat),
    {
        proof {
            use_type_invariant(self);
        }
        FsFr { limbs: pow_mod(&self.limbs, n) }
    }

    /// The quotient: this element times the inverse of `b`. Always `Ok`.
    pub fn div(&self, b: &Self) -> (res: Result<Self, String>)
        ensures
            res is Ok,
            res->Ok_0@ == fr_mul(self@, fr_inv(b@)),
    {
        let tmp: FsFr = b.eucl_inverse();
        let out: FsFr = self.mul(&tmp);
        Ok(out)
    }

    /// Whether two elements have the same value.
    pub fn equals(&self, b: &Self) -> (res: bool)
        ensures
            res == (self@ == b@),
            res == (*self == *b),
    {
        eq4(&self.limbs, &b.limbs)
    }

    /// The 32 little-endian bytes of the canonical value.
    pub fn to_scalar(&self) -> (res: [u8; 32])
        ensures
            le_bytes_val(res@) == self@,
    {
        limbs_to_le_bytes(&self.limbs)
    }

    /// The element that 32 little-endian bytes encode, and
    /// `Err(INVALID_ENCODING)` where they encode a value that is not
    /// below the modulus.
    pub fn from_scalar(scalar: [u8; 32]) -> (res: Result<Self, u8>)
        ensures
            le_bytes_val(scalar@) < modulus() ==> res is Ok && res->Ok_0@ == le_bytes_val(scalar@),
            le_bytes_val(scalar@) >= modulus() ==> res == Err::<Self, u8>(INVALID_ENCODING),
    {
        let limbs: [u64; 4] = limbs_from_le_bytes(&scalar);
        let m: [u64; 4] = modulus_limbs();
        let (d, borrow) = sub4(&limbs, &m);
        if borrow == 0 {
            return Err(INVALID_ENCODING);
        }
        Ok(FsFr { limbs })
    }

    /// The element that 32 little-endian bytes stand for, reduced
    /// modulo `r`.
    pub fn hash_to_bls_field(scalar: [u8; 32]) -> (res: Self)
        ensures
            res@ == le_bytes_val(scalar@) % modulus(),
    {
        let limbs: [u64; 4] = limbs_from_le_bytes(&scalar);
        Self::from_u64_arr(&limbs)
    }
}

/// The limbs of a value from 0 to 2^256 - 1.
pub open spec fn limbs_of(v: int) -> [u64; 4] {
    [
        (v % 0x1_0000_0000_0000_0000int) as u64,
        ((v / 0x1_0000_0000_0000_0000int) % 0x1_0000_0000_0000_0000int) as u64,
        ((v / 0x1_0000_0000_0000_0000_0000_0000_0000_0000int) % 0x1_0000_0000_0000_0000int) as u64,
        ((v / 0x1_0000_0000_0000_0000_0000_0000_0000_0000_0000_0000_0000_0000int)
            % 0x1_0000_0000_0000_0000int) as u64,
    ]
}

/// `limbs_of` gives limbs with the value asked for.
pub proof fn lemma_limbs_of(v: int)
    requires
        0 <= v < radix4(),
    ensures
        limbs_val(limbs_of(v)) == v,
{
}

impl FsFr {
    /// The element with the value `v mod r`.
    pub closed spec fn from_int(v: int) -> FsFr {
        FsFr { limbs: limbs_of(v % modulus()) }
    }

    /// `from_int` gives the canonical element with the value asked for.
    pub proof fn lemma_from_int(v: int)
        ensures
            Self::from_int(v)@ == v % modulus(),
            Self::from_int(v).is_canonical(),
    {
        lemma_limbs_of(v % modulus());
    }

    /// A canonical element is `from_int` of its value.
    pub proof fn lemma_from_int_of_view(self)
        requires
            self.is_canonical(),
        ensures
            Self::from_int(self@) == self,
    {
        Self::lemma_from_int(self@);
        lemma_small_mod(self@ as nat, modulus() as nat);
        Self::from_int(self@).lemma_view_injective(self);
    }
}

impl Recoverable for FsFr {
    open spec fn spec_neutral() -> Self {
        FsFr::from_int(0)
    }

    open spec fn spec_scale(self, s: int) -> Self {
        FsFr::from_int(self@ * s)
    }

    fn neutral() -> (res: Self) {
        let res: FsFr = FsFr::zero();
        proof {
            FsFr::lemma_from_int(0);
            res.lemma_view_injective(FsFr::from_int(0));
        }
        res
    }

    fn scale(&self, s: &FsFr) -> (res: Self) {
        let res: FsFr = self.mul(s);
        proof {
            FsFr::lemma_from_int(self@ * s@);
            res.lemma_view_injective(FsFr::from_int(self@ * s@));
        }
        res
    }

    fn is_same(&self, other: &Self) -> (res: bool) {
        self.equals(other)
    }
}

impl Default for FsFr {
    /// The additive identity.
    fn default() -> (res: Self)
        ensures
            res@ == 0,
    {
        FsFr { limbs: [0, 0, 0, 0] }
    }
}

} // verus!
