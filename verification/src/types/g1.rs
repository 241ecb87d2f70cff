//! Points of the BLS12-381 group G1, in affine coordinates.

use crate::bigint::{le_bytes_val, le_limb, radix4, sbb};
use crate::recovery::Recoverable;
use crate::types::fr::FsFr;
use blst::{blst_fp, blst_p1, blst_p1_affine, p1_affines, MultiPoint};
use vstd::prelude::*;

verus! {

/// The projective coordinates of a scalar multiple of an affine point,
/// as `blst` computes them: six limbs each. The scalar is given by its
/// value, and by the number of bits it is read at.
pub uninterp spec fn p1_mult_result(x: Seq<u64>, y: Seq<u64>, scalar: int, nbits: int) -> (
    Seq<u64>,
    Seq<u64>,
    Seq<u64>,
);

/// The affine coordinates of a point in projective coordinates, as `blst`
/// computes them: six limbs each, and all zero for the point at infinity.
pub uninterp spec fn p1_to_affine_result(x: Seq<u64>, y: Seq<u64>, z: Seq<u64>) -> (
    Seq<u64>,
    Seq<u64>,
);

/// The integer that 33 little-endian bytes stand for.
pub open spec fn wide_scalar_val(b: Seq<u8>) -> int {
    le_bytes_val(b) + (b[32] as int) * radix4()
}

/// The modulus `p` of the base field.
pub open spec fn fp_modulus() -> int {
    0x1a0111ea397fe69a4b1ba7b6434bacd764774b84f38512bf6730d2a0f6b0f6241eabfffeb153ffffb9feffffffffaaabint
}

/// The integer that the six little-endian limbs of a coordinate stand for.
pub open spec fn coordinate_val(l: Seq<u64>) -> int {
    l[0] as int + (l[1] as int) * 0x1_0000_0000_0000_0000int + (l[2] as int)
        * 0x1_0000_0000_0000_0000_0000_0000_0000_0000int + (l[3] as int)
        * 0x1_0000_0000_0000_0000_0000_0000_0000_0000_0000_0000_0000_0000int + (l[4] as int)
        * 0x1_0000_0000_0000_0000_0000_0000_0000_0000_0000_0000_0000_0000_0000_0000_0000_0000int
        + (l[5] as int)
        * 0x1_0000_0000_0000_0000_0000_0000_0000_0000_0000_0000_0000_0000_0000_0000_0000_0000_0000_0000_0000_0000int
}

/// Whether a coordinate's limbs stand for a value below `p`.
pub fn coordinate_reduced(l: &[u64; 6]) -> (res: bool)
    ensures
        res == (coordinate_val(l@) < fp_modulus()),
{
    let (d0, b0) = sbb(l[0], 0xb9fe_ffff_ffff_aaab, 0);
    let (d1, b1) = sbb(l[1], 0x1eab_fffe_b153_ffff, b0);
    let (d2, b2) = sbb(l[2], 0x6730_d2a0_f6b0_f624, b1);
    let (d3, b3) = sbb(l[3], 0x6477_4b84_f385_12bf, b2);
    let (d4, b4) = sbb(l[4], 0x4b1b_a7b6_434b_acd7, b3);
    let (d5, b5) = sbb(l[5], 0x1a01_11ea_397f_e69a, b4);
    proof {
        let dv: int = d0 as int + (d1 as int) * 0x1_0000_0000_0000_0000int + (d2 as int)
            * 0x1_0000_0000_0000_0000_0000_0000_0000_0000int + (d3 as int)
            * 0x1_0000_0000_0000_0000_0000_0000_0000_0000_0000_0000_0000_0000int + (d4 as int)
            * 0x1_0000_0000_0000_0000_0000_0000_0000_0000_0000_0000_0000_0000_0000_0000_0000_0000int
            + (d5 as int)
            * 0x1_0000_0000_0000_0000_0000_0000_0000_0000_0000_0000_0000_0000_0000_0000_0000_0000_0000_0000_0000_0000int;
        assert(dv - (b5 as int)
            * 0x1_0000_0000_0000_0000_0000_0000_0000_0000_0000_0000_0000_0000_0000_0000_0000_0000_0000_0000_0000_0000_0000_0000_0000_0000int
            == coordinate_val(l@) - fp_modulus());
    }
    b5 == 1
}

/// Scalar multiplication of one affine point.
///
/// Calls `blst`'s `MultiPoint::mult` on a slice of one `blst_p1_affine`.
/// For a single point `blst` runs its plain windowed multiplication,
/// without threads always and with them for more than 256 bits, and on
/// coordinates below `p` its field arithmetic is exact. The coordinates
/// that come back so depend on the arguments alone: the contract gives
/// them a name and says no more. `mult` panics on a scalar shorter than
/// `(nbits + 7) / 8` bytes; 33 bytes meet that for up to 264 bits.
#[verifier::external_body]
fn p1_mult(x: &[u64; 6], y: &[u64; 6], scalar: &[u8; 33], nbits: usize) -> (res: (
    [u64; 6],
    [u64; 6],
    [u64; 6],
))
    requires
        256 < nbits <= 264,
        coordinate_val(x@) < fp_modulus(),
        coordinate_val(y@) < fp_modulus(),
    ensures
        (res.0@, res.1@, res.2@) == p1_mult_result(
            x@,
            y@,
            wide_scalar_val(scalar@),
            nbits as int,
        ),
{
    let point = blst_p1_affine { x: blst_fp { l: *x }, y: blst_fp { l: *y } };
    let product: blst_p1 = MultiPoint::mult(&[point][..], scalar, nbits);
    (product.x.l, product.y.l, product.z.l)
}

/// The affine coordinates of a point in projective coordinates.
///
/// Calls `blst`'s `p1_affines::from` on a slice of one `blst_p1` and
/// reads the one point that comes back. On coordinates below `p` the
/// conversion is exact field arithmetic, so that its result depends on
/// the arguments alone: the contract gives it a name and says no more.
#[verifier::external_body]
fn p1_to_affine(x: &[u64; 6], y: &[u64; 6], z: &[u64; 6]) -> (res: ([u64; 6], [u64; 6]))
    requires
        coordinate_val(x@) < fp_modulus(),
        coordinate_val(y@) < fp_modulus(),
        coordinate_val(z@) < fp_modulus(),
    ensures
        (res.0@, res.1@) == p1_to_affine_result(x@, y@, z@),
{
    let point = blst_p1 { x: blst_fp { l: *x }, y: blst_fp { l: *y }, z: blst_fp { l: *z } };
    let affine = p1_affines::from(&[point]);
    (affine[0].x.l, affine[0].y.l)
}

/// The number of scalar bits handed to the group multiplication.
pub const SCALAR_BITS: usize = 264;

/// A point of G1 in affine coordinates. Each coordinate is the six
/// little-endian limbs of a base-field element in the form `blst` keeps
/// them in, a value below `p`; the point at infinity, the group's
/// identity, is all zero.
#[derive(Debug, Clone, Copy)]
pub struct FsG1 {
    pub x: [u64; 6],
    pub y: [u64; 6],
}

/// The scalar bytes of a field element, widened by a zero byte.
pub fn scalar_bytes(s: &FsFr) -> (res: [u8; 33])
    ensures
        wide_scalar_val(res@) == s@,
{
    let b: [u8; 32] = s.to_scalar();
    let res: [u8; 33] = [
        b[0],
        b[1],
        b[2],
        b[3],
        b[4],
        b[5],
        b[6],
        b[7],
        b[8],
        b[9],
        b[10],
        b[11],
        b[12],
        b[13],
        b[14],
        b[15],
        b[16],
        b[17],
        b[18],
        b[19],
        b[20],
        b[21],
        b[22],
        b[23],
        b[24],
        b[25],
        b[26],
        b[27],
        b[28],
        b[29],
        b[30],
        b[31],
        0,
    ];
    proof {
        assert(le_limb(res@, 0) == le_limb(b@, 0));
        assert(le_limb(res@, 8) == le_limb(b@, 8));
        assert(le_limb(res@, 16) == le_limb(b@, 16));
        assert(le_limb(res@, 24) == le_limb(b@, 24));
    }
    res
}

impl FsG1 {
    /// The identity's coordinates.
    pub open spec fn spec_identity() -> FsG1 {
        FsG1 { x: [0u64, 0u64, 0u64, 0u64, 0u64, 0u64], y: [0u64, 0u64, 0u64, 0u64, 0u64, 0u64] }
    }

    /// Whether both coordinates are below `p`.
    pub open spec fn reduced(self) -> bool {
        coordinate_val(self.x@) < fp_modulus() && coordinate_val(self.y@) < fp_modulus()
    }

    /// What `mul` returns for a scalar with the canonical value `s`: the
    /// affine form of the product, and the identity where the point's
    /// coordinates, or the product's, are not below `p`.
    pub open spec fn spec_mul(self, s: int) -> FsG1 {
        let product = p1_mult_result(self.x@, self.y@, s, SCALAR_BITS as int);
        if self.reduced() && coordinate_val(product.0) < fp_modulus() && coordinate_val(product.1)
            < fp_modulus() && coordinate_val(product.2) < fp_modulus() {
            let affine = p1_to_affine_result(product.0, product.1, product.2);
            FsG1 { x: seq_to_limbs(affine.0), y: seq_to_limbs(affine.1) }
        } else {
            Self::spec_identity()
        }
    }

    /// The group's identity, the point at infinity.
    pub fn identity() -> (res: Self)
        ensures
            res == Self::spec_identity(),
    {
        FsG1 { x: [0, 0, 0, 0, 0, 0], y: [0, 0, 0, 0, 0, 0] }
    }

    /// Whether this is the point at infinity.
    pub fn is_identity(&self) -> (res: bool)
        ensures
            res == (*self == Self::spec_identity()),
    {
        self.equals(&Self::identity())
    }

    /// The scalar multiple `s * self`. Coordinates that are not below
    /// `p` stand for no point: their multiples are the identity.
    pub fn mul(&self, s: &FsFr) -> (res: Self)
        ensures
            res == self.spec_mul(s@),
    {
        if !(coordinate_reduced(&self.x) && coordinate_reduced(&self.y)) {
            return Self::identity();
        }
        let bytes: [u8; 33] = scalar_bytes(s);
        let (px, py, pz) = p1_mult(&self.x, &self.y, &bytes, SCALAR_BITS);
        if !(coordinate_reduced(&px) && coordinate_reduced(&py) && coordinate_reduced(&pz)) {
            return Self::identity();
        }
        let (x, y) = p1_to_affine(&px, &py, &pz);
        let res: FsG1 = FsG1 { x, y };
        proof {
            assert(res.x =~= self.spec_mul(s@).x);
            assert(res.y =~= self.spec_mul(s@).y);
        }
        res
    }

    /// Whether two points have the same coordinates.
    pub fn equals(&self, b: &Self) -> (res: bool)
        ensures
            res == (*self == *b),
    {
        let same: bool = limbs_equal(&self.x, &b.x) && limbs_equal(&self.y, &b.y);
        same
    }
}

impl Recoverable for FsG1 {
    open spec fn spec_neutral() -> Self {
        FsG1::spec_identity()
    }

    open spec fn spec_scale(self, s: int) -> Self {
        self.spec_mul(s)
    }

    fn neutral() -> (res: Self) {
        FsG1::identity()
    }

    fn scale(&self, s: &FsFr) -> (res: Self) {
        self.mul(s)
    }

    fn is_same(&self, other: &Self) -> (res: bool) {
        self.equals(other)
    }
}

/// The six-limb array that holds the given sequence.
pub open spec fn seq_to_limbs(s: Seq<u64>) -> [u64; 6] {
    choose|a: [u64; 6]| a@ == s
}

/// Whether two coordinates have the same limbs.
pub fn limbs_equal(a: &[u64; 6], b: &[u64; 6]) -> (res: bool)
    ensures
        res == (*a == *b),
{
    let same: bool = a[0] == b[0] && a[1] == b[1] && a[2] == b[2] && a[3] == b[3] && a[4] == b[4]
        && a[5] == b[5];
    proof {
        if same {
            assert(*a =~= *b);
        }
    }
    same
}

} // verus!
