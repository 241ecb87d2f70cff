//! Fixed-width 256-bit unsigned arithmetic on four 64-bit limbs, least
//! significant limb first.

use vstd::prelude::*;

verus! {

/// 2^64, the limb radix.
pub open spec fn radix() -> int {
    0x1_0000_0000_0000_0000int
}

/// 2^256, one more than the largest value four limbs can hold.
pub open spec fn radix4() -> int {
    0x1_0000_0000_0000_0000_0000_0000_0000_0000_0000_0000_0000_0000_0000_0000_0000_0000int
}

/// The integer that four little-endian limbs stand for.
pub open spec fn limbs_val(l: [u64; 4]) -> int {
    l[0] as int + (l[1] as int) * 0x1_0000_0000_0000_0000int + (l[2] as int)
        * 0x1_0000_0000_0000_0000_0000_0000_0000_0000int + (l[3] as int)
        * 0x1_0000_0000_0000_0000_0000_0000_0000_0000_0000_0000_0000_0000int
}

/// Two limb vectors with the same value are the same vector.
pub proof fn lemma_limbs_val_injective(a: [u64; 4], b: [u64; 4])
    requires
        limbs_val(a) == limbs_val(b),
    ensures
        a == b,
{
    assert(a[0] == b[0] && a[1] == b[1] && a[2] == b[2] && a[3] == b[3]);
    assert(a@ =~= b@);
}

/// Add with carry: `a + b + carry_in` as a low limb and a carry bit.
pub(crate) fn adc(a: u64, b: u64, carry_in: u64) -> (res: (u64, u64))
    requires
        carry_in <= 1,
    ensures
        res.0 as int + (res.1 as int) * radix() == a as int + b as int + carry_in as int,
        res.1 <= 1,
{
    let t: u128 = a as u128 + b as u128 + carry_in as u128;
    ((t % 0x1_0000_0000_0000_0000u128) as u64, (t / 0x1_0000_0000_0000_0000u128) as u64)
}

/// Subtract with borrow: `a - b - borrow_in` as a low limb and a borrow bit.
pub(crate) fn sbb(a: u64, b: u64, borrow_in: u64) -> (res: (u64, u64))
    requires
        borrow_in <= 1,
    ensures
        res.0 as int - (res.1 as int) * radix() == a as int - b as int - borrow_in as int,
        res.1 <= 1,
{
    let t: u128 = (a as u128 + 0x1_0000_0000_0000_0000u128) - b as u128 - borrow_in as u128;
    ((t % 0x1_0000_0000_0000_0000u128) as u64, 1 - (t / 0x1_0000_0000_0000_0000u128) as u64)
}

/// Multiply-accumulate: `acc + x * y + carry_in` as a low and a high limb.
pub(crate) fn mac(acc: u64, x: u64, y: u64, carry_in: u64) -> (res: (u64, u64))
    ensures
        res.0 as int + (res.1 as int) * radix() == acc as int + (x as int) * (y as int)
            + carry_in as int,
{
    assert((x as int) * (y as int) <= 0xffff_ffff_ffff_ffffint * 0xffff_ffff_ffff_ffffint)
        by (nonlinear_arith)
        requires
            0 <= x as int <= 0xffff_ffff_ffff_ffffint,
            0 <= y as int <= 0xffff_ffff_ffff_ffffint,
    ;
    assert(0 <= (x as int) * (y as int)) by (nonlinear_arith)
        requires
            0 <= x as int,
            0 <= y as int,
    ;
    let t: u128 = acc as u128 + (x as u128) * (y as u128) + carry_in as u128;
    ((t % 0x1_0000_0000_0000_0000u128) as u64, (t / 0x1_0000_0000_0000_0000u128) as u64)
}

/// `a + b` on four limbs, with the carry out of the top limb.
pub(crate) fn add4(a: &[u64; 4], b: &[u64; 4]) -> (res: ([u64; 4], u64))
    ensures
        limbs_val(res.0) + (res.1 as int) * radix4() == limbs_val(*a) + limbs_val(*b),
        res.1 <= 1,
{
    let (s0, c0) = adc(a[0], b[0], 0);
    let (s1, c1) = adc(a[1], b[1], c0);
    let (s2, c2) = adc(a[2], b[2], c1);
    let (s3, c3) = adc(a[3], b[3], c2);
    ([s0, s1, s2, s3], c3)
}

/// `a - b` on four limbs, with the borrow out of the top limb.
pub(crate) fn sub4(a: &[u64; 4], b: &[u64; 4]) -> (res: ([u64; 4], u64))
    ensures
        limbs_val(res.0) - (res.1 as int) * radix4() == limbs_val(*a) - limbs_val(*b),
        res.1 <= 1,
        res.1 == 1 <==> limbs_val(*a) < limbs_val(*b),
{
    let (d0, b0) = sbb(a[0], b[0], 0);
    let (d1, b1) = sbb(a[1], b[1], b0);
    let (d2, b2) = sbb(a[2], b[2], b1);
    let (d3, b3) = sbb(a[3], b[3], b2);
    ([d0, d1, d2, d3], b3)
}

/// A limb times a four-limb value, limb by limb.
pub proof fn lemma_scale_expansion(x: int, b0: int, b1: int, b2: int, b3: int)
    ensures
        x * (b0 + b1 * 0x1_0000_0000_0000_0000int + b2
            * 0x1_0000_0000_0000_0000_0000_0000_0000_0000int + b3
            * 0x1_0000_0000_0000_0000_0000_0000_0000_0000_0000_0000_0000_0000int) == x * b0 + (x
            * b1) * 0x1_0000_0000_0000_0000int + (x * b2)
            * 0x1_0000_0000_0000_0000_0000_0000_0000_0000int + (x * b3)
            * 0x1_0000_0000_0000_0000_0000_0000_0000_0000_0000_0000_0000_0000int,
{
    assert(x * (b0 + b1 * 0x1_0000_0000_0000_0000int + b2
        * 0x1_0000_0000_0000_0000_0000_0000_0000_0000int + b3
        * 0x1_0000_0000_0000_0000_0000_0000_0000_0000_0000_0000_0000_0000int) == x * b0 + (x * b1)
        * 0x1_0000_0000_0000_0000int + (x * b2) * 0x1_0000_0000_0000_0000_0000_0000_0000_0000int
        + (x * b3) * 0x1_0000_0000_0000_0000_0000_0000_0000_0000_0000_0000_0000_0000int)
        by (nonlinear_arith);
}

/// `acc + x * b` as five limbs: the lowest one, and the upper four.
pub(crate) fn mul_add_row(acc: &[u64; 4], x: u64, b: &[u64; 4]) -> (res: (u64, [u64; 4]))
    ensures
        res.0 as int + limbs_val(res.1) * radix() == limbs_val(*acc) + (x as int) * limbs_val(*b),
{
    let (t0, c0) = mac(acc[0], x, b[0], 0);
    let (t1, c1) = mac(acc[1], x, b[1], c0);
    let (t2, c2) = mac(acc[2], x, b[2], c1);
    let (t3, c3) = mac(acc[3], x, b[3], c2);
    proof {
        lemma_scale_expansion(x as int, b[0] as int, b[1] as int, b[2] as int, b[3] as int);
    }
    (t0, [t1, t2, t3, c3])
}

/// Whether the value is even.
pub(crate) fn is_even4(a: &[u64; 4]) -> (res: bool)
    ensures
        res == (limbs_val(*a) % 2 == 0),
{
    a[0] % 2 == 0
}

/// Whether the value is zero.
pub(crate) fn is_zero4(a: &[u64; 4]) -> (res: bool)
    ensures
        res == (limbs_val(*a) == 0),
{
    a[0] == 0 && a[1] == 0 && a[2] == 0 && a[3] == 0
}

/// Whether two limb vectors hold the same value.
pub(crate) fn eq4(a: &[u64; 4], b: &[u64; 4]) -> (res: bool)
    ensures
        res == (limbs_val(*a) == limbs_val(*b)),
        res == (*a == *b),
{
    let same: bool = a[0] == b[0] && a[1] == b[1] && a[2] == b[2] && a[3] == b[3];
    proof {
        if same {
            assert(*a =~= *b);
        } else if limbs_val(*a) == limbs_val(*b) {
            lemma_limbs_val_injective(*a, *b);
        }
    }
    same
}

/// Half of the value, rounded down, with `top` shifted in as bit 255.
pub(crate) fn halve4(a: &[u64; 4], top: u64) -> (res: [u64; 4])
    requires
        top <= 1,
    ensures
        limbs_val(res) == (limbs_val(*a) + (top as int) * radix4()) / 2,
{
    let h0: u64 = a[0] / 2 + (a[1] % 2) * 0x8000_0000_0000_0000u64;
    let h1: u64 = a[1] / 2 + (a[2] % 2) * 0x8000_0000_0000_0000u64;
    let h2: u64 = a[2] / 2 + (a[3] % 2) * 0x8000_0000_0000_0000u64;
    let h3: u64 = a[3] / 2 + top * 0x8000_0000_0000_0000u64;
    [h0, h1, h2, h3]
}

/// The integer that eight little-endian bytes starting at `at` stand for.
pub open spec fn le_limb(b: Seq<u8>, at: int) -> int {
    b[at] as int + (b[at + 1] as int) * 0x100int + (b[at + 2] as int) * 0x1_0000int + (b[at
        + 3] as int) * 0x100_0000int + (b[at + 4] as int) * 0x1_0000_0000int + (b[at + 5] as int)
        * 0x100_0000_0000int + (b[at + 6] as int) * 0x1_0000_0000_0000int + (b[at + 7] as int)
        * 0x100_0000_0000_0000int
}

/// The integer that the first 32 bytes stand for, read as little-endian.
pub open spec fn le_bytes_val(b: Seq<u8>) -> int {
    le_limb(b, 0) + le_limb(b, 8) * 0x1_0000_0000_0000_0000int + le_limb(b, 16)
        * 0x1_0000_0000_0000_0000_0000_0000_0000_0000int + le_limb(b, 24)
        * 0x1_0000_0000_0000_0000_0000_0000_0000_0000_0000_0000_0000_0000int
}

/// One limb from eight little-endian bytes.
pub(crate) fn limb_from_le(b: &[u8; 32], at: usize) -> (res: u64)
    requires
        at + 8 <= 32,
    ensures
        res as int == le_limb(b@, at as int),
{
    (b[at] as u64) + (b[at + 1] as u64) * 0x100 + (b[at + 2] as u64) * 0x1_0000 + (b[at
        + 3] as u64) * 0x100_0000 + (b[at + 4] as u64) * 0x1_0000_0000 + (b[at + 5] as u64)
        * 0x100_0000_0000 + (b[at + 6] as u64) * 0x1_0000_0000_0000 + (b[at + 7] as u64)
        * 0x100_0000_0000_0000
}

/// Four limbs from 32 little-endian bytes.
pub(crate) fn limbs_from_le_bytes(b: &[u8; 32]) -> (res: [u64; 4])
    ensures
        limbs_val(res) == le_bytes_val(b@),
{
    [limb_from_le(b, 0), limb_from_le(b, 8), limb_from_le(b, 16), limb_from_le(b, 24)]
}

/// The integer that eight little-endian bytes stand for.
pub open spec fn le_bytes8_val(b: [u8; 8]) -> int {
    b[0] as int + (b[1] as int) * 0x100int + (b[2] as int) * 0x1_0000int + (b[3] as int)
        * 0x100_0000int + (b[4] as int) * 0x1_0000_0000int + (b[5] as int) * 0x100_0000_0000int + (
    b[6] as int) * 0x1_0000_0000_0000int + (b[7] as int) * 0x100_0000_0000_0000int
}

/// The eight little-endian bytes of a limb.
pub(crate) fn limb_to_le(l: u64) -> (res: [u8; 8])
    ensures
        le_bytes8_val(res) == l as int,
{
    let q1: u64 = l / 0x100;
    let q2: u64 = q1 / 0x100;
    let q3: u64 = q2 / 0x100;
    let q4: u64 = q3 / 0x100;
    let q5: u64 = q4 / 0x100;
    let q6: u64 = q5 / 0x100;
    let q7: u64 = q6 / 0x100;
    [
        (l % 0x100) as u8,
        (q1 % 0x100) as u8,
        (q2 % 0x100) as u8,
        (q3 % 0x100) as u8,
        (q4 % 0x100) as u8,
        (q5 % 0x100) as u8,
        (q6 % 0x100) as u8,
        q7 as u8,
    ]
}

/// The 32 little-endian bytes of four limbs.
pub(crate) fn limbs_to_le_bytes(l: &[u64; 4]) -> (res: [u8; 32])
    ensures
        le_bytes_val(res@) == limbs_val(*l),
{
    let a: [u8; 8] = limb_to_le(l[0]);
    let b: [u8; 8] = limb_to_le(l[1]);
    let c: [u8; 8] = limb_to_le(l[2]);
    let d: [u8; 8] = limb_to_le(l[3]);
    let res: [u8; 32] = [
        a[0],
        a[1],
        a[2],
        a[3],
        a[4],
        a[5],
        a[6],
        a[7],
        b[0],
        b[1],
        b[2],
        b[3],
        b[4],
        b[5],
        b[6],
        b[7],
        c[0],
        c[1],
        c[2],
        c[3],
        c[4],
        c[5],
        c[6],
        c[7],
        d[0],
        d[1],
        d[2],
        d[3],
        d[4],
        d[5],
        d[6],
        d[7],
    ];
    proof {
        assert(le_limb(res@, 0) == le_bytes8_val(a));
        assert(le_limb(res@, 8) == le_bytes8_val(b));
        assert(le_limb(res@, 16) == le_bytes8_val(c));
        assert(le_limb(res@, 24) == le_bytes8_val(d));
    }
    res
}

} // verus!
