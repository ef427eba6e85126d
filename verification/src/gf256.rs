//! Arithmetic in the finite field GF(2^8) with the reduction polynomial
//! x^8 + x^4 + x^3 + x + 1, the field the threshold splitter works over.

use vstd::prelude::*;

verus! {

/// Multiply a field element by x (the generator polynomial's variable).
pub open spec fn gf_xtime(b: u8) -> u8 {
    if b >= 0x80 {
        ((b << 1) ^ 0x1b) as u8
    } else {
        (b << 1) as u8
    }
}

/// One step of the double-and-add product: `rounds` bits of `a` remain to
/// be consumed, `b` has already been shifted past the consumed bits.
pub open spec fn gf_mul_rec(a: u8, b: u8, rounds: nat) -> u8
    decreases rounds,
{
    if rounds == 0 {
        0u8
    } else {
        ((if a % 2 == 1 { b } else { 0u8 }) ^ gf_mul_rec(a / 2, gf_xtime(b), (rounds - 1) as nat)) as u8
    }
}

/// The field product of two elements.
pub open spec fn gf_mul(a: u8, b: u8) -> u8 {
    gf_mul_rec(a, b, 8)
}

/// The `e`-th power of a field element.
pub open spec fn gf_pow(a: u8, e: nat) -> u8
    decreases e,
{
    if e == 0 {
        1u8
    } else {
        gf_mul(a, gf_pow(a, (e - 1) as nat))
    }
}

/// The multiplicative inverse of a nonzero element: every nonzero element
/// of GF(2^8) satisfies a^255 = 1, so a^254 is its inverse.
pub open spec fn gf_inv(a: u8) -> u8 {
    gf_pow(a, 254)
}

pub fn xtime(b: u8) -> (r: u8)
    ensures
        r == gf_xtime(b),
{
    if b >= 0x80 {
        (b << 1) ^ 0x1b
    } else {
        b << 1
    }
}

fn mul_rounds(a: u8, b: u8, rounds: u32) -> (r: u8)
    ensures
        r == gf_mul_rec(a, b, rounds as nat),
    decreases rounds,
{
    if rounds == 0 {
        0
    } else {
        let c: u8 = if a % 2 == 1 { b } else { 0 };
        c ^ mul_rounds(a / 2, xtime(b), rounds - 1)
    }
}

/// Field multiplication.
pub fn mult(a: u8, b: u8) -> (r: u8)
    ensures
        r == gf_mul(a, b),
{
    mul_rounds(a, b, 8)
}

/// Field inversion by exponentiation: a^254.
pub fn inv(a: u8) -> (r: u8)
    ensures
        r == gf_inv(a),
{
    let mut r: u8 = 1;
    let mut i: u32 = 0;
    while i < 254
        invariant
            i <= 254,
            r == gf_pow(a, i as nat),
        decreases 254 - i,
    {
        r = mult(a, r);
        i = i + 1;
    }
    r
}

/// Multiplying with zero on the left yields zero at every round count.
pub proof fn lemma_gf_mul_zero_left(b: u8, rounds: nat)
    ensures
        gf_mul_rec(0, b, rounds) == 0,
    decreases rounds,
{
    if rounds > 0 {
        lemma_gf_mul_zero_left(gf_xtime(b), (rounds - 1) as nat);
        assert((0u8 ^ 0u8) == 0u8) by (bit_vector);
    }
}

/// Multiplying with zero on the right yields zero at every round count.
pub proof fn lemma_gf_mul_zero_right(a: u8, rounds: nat)
    ensures
        gf_mul_rec(a, 0, rounds) == 0,
    decreases rounds,
{
    if rounds > 0 {
        assert(gf_xtime(0) == 0) by (bit_vector);
        lemma_gf_mul_zero_right(a / 2, (rounds - 1) as nat);
        assert((0u8 ^ 0u8) == 0u8) by (bit_vector);
    }
}

/// One is the multiplicative identity on the left.
pub proof fn lemma_gf_mul_one_left(b: u8)
    ensures
        gf_mul(1, b) == b,
{
    lemma_gf_mul_zero_left(gf_xtime(b), 7);
    assert((b ^ 0u8) == b) by (bit_vector);
}

} // verus!
