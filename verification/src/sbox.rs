//! The substitution box, derived algebraically: a byte is replaced by the
//! affine transform of its multiplicative inverse in GF(2^8).

use vstd::prelude::*;
use crate::field::{gf_mul, gf_inv, lemma_field_inverse, inverse};

verus! {

/// The forward affine transform: output bit `i` is the XOR of bits
/// `i, i+4, i+5, i+6, i+7` (mod 8) of `m`, then XOR with bit `i` of 0x63.
/// Bit `i` of a right rotation by `k` is bit `(i+k) % 8` of the input.
pub open spec fn affine_fwd(m: u8) -> u8 {
    m ^ ((m >> 4) | (m << 4)) ^ ((m >> 5) | (m << 3)) ^ ((m >> 6) | (m << 2)) ^ ((m >> 7) | (m
        << 1)) ^ 0x63
}

/// The inverse affine transform: XOR with 0x63 first, then output bit `i`
/// is the XOR of bits `i+2, i+5, i+7` (mod 8) of that value.
pub open spec fn affine_inv(s: u8) -> u8 {
    let t = s ^ 0x63;
    ((t >> 2) | (t << 6)) ^ ((t >> 5) | (t << 3)) ^ ((t >> 7) | (t << 1))
}

/// What the forward substitution box returns for a byte.
pub open spec fn sbox_spec(b: u8) -> u8 {
    affine_fwd(gf_inv(b))
}

/// What the inverse substitution box returns for a byte.
pub open spec fn inv_sbox_spec(s: u8) -> u8 {
    gf_inv(affine_inv(s))
}

/// The two affine transforms undo one another, in both orders.
pub proof fn lemma_affine_inverse(x: u8)
    ensures
        affine_inv(affine_fwd(x)) == x,
        affine_fwd(affine_inv(x)) == x,
{
    assert(affine_inv(affine_fwd(x)) == x && affine_fwd(affine_inv(x)) == x) by (bit_vector);
}

/// Taking the multiplicative inverse twice gives the byte back, with the
/// convention that 0 maps to 0.  For nonzero `a` this is the uniqueness
/// of inverses: `a` inverts `gf_inv(a)`, and so does `gf_inv(gf_inv(a))`.
#[verifier::rlimit(100)]
pub proof fn lemma_double_inverse(a: u8)
    ensures
        gf_inv(gf_inv(a)) == a,
{
    if a == 0 {
        assert(gf_inv(gf_inv(0u8)) == 0u8);
    } else {
        lemma_field_inverse(a);
        let r: u8 = gf_inv(a);
        assert(gf_mul(a, 0) == 0) by (bit_vector);
        assert(r != 0);
        lemma_field_inverse(r);
        let s: u8 = gf_inv(r);
        assert(s == a) by (bit_vector)
            requires
                a != 0,
                gf_mul(a, r) == 1,
                gf_mul(r, s) == 1,
        ;
    }
}

/// The substitution box is undone by its inverse, and the inverse by the
/// forward box, for every byte value.
pub proof fn lemma_sbox_involution(b: u8)
    ensures
        inv_sbox_spec(sbox_spec(b)) == b,
        sbox_spec(inv_sbox_spec(b)) == b,
{
    lemma_affine_inverse(gf_inv(b));
    lemma_double_inverse(b);
    lemma_affine_inverse(b);
    lemma_double_inverse(affine_inv(b));
}

/// The forward substitution box: the affine transform of the byte's
/// multiplicative inverse.
pub fn s_box(b: u8) -> (r: u8)
    ensures
        r == sbox_spec(b),
{
    let m = inverse(b);
    m ^ ((m >> 4) | (m << 4)) ^ ((m >> 5) | (m << 3)) ^ ((m >> 6) | (m << 2)) ^ ((m >> 7) | (m
        << 1)) ^ 0x63
}

/// The inverse substitution box: the inverse affine transform followed by
/// the multiplicative inverse.
pub fn inv_s_box(s: u8) -> (r: u8)
    ensures
        r == inv_sbox_spec(s),
        sbox_spec(r) == s,
{
    proof {
        lemma_sbox_involution(s);
    }
    let t = s ^ 0x63;
    let u = ((t >> 2) | (t << 6)) ^ ((t >> 5) | (t << 3)) ^ ((t >> 7) | (t << 1));
    inverse(u)
}

} // verus!
