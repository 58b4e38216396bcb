//! Arithmetic in GF(2^8), the field of 256 elements used by the cipher.
//!
//! A byte stands for a polynomial of degree at most 7 with coefficients in
//! {0, 1}; bit `i` is the coefficient of `x^i`.  Addition is bitwise XOR.
//! Multiplication is carry-less polynomial multiplication followed by
//! reduction modulo the fixed irreducible polynomial
//! `x^8 + x^4 + x^3 + x + 1` (0x11B).

use vstd::prelude::*;

verus! {

/// Carry-less (polynomial) product of two bytes, before reduction.
/// Bit `i` of `b` selects the partial product `a << i`.
pub open spec fn clmul(a: u8, b: u8) -> u16 {
    (if b & 0x01 != 0 { a as u16 } else { 0 }) ^ (if b & 0x02 != 0 {
        (a as u16) << 1u16
    } else {
        0
    }) ^ (if b & 0x04 != 0 { (a as u16) << 2u16 } else { 0 }) ^ (if b & 0x08 != 0 {
        (a as u16) << 3u16
    } else {
        0
    }) ^ (if b & 0x10 != 0 { (a as u16) << 4u16 } else { 0 }) ^ (if b & 0x20 != 0 {
        (a as u16) << 5u16
    } else {
        0
    }) ^ (if b & 0x40 != 0 { (a as u16) << 6u16 } else { 0 }) ^ (if b & 0x80 != 0 {
        (a as u16) << 7u16
    } else {
        0
    })
}

/// Division remainder of a 16-bit carry-less product by the irreducible
/// polynomial 0x11B: each bit from 15 down to 8 that is set is cancelled
/// by XORing in 0x11B shifted so that its leading term meets that bit.
/// The shifted copies for bits 15..12 touch none of the bits 15..12, and
/// those for bits 11..8 touch none of the bits 11..8, so the eight folds
/// collapse into two independent stages.
pub open spec fn gf_reduce(x: u16) -> u8 {
    let y = x ^ (if x & 0x8000 != 0 { 0x8D80u16 } else { 0 }) ^ (if x & 0x4000 != 0 {
        0x46C0u16
    } else {
        0
    }) ^ (if x & 0x2000 != 0 { 0x2360u16 } else { 0 }) ^ (if x & 0x1000 != 0 {
        0x11B0u16
    } else {
        0
    });
    let z = y ^ (if y & 0x0800 != 0 { 0x08D8u16 } else { 0 }) ^ (if y & 0x0400 != 0 {
        0x046Cu16
    } else {
        0
    }) ^ (if y & 0x0200 != 0 { 0x0236u16 } else { 0 }) ^ (if y & 0x0100 != 0 {
        0x011Bu16
    } else {
        0
    });
    z as u8
}

/// The product of two field elements: carry-less multiplication reduced
/// modulo `x^8 + x^4 + x^3 + x + 1`.
pub open spec fn gf_mul(a: u8, b: u8) -> u8 {
    gf_reduce(clmul(a, b))
}

/// The square of a field element.
pub open spec fn gf_sq(a: u8) -> u8 {
    gf_mul(a, a)
}

/// Exponentiation in the field by square and multiply; `a^0 == 1` for
/// every `a`, including 0.
pub open spec fn gf_pow(a: u8, n: nat) -> u8
    decreases n,
{
    if n == 0 {
        1
    } else if n % 2 == 0 {
        gf_sq(gf_pow(a, n / 2))
    } else {
        gf_mul(a, gf_sq(gf_pow(a, n / 2)))
    }
}

/// `a^254`, written out as a square-and-multiply chain of `gf_mul`
/// applications so that it is a closed bit-level expression.  Kept
/// opaque: only the inverse proofs need to look inside the chain.
#[verifier::opaque]
pub open spec fn gf_pow_254(a: u8) -> u8 {
    let a2 = gf_mul(a, a);
    let a3 = gf_mul(a2, a);
    let a6 = gf_mul(a3, a3);
    let a7 = gf_mul(a6, a);
    let a14 = gf_mul(a7, a7);
    let a15 = gf_mul(a14, a);
    let a30 = gf_mul(a15, a15);
    let a31 = gf_mul(a30, a);
    let a62 = gf_mul(a31, a31);
    let a63 = gf_mul(a62, a);
    let a126 = gf_mul(a63, a63);
    let a127 = gf_mul(a126, a);
    gf_mul(a127, a127)
}

/// The multiplicative inverse of a field element, with 0 mapped to 0.
/// For `a != 0` the nonzero elements form a cyclic group of order 255,
/// so `a^254` is the unique element with `gf_mul(a, a^254) == 1`.
pub open spec fn gf_inv(a: u8) -> u8 {
    if a == 0 {
        0
    } else {
        gf_pow_254(a)
    }
}

/// Every nonzero field element multiplied by its inverse gives 1.
///
/// The proof names every intermediate product of the square-and-multiply
/// chain and hands the whole chain to the bit-level solver as one query
/// over those shallow equations.
pub proof fn lemma_field_inverse(a: u8)
    requires
        a != 0,
    ensures
        gf_mul(a, gf_inv(a)) == 1,
{
    reveal(gf_pow_254);
    let c2: u16 = clmul(a, a);
    let a2: u8 = gf_reduce(c2);
    let c3: u16 = clmul(a2, a);
    let a3: u8 = gf_reduce(c3);
    let c6: u16 = clmul(a3, a3);
    let a6: u8 = gf_reduce(c6);
    let c7: u16 = clmul(a6, a);
    let a7: u8 = gf_reduce(c7);
    let c14: u16 = clmul(a7, a7);
    let a14: u8 = gf_reduce(c14);
    let c15: u16 = clmul(a14, a);
    let a15: u8 = gf_reduce(c15);
    let c30: u16 = clmul(a15, a15);
    let a30: u8 = gf_reduce(c30);
    let c31: u16 = clmul(a30, a);
    let a31: u8 = gf_reduce(c31);
    let c62: u16 = clmul(a31, a31);
    let a62: u8 = gf_reduce(c62);
    let c63: u16 = clmul(a62, a);
    let a63: u8 = gf_reduce(c63);
    let c126: u16 = clmul(a63, a63);
    let a126: u8 = gf_reduce(c126);
    let c127: u16 = clmul(a126, a);
    let a127: u8 = gf_reduce(c127);
    let c254: u16 = clmul(a127, a127);
    let a254: u8 = gf_reduce(c254);
    let cfin: u16 = clmul(a, a254);
    assert(gf_reduce(cfin) == 1) by (bit_vector)
        requires
            a != 0,
            c2 == clmul(a, a),
            a2 == gf_reduce(c2),
            c3 == clmul(a2, a),
            a3 == gf_reduce(c3),
            c6 == clmul(a3, a3),
            a6 == gf_reduce(c6),
            c7 == clmul(a6, a),
            a7 == gf_reduce(c7),
            c14 == clmul(a7, a7),
            a14 == gf_reduce(c14),
            c15 == clmul(a14, a),
            a15 == gf_reduce(c15),
            c30 == clmul(a15, a15),
            a30 == gf_reduce(c30),
            c31 == clmul(a30, a),
            a31 == gf_reduce(c31),
            c62 == clmul(a31, a31),
            a62 == gf_reduce(c62),
            c63 == clmul(a62, a),
            a63 == gf_reduce(c63),
            c126 == clmul(a63, a63),
            a126 == gf_reduce(c126),
            c127 == clmul(a126, a),
            a127 == gf_reduce(c127),
            c254 == clmul(a127, a127),
            a254 == gf_reduce(c254),
            cfin == clmul(a, a254),
    ;
}

/// Addition in the field: bitwise XOR of the two bytes.
pub fn add(a: u8, b: u8) -> (r: u8)
    ensures
        r == a ^ b,
{
    a ^ b
}

/// Multiplication in the field, by shift-and-reduce over the bits of `b`.
pub fn multiply(a: u8, b: u8) -> (r: u8)
    ensures
        r == gf_mul(a, b),
{
    let wide: u16 = a as u16;
    let p: u16 = (if b & 0x01 != 0 {
        wide
    } else {
        0
    }) ^ (if b & 0x02 != 0 {
        wide << 1
    } else {
        0
    }) ^ (if b & 0x04 != 0 {
        wide << 2
    } else {
        0
    }) ^ (if b & 0x08 != 0 {
        wide << 3
    } else {
        0
    }) ^ (if b & 0x10 != 0 {
        wide << 4
    } else {
        0
    }) ^ (if b & 0x20 != 0 {
        wide << 5
    } else {
        0
    }) ^ (if b & 0x40 != 0 {
        wide << 6
    } else {
        0
    }) ^ (if b & 0x80 != 0 {
        wide << 7
    } else {
        0
    });
    let y: u16 = p ^ (if p & 0x8000 != 0 {
        0x8D80
    } else {
        0
    }) ^ (if p & 0x4000 != 0 {
        0x46C0
    } else {
        0
    }) ^ (if p & 0x2000 != 0 {
        0x2360
    } else {
        0
    }) ^ (if p & 0x1000 != 0 {
        0x11B0
    } else {
        0
    });
    let z: u16 = y ^ (if y & 0x0800 != 0 {
        0x08D8
    } else {
        0
    }) ^ (if y & 0x0400 != 0 {
        0x046C
    } else {
        0
    }) ^ (if y & 0x0200 != 0 {
        0x0236
    } else {
        0
    }) ^ (if y & 0x0100 != 0 {
        0x011B
    } else {
        0
    });
    z as u8
}

/// Exponentiation in the field by square and multiply.
pub fn pow(a: u8, n: usize) -> (r: u8)
    ensures
        r == gf_pow(a, n as nat),
    decreases n,
{
    if n == 0 {
        1
    } else {
        let h = pow(a, n / 2);
        let s = multiply(h, h);
        if n % 2 == 0 {
            s
        } else {
            multiply(a, s)
        }
    }
}

/// The multiplicative inverse, computed as `a^254` by repeated squaring;
/// 0 is mapped to 0, matching the convention the substitution box is
/// built on.
pub fn inverse(a: u8) -> (r: u8)
    ensures
        r == gf_inv(a),
        a != 0 ==> gf_mul(a, r) == 1,
{
    if a == 0 {
        0
    } else {
        proof {
            reveal(gf_pow_254);
            lemma_field_inverse(a);
        }
        let a2 = multiply(a, a);
        let a3 = multiply(a2, a);
        let a6 = multiply(a3, a3);
        let a7 = multiply(a6, a);
        let a14 = multiply(a7, a7);
        let a15 = multiply(a14, a);
        let a30 = multiply(a15, a15);
        let a31 = multiply(a30, a);
        let a62 = multiply(a31, a31);
        let a63 = multiply(a62, a);
        let a126 = multiply(a63, a63);
        let a127 = multiply(a126, a);
        multiply(a127, a127)
    }
}

} // verus!
