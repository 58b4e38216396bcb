//! 4-byte words: vectors over GF(2^8), used both as key-schedule words
//! and as state columns.  A word is a degree-3 polynomial whose
//! coefficient of `x^i` is byte `i`; products are taken modulo `x^4 + 1`,
//! which makes multiplication a wrap-around convolution.

use vstd::prelude::*;
use crate::field::{gf_mul, gf_pow, multiply, pow};
use crate::sbox::{sbox_spec, s_box};

verus! {

/// Byte `r` of the product of two words modulo `x^4 + 1`:
/// the wrap-around convolution `XOR_j w[j] * c[(r - j) mod 4]`.
pub open spec fn conv_byte(w: Seq<u8>, c: Seq<u8>, r: int) -> u8
    recommends
        w.len() == 4,
        c.len() == 4,
        0 <= r < 4,
{
    gf_mul(w[0], c[r]) ^ gf_mul(w[1], c[(r + 3) % 4]) ^ gf_mul(w[2], c[(r + 2) % 4]) ^ gf_mul(
        w[3],
        c[(r + 1) % 4],
    )
}

/// The constant word of the forward column transform, the conventional
/// polynomial `{03}x^3 + {01}x^2 + {01}x + {02}`.
pub open spec fn mix_word() -> Seq<u8> {
    seq![0x02u8, 0x01u8, 0x01u8, 0x03u8]
}

/// The constant word of the inverse column transform, the conventional
/// polynomial `{0b}x^3 + {0d}x^2 + {09}x + {0e}`.
pub open spec fn inv_mix_word() -> Seq<u8> {
    seq![0x0Eu8, 0x09u8, 0x0Du8, 0x0Bu8]
}

/// A word cyclically rotated left by one byte.
pub open spec fn rot_word_s(w: Seq<u8>) -> Seq<u8>
    recommends
        w.len() == 4,
{
    seq![w[1], w[2], w[3], w[0]]
}

/// The forward substitution box applied to each byte of a word.
pub open spec fn sub_word_s(w: Seq<u8>) -> Seq<u8>
    recommends
        w.len() == 4,
{
    seq![sbox_spec(w[0]), sbox_spec(w[1]), sbox_spec(w[2]), sbox_spec(w[3])]
}

/// Two words XORed byte for byte.
pub open spec fn wxor(a: Seq<u8>, b: Seq<u8>) -> Seq<u8>
    recommends
        a.len() == 4,
        b.len() == 4,
{
    seq![a[0] ^ b[0], a[1] ^ b[1], a[2] ^ b[2], a[3] ^ b[3]]
}

/// The round-constant word `Rcon(n)`: the GF(2^8) power `2^(n-1)` in the
/// first byte, zero elsewhere.
pub open spec fn rcon_word(n: int) -> Seq<u8>
    recommends
        n >= 1,
{
    seq![gf_pow(2, (n - 1) as nat), 0u8, 0u8, 0u8]
}

/// Multiplies two words as polynomials over GF(2^8) modulo `x^4 + 1`.
pub fn word_mult(w: [u8; 4], c: [u8; 4]) -> (r: [u8; 4])
    ensures
        r@ =~= Seq::new(4, |i: int| conv_byte(w@, c@, i)),
{
    let r0 = multiply(w[0], c[0]) ^ multiply(w[1], c[3]) ^ multiply(w[2], c[2]) ^ multiply(
        w[3],
        c[1],
    );
    let r1 = multiply(w[0], c[1]) ^ multiply(w[1], c[0]) ^ multiply(w[2], c[3]) ^ multiply(
        w[3],
        c[2],
    );
    let r2 = multiply(w[0], c[2]) ^ multiply(w[1], c[1]) ^ multiply(w[2], c[0]) ^ multiply(
        w[3],
        c[3],
    );
    let r3 = multiply(w[0], c[3]) ^ multiply(w[1], c[2]) ^ multiply(w[2], c[1]) ^ multiply(
        w[3],
        c[0],
    );
    [r0, r1, r2, r3]
}

/// Cyclically rotates the 4 bytes of a word left by one position.
pub fn rot_word(w: [u8; 4]) -> (r: [u8; 4])
    ensures
        r@ =~= rot_word_s(w@),
{
    [w[1], w[2], w[3], w[0]]
}

/// Applies the forward substitution box to each byte of a word.
pub fn sub_word(w: [u8; 4]) -> (r: [u8; 4])
    ensures
        r@ =~= sub_word_s(w@),
{
    [s_box(w[0]), s_box(w[1]), s_box(w[2]), s_box(w[3])]
}

/// XORs the round constant `Rcon(n)` into a word: only the first byte
/// changes, by the GF(2^8) power `2^(n-1)`.
pub fn rcon_xor(w: [u8; 4], n: usize) -> (r: [u8; 4])
    requires
        n >= 1,
    ensures
        r@ =~= wxor(w@, rcon_word(n as int)),
{
    let rc = pow(0x02, n - 1);
    [w[0] ^ rc, w[1] ^ 0, w[2] ^ 0, w[3] ^ 0]
}

} // verus!
