//! The four elementary transformations of the 4x4 cipher state and their
//! inverses.  A state holds one 16-byte block column-major: `s[c][r]` is
//! the byte of column `c`, row `r`, and the flat view places it at index
//! `4*c + r`.

use vstd::prelude::*;
use crate::field::gf_mul;
use crate::sbox::{sbox_spec, inv_sbox_spec, lemma_sbox_involution, s_box, inv_s_box};
use crate::words::{conv_byte, mix_word, inv_mix_word, word_mult};

verus! {

broadcast use vstd::array::group_array_axioms;

/// The flat view of a state: byte `i` is column `i / 4`, row `i % 4`.
pub open spec fn st(s: [[u8; 4]; 4]) -> Seq<u8> {
    Seq::new(16, |i: int| s[i / 4][i % 4])
}

/// The flat view of four words standing side by side, as a round key.
pub open spec fn wd(w: [[u8; 4]; 4]) -> Seq<u8> {
    Seq::new(16, |i: int| w[i / 4][i % 4])
}

/// The substitution box applied to every byte of a state.
pub open spec fn sub_s(s: Seq<u8>) -> Seq<u8>
    recommends
        s.len() == 16,
{
    Seq::new(16, |i: int| sbox_spec(s[i]))
}

/// The inverse substitution box applied to every byte of a state.
pub open spec fn inv_sub_s(s: Seq<u8>) -> Seq<u8>
    recommends
        s.len() == 16,
{
    Seq::new(16, |i: int| inv_sbox_spec(s[i]))
}

/// Where the byte at flat index `i` comes from under the row shift:
/// row `r` is cyclically left-shifted by `r` columns.
pub open spec fn shift_src(i: int) -> int {
    4 * ((i / 4 + i % 4) % 4) + i % 4
}

/// Where the byte at flat index `i` comes from under the inverse shift.
pub open spec fn inv_shift_src(i: int) -> int {
    4 * ((i / 4 + 4 - i % 4) % 4) + i % 4
}

/// The row-shift transform on the flat state.
pub open spec fn shift_s(s: Seq<u8>) -> Seq<u8>
    recommends
        s.len() == 16,
{
    Seq::new(16, |i: int| s[shift_src(i)])
}

/// The inverse row-shift transform on the flat state.
pub open spec fn inv_shift_s(s: Seq<u8>) -> Seq<u8>
    recommends
        s.len() == 16,
{
    Seq::new(16, |i: int| s[inv_shift_src(i)])
}

/// One column of the flat state as a word.
pub open spec fn col(s: Seq<u8>, c: int) -> Seq<u8>
    recommends
        s.len() == 16,
        0 <= c < 4,
{
    seq![s[4 * c], s[4 * c + 1], s[4 * c + 2], s[4 * c + 3]]
}

/// Every column multiplied by the forward constant word.
pub open spec fn mix_s(s: Seq<u8>) -> Seq<u8>
    recommends
        s.len() == 16,
{
    Seq::new(16, |i: int| conv_byte(col(s, i / 4), mix_word(), i % 4))
}

/// Every column multiplied by the inverse constant word.
pub open spec fn inv_mix_s(s: Seq<u8>) -> Seq<u8>
    recommends
        s.len() == 16,
{
    Seq::new(16, |i: int| conv_byte(col(s, i / 4), inv_mix_word(), i % 4))
}

/// The state XORed with a round key, byte for byte.
pub open spec fn ark_s(s: Seq<u8>, k: Seq<u8>) -> Seq<u8>
    recommends
        s.len() == 16,
        k.len() == 16,
{
    Seq::new(16, |i: int| s[i] ^ k[i])
}

/// The inverse substitution undoes the forward substitution on a state.
pub proof fn lemma_sub_inverse(s: Seq<u8>)
    requires
        s.len() == 16,
    ensures
        inv_sub_s(sub_s(s)) == s,
{
    assert forall|i: int| 0 <= i < 16 implies inv_sub_s(sub_s(s))[i] == s[i] by {
        lemma_sbox_involution(s[i]);
    }
    assert(inv_sub_s(sub_s(s)) =~= s);
}

/// The inverse row shift undoes the forward row shift.
pub proof fn lemma_shift_inverse(s: Seq<u8>)
    requires
        s.len() == 16,
    ensures
        inv_shift_s(shift_s(s)) == s,
{
    assert forall|i: int| 0 <= i < 16 implies inv_shift_s(shift_s(s))[i] == s[i] by {
        let j = inv_shift_src(i);
        assert(0 <= j < 16);
        assert(shift_src(j) == i);
    }
    assert(inv_shift_s(shift_s(s)) =~= s);
}

/// Multiplying a column by the inverse constant word undoes multiplying
/// it by the forward constant word: the two polynomials are inverses
/// modulo `x^4 + 1`.
#[verifier::rlimit(100)]
pub proof fn lemma_mix_col_inverse(s0: u8, s1: u8, s2: u8, s3: u8)
    ensures
        conv_byte(
            Seq::new(4, |r: int| conv_byte(seq![s0, s1, s2, s3], mix_word(), r)),
            inv_mix_word(),
            0,
        ) == s0,
        conv_byte(
            Seq::new(4, |r: int| conv_byte(seq![s0, s1, s2, s3], mix_word(), r)),
            inv_mix_word(),
            1,
        ) == s1,
        conv_byte(
            Seq::new(4, |r: int| conv_byte(seq![s0, s1, s2, s3], mix_word(), r)),
            inv_mix_word(),
            2,
        ) == s2,
        conv_byte(
            Seq::new(4, |r: int| conv_byte(seq![s0, s1, s2, s3], mix_word(), r)),
            inv_mix_word(),
            3,
        ) == s3,
{
    let m = Seq::new(4, |r: int| conv_byte(seq![s0, s1, s2, s3], mix_word(), r));
    let m0: u8 = m[0];
    let m1: u8 = m[1];
    let m2: u8 = m[2];
    let m3: u8 = m[3];
    assert(m0 == gf_mul(s0, 0x02) ^ gf_mul(s1, 0x03) ^ gf_mul(s2, 0x01) ^ gf_mul(s3, 0x01));
    assert(m1 == gf_mul(s0, 0x01) ^ gf_mul(s1, 0x02) ^ gf_mul(s2, 0x03) ^ gf_mul(s3, 0x01));
    assert(m2 == gf_mul(s0, 0x01) ^ gf_mul(s1, 0x01) ^ gf_mul(s2, 0x02) ^ gf_mul(s3, 0x03));
    assert(m3 == gf_mul(s0, 0x03) ^ gf_mul(s1, 0x01) ^ gf_mul(s2, 0x01) ^ gf_mul(s3, 0x02));
    assert((gf_mul(m0, 0x0E) ^ gf_mul(m1, 0x0B) ^ gf_mul(m2, 0x0D) ^ gf_mul(m3, 0x09)) == s0)
        by (bit_vector)
        requires
            m0 == gf_mul(s0, 0x02) ^ gf_mul(s1, 0x03) ^ gf_mul(s2, 0x01) ^ gf_mul(s3, 0x01),
            m1 == gf_mul(s0, 0x01) ^ gf_mul(s1, 0x02) ^ gf_mul(s2, 0x03) ^ gf_mul(s3, 0x01),
            m2 == gf_mul(s0, 0x01) ^ gf_mul(s1, 0x01) ^ gf_mul(s2, 0x02) ^ gf_mul(s3, 0x03),
            m3 == gf_mul(s0, 0x03) ^ gf_mul(s1, 0x01) ^ gf_mul(s2, 0x01) ^ gf_mul(s3, 0x02),
    ;
    assert((gf_mul(m0, 0x09) ^ gf_mul(m1, 0x0E) ^ gf_mul(m2, 0x0B) ^ gf_mul(m3, 0x0D)) == s1)
        by (bit_vector)
        requires
            m0 == gf_mul(s0, 0x02) ^ gf_mul(s1, 0x03) ^ gf_mul(s2, 0x01) ^ gf_mul(s3, 0x01),
            m1 == gf_mul(s0, 0x01) ^ gf_mul(s1, 0x02) ^ gf_mul(s2, 0x03) ^ gf_mul(s3, 0x01),
            m2 == gf_mul(s0, 0x01) ^ gf_mul(s1, 0x01) ^ gf_mul(s2, 0x02) ^ gf_mul(s3, 0x03),
            m3 == gf_mul(s0, 0x03) ^ gf_mul(s1, 0x01) ^ gf_mul(s2, 0x01) ^ gf_mul(s3, 0x02),
    ;
    assert((gf_mul(m0, 0x0D) ^ gf_mul(m1, 0x09) ^ gf_mul(m2, 0x0E) ^ gf_mul(m3, 0x0B)) == s2)
        by (bit_vector)
        requires
            m0 == gf_mul(s0, 0x02) ^ gf_mul(s1, 0x03) ^ gf_mul(s2, 0x01) ^ gf_mul(s3, 0x01),
            m1 == gf_mul(s0, 0x01) ^ gf_mul(s1, 0x02) ^ gf_mul(s2, 0x03) ^ gf_mul(s3, 0x01),
            m2 == gf_mul(s0, 0x01) ^ gf_mul(s1, 0x01) ^ gf_mul(s2, 0x02) ^ gf_mul(s3, 0x03),
            m3 == gf_mul(s0, 0x03) ^ gf_mul(s1, 0x01) ^ gf_mul(s2, 0x01) ^ gf_mul(s3, 0x02),
    ;
    assert((gf_mul(m0, 0x0B) ^ gf_mul(m1, 0x0D) ^ gf_mul(m2, 0x09) ^ gf_mul(m3, 0x0E)) == s3)
        by (bit_vector)
        requires
            m0 == gf_mul(s0, 0x02) ^ gf_mul(s1, 0x03) ^ gf_mul(s2, 0x01) ^ gf_mul(s3, 0x01),
            m1 == gf_mul(s0, 0x01) ^ gf_mul(s1, 0x02) ^ gf_mul(s2, 0x03) ^ gf_mul(s3, 0x01),
            m2 == gf_mul(s0, 0x01) ^ gf_mul(s1, 0x01) ^ gf_mul(s2, 0x02) ^ gf_mul(s3, 0x03),
            m3 == gf_mul(s0, 0x03) ^ gf_mul(s1, 0x01) ^ gf_mul(s2, 0x01) ^ gf_mul(s3, 0x02),
    ;
}

/// The inverse column transform undoes the forward column transform on a
/// whole state.
#[verifier::rlimit(100)]
pub proof fn lemma_mix_inverse(s: Seq<u8>)
    requires
        s.len() == 16,
    ensures
        inv_mix_s(mix_s(s)) == s,
{
    assert forall|i: int| 0 <= i < 16 implies inv_mix_s(mix_s(s))[i] == s[i] by {
        let c = i / 4;
        lemma_mix_col_inverse(s[4 * c], s[4 * c + 1], s[4 * c + 2], s[4 * c + 3]);
        assert(col(s, c) =~= seq![s[4 * c], s[4 * c + 1], s[4 * c + 2], s[4 * c + 3]]);
        assert(col(mix_s(s), c) =~= Seq::new(4, |r: int| conv_byte(col(s, c), mix_word(), r)));
    }
    assert(inv_mix_s(mix_s(s)) =~= s);
}

/// XORing the same round key twice gives the state back.
pub proof fn lemma_ark_inverse(s: Seq<u8>, k: Seq<u8>)
    requires
        s.len() == 16,
        k.len() == 16,
    ensures
        ark_s(ark_s(s, k), k) == s,
{
    assert forall|i: int| 0 <= i < 16 implies ark_s(ark_s(s, k), k)[i] == s[i] by {
        let x = s[i];
        let y = k[i];
        assert((x ^ y) ^ y == x) by (bit_vector);
    }
    assert(ark_s(ark_s(s, k), k) =~= s);
}

/// Applies the substitution box to every byte of the state.
pub fn sub_bytes(byte_mtrx: &mut [[u8; 4]; 4])
    ensures
        st(*final(byte_mtrx)) == sub_s(st(*old(byte_mtrx))),
{
    let ghost orig: [[u8; 4]; 4] = *byte_mtrx;
    for c in 0..4
        invariant
            forall|cc: int, rr: int|
                0 <= cc < 4 && 0 <= rr < 4 ==> #[trigger] byte_mtrx[cc][rr] == (if cc < c {
                    sbox_spec(orig[cc][rr])
                } else {
                    orig[cc][rr]
                }),
    {
        for r in 0..4
            invariant
                0 <= c < 4,
                forall|cc: int, rr: int|
                    0 <= cc < 4 && 0 <= rr < 4 ==> #[trigger] byte_mtrx[cc][rr] == (if cc < c || (
                    cc == c && rr < r) {
                        sbox_spec(orig[cc][rr])
                    } else {
                        orig[cc][rr]
                    }),
        {
            let mut column = byte_mtrx[c];
            column[r] = s_box(column[r]);
            byte_mtrx[c] = column;
        }
    }
    assert(st(*byte_mtrx) =~= sub_s(st(orig)));
}

/// Applies the inverse substitution box to every byte of the state.
pub fn inv_sub_bytes(byte_mtrx: &mut [[u8; 4]; 4])
    ensures
        st(*final(byte_mtrx)) == inv_sub_s(st(*old(byte_mtrx))),
{
    let ghost orig: [[u8; 4]; 4] = *byte_mtrx;
    for c in 0..4
        invariant
            forall|cc: int, rr: int|
                0 <= cc < 4 && 0 <= rr < 4 ==> #[trigger] byte_mtrx[cc][rr] == (if cc < c {
                    inv_sbox_spec(orig[cc][rr])
                } else {
                    orig[cc][rr]
                }),
    {
        for r in 0..4
            invariant
                0 <= c < 4,
                forall|cc: int, rr: int|
                    0 <= cc < 4 && 0 <= rr < 4 ==> #[trigger] byte_mtrx[cc][rr] == (if cc < c || (
                    cc == c && rr < r) {
                        inv_sbox_spec(orig[cc][rr])
                    } else {
                        orig[cc][rr]
                    }),
        {
            let mut column = byte_mtrx[c];
            column[r] = inv_s_box(column[r]);
            byte_mtrx[c] = column;
        }
    }
    assert(st(*byte_mtrx) =~= inv_sub_s(st(orig)));
}

/// Cyclically left-shifts row `r` of the state by `r` columns: the new
/// byte at column `c`, row `r` is the old byte at column `(c+r) % 4`.
pub fn shift_rows(byte_mtrx: &mut [[u8; 4]; 4])
    ensures
        st(*final(byte_mtrx)) == shift_s(st(*old(byte_mtrx))),
{
    let ghost orig: [[u8; 4]; 4] = *byte_mtrx;
    let mut new_byte_mtrx: [[u8; 4]; 4] = [[0u8; 4]; 4];
    for c in 0..4
        invariant
            forall|cc: int, rr: int|
                0 <= cc < c && 0 <= rr < 4 ==> #[trigger] new_byte_mtrx[cc][rr] == orig[(cc + rr)
                    % 4][rr],
            *byte_mtrx == orig,
    {
        for r in 0..4
            invariant
                0 <= c < 4,
                forall|cc: int, rr: int|
                    0 <= cc < 4 && 0 <= rr < 4 && (cc < c || (cc == c && rr < r))
                        ==> #[trigger] new_byte_mtrx[cc][rr] == orig[(cc + rr) % 4][rr],
                *byte_mtrx == orig,
        {
            let mut column = new_byte_mtrx[c];
            column[r] = byte_mtrx[(c + r) % 4][r];
            new_byte_mtrx[c] = column;
        }
    }
    *byte_mtrx = new_byte_mtrx;
    assert forall|i: int| 0 <= i < 16 implies st(*byte_mtrx)[i] == shift_s(st(orig))[i] by {
        assert(0 <= shift_src(i) < 16);
    }
    assert(st(*byte_mtrx) =~= shift_s(st(orig)));
}

/// The inverse row shift: the new byte at column `c`, row `r` is the old
/// byte at column `(c + 4 - r) % 4`.
pub fn inv_shift_rows(byte_mtrx: &mut [[u8; 4]; 4])
    ensures
        st(*final(byte_mtrx)) == inv_shift_s(st(*old(byte_mtrx))),
{
    let ghost orig: [[u8; 4]; 4] = *byte_mtrx;
    let mut new_byte_mtrx: [[u8; 4]; 4] = [[0u8; 4]; 4];
    for c in 0..4
        invariant
            forall|cc: int, rr: int|
                0 <= cc < c && 0 <= rr < 4 ==> #[trigger] new_byte_mtrx[cc][rr] == orig[(cc + 4
                    - rr) % 4][rr],
            *byte_mtrx == orig,
    {
        for r in 0..4
            invariant
                0 <= c < 4,
                forall|cc: int, rr: int|
                    0 <= cc < 4 && 0 <= rr < 4 && (cc < c || (cc == c && rr < r))
                        ==> #[trigger] new_byte_mtrx[cc][rr] == orig[(cc + 4 - rr) % 4][rr],
                *byte_mtrx == orig,
        {
            let mut column = new_byte_mtrx[c];
            column[r] = byte_mtrx[(c + 4 - r) % 4][r];
            new_byte_mtrx[c] = column;
        }
    }
    *byte_mtrx = new_byte_mtrx;
    assert forall|i: int| 0 <= i < 16 implies st(*byte_mtrx)[i] == inv_shift_s(st(orig))[i] by {
        assert(0 <= inv_shift_src(i) < 16);
    }
    assert(st(*byte_mtrx) =~= inv_shift_s(st(orig)));
}

/// Replaces every column by its product with the forward constant word.
pub fn mix_columns(byte_mtrx: &mut [[u8; 4]; 4])
    ensures
        st(*final(byte_mtrx)) == mix_s(st(*old(byte_mtrx))),
{
    let ghost orig: [[u8; 4]; 4] = *byte_mtrx;
    let const_word: [u8; 4] = [0x02, 0x01, 0x01, 0x03];
    let mut new_byte_mtrx: [[u8; 4]; 4] = [[0u8; 4]; 4];
    for c in 0..4
        invariant
            const_word@ =~= mix_word(),
            forall|cc: int, rr: int|
                0 <= cc < c && 0 <= rr < 4 ==> #[trigger] new_byte_mtrx[cc][rr] == conv_byte(
                    orig[cc]@,
                    mix_word(),
                    rr,
                ),
            *byte_mtrx == orig,
    {
        let product = word_mult(byte_mtrx[c], const_word);
        new_byte_mtrx[c] = product;
    }
    *byte_mtrx = new_byte_mtrx;
    assert forall|i: int| 0 <= i < 16 implies st(*byte_mtrx)[i] == mix_s(st(orig))[i] by {
        assert(col(st(orig), i / 4) =~= orig[i / 4]@);
    }
    assert(st(*byte_mtrx) =~= mix_s(st(orig)));
}

/// Replaces every column by its product with the inverse constant word.
/// Multiplying by the inverse polynomial alone inverts `mix_columns`
/// exactly (`lemma_mix_inverse` proves it), so no further rearrangement
/// of the column is needed.
pub fn inv_mix_columns(byte_mtrx: &mut [[u8; 4]; 4])
    ensures
        st(*final(byte_mtrx)) == inv_mix_s(st(*old(byte_mtrx))),
{
    let ghost orig: [[u8; 4]; 4] = *byte_mtrx;
    let const_word: [u8; 4] = [0x0E, 0x09, 0x0D, 0x0B];
    let mut new_byte_mtrx: [[u8; 4]; 4] = [[0u8; 4]; 4];
    for c in 0..4
        invariant
            const_word@ =~= inv_mix_word(),
            forall|cc: int, rr: int|
                0 <= cc < c && 0 <= rr < 4 ==> #[trigger] new_byte_mtrx[cc][rr] == conv_byte(
                    orig[cc]@,
                    inv_mix_word(),
                    rr,
                ),
            *byte_mtrx == orig,
    {
        let product = word_mult(byte_mtrx[c], const_word);
        new_byte_mtrx[c] = product;
    }
    *byte_mtrx = new_byte_mtrx;
    assert forall|i: int| 0 <= i < 16 implies st(*byte_mtrx)[i] == inv_mix_s(st(orig))[i] by {
        assert(col(st(orig), i / 4) =~= orig[i / 4]@);
    }
    assert(st(*byte_mtrx) =~= inv_mix_s(st(orig)));
}

/// XORs a 16-byte round key into the state, byte for byte.
pub fn add_round_key(s: &mut [[u8; 4]; 4], round_key: [[u8; 4]; 4])
    ensures
        st(*final(s)) == ark_s(st(*old(s)), wd(round_key)),
{
    let ghost orig: [[u8; 4]; 4] = *s;
    for c in 0..4
        invariant
            forall|cc: int, rr: int|
                0 <= cc < 4 && 0 <= rr < 4 ==> #[trigger] s[cc][rr] == (if cc < c {
                    orig[cc][rr] ^ round_key[cc][rr]
                } else {
                    orig[cc][rr]
                }),
    {
        for r in 0..4
            invariant
                0 <= c < 4,
                forall|cc: int, rr: int|
                    0 <= cc < 4 && 0 <= rr < 4 ==> #[trigger] s[cc][rr] == (if cc < c || (cc == c
                        && rr < r) {
                        orig[cc][rr] ^ round_key[cc][rr]
                    } else {
                        orig[cc][rr]
                    }),
        {
            let mut column = s[c];
            column[r] = column[r] ^ round_key[c][r];
            s[c] = column;
        }
    }
    assert(st(*s) =~= ark_s(st(orig), wd(round_key)));
}

} // verus!
