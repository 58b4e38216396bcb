//! The cipher driver: the fixed 10-round sequence of transformations
//! over one 16-byte state, forward for encryption and backward for
//! decryption, consuming the round keys of an expanded schedule.

use vstd::prelude::*;
use crate::state::{
    st, wd, sub_s, inv_sub_s, shift_s, inv_shift_s, mix_s, inv_mix_s, ark_s, lemma_sub_inverse,
    lemma_shift_inverse, lemma_mix_inverse, lemma_ark_inverse, sub_bytes, inv_sub_bytes,
    shift_rows, inv_shift_rows, mix_columns, inv_mix_columns, add_round_key,
};
use crate::schedule::ksv;

verus! {

broadcast use vstd::array::group_array_axioms;

/// Round key `round` of a flat 176-byte schedule: its bytes
/// `16*round .. 16*round + 16`.
pub open spec fn rk(ks: Seq<u8>, round: int) -> Seq<u8>
    recommends
        ks.len() == 176,
        0 <= round <= 10,
{
    ks.subrange(16 * round, 16 * round + 16)
}

/// The state after encryption round `i`: round 0 is the initial key
/// whitening, rounds 1..10 substitute, shift, mix and add the round key.
/// Kept opaque so that callers reason through the round lemmas rather
/// than by unrolling ten rounds of definitions.
#[verifier::opaque]
pub open spec fn enc_state(s: Seq<u8>, ks: Seq<u8>, i: int) -> Seq<u8>
    recommends
        s.len() == 16,
        ks.len() == 176,
        0 <= i <= 9,
    decreases i,
{
    if i <= 0 {
        ark_s(s, rk(ks, 0))
    } else {
        ark_s(mix_s(shift_s(sub_s(enc_state(s, ks, i - 1)))), rk(ks, i))
    }
}

/// The ciphertext state: the final round substitutes and shifts but does
/// not mix, then adds round key 10.
pub open spec fn enc_spec(s: Seq<u8>, ks: Seq<u8>) -> Seq<u8>
    recommends
        s.len() == 16,
        ks.len() == 176,
{
    ark_s(shift_s(sub_s(enc_state(s, ks, 9))), rk(ks, 10))
}

/// The decryption rounds still to be applied when the next round key to
/// use is `i`: each step undoes the shift and the substitution, adds
/// round key `i` and undoes the mix; the last step (key 0) has no mix.
/// Opaque for the same reason as `enc_state`.
#[verifier::opaque]
pub open spec fn dec_loop(u: Seq<u8>, ks: Seq<u8>, i: int) -> Seq<u8>
    recommends
        u.len() == 16,
        ks.len() == 176,
        0 <= i <= 9,
    decreases i,
{
    if i <= 0 {
        ark_s(inv_sub_s(inv_shift_s(u)), rk(ks, 0))
    } else {
        dec_loop(inv_mix_s(ark_s(inv_sub_s(inv_shift_s(u)), rk(ks, i))), ks, i - 1)
    }
}

/// The plaintext state recovered from a ciphertext state: add round key
/// 10 first, then run the decryption rounds down from 9.
pub open spec fn dec_spec(t: Seq<u8>, ks: Seq<u8>) -> Seq<u8>
    recommends
        t.len() == 16,
        ks.len() == 176,
{
    dec_loop(ark_s(t, rk(ks, 10)), ks, 9)
}

/// Decryption undoes encryption round by round: the rounds still to be
/// undone at index `i` recover the state from before round 1..i were
/// applied.
proof fn lemma_rounds(s: Seq<u8>, ks: Seq<u8>, i: int)
    requires
        s.len() == 16,
        ks.len() == 176,
        0 <= i <= 9,
    ensures
        dec_loop(shift_s(sub_s(enc_state(s, ks, i))), ks, i) == s,
    decreases i,
{
    reveal_with_fuel(enc_state, 2);
    reveal_with_fuel(dec_loop, 2);
    if i == 0 {
        let a0 = ark_s(s, rk(ks, 0));
        lemma_shift_inverse(sub_s(a0));
        lemma_sub_inverse(a0);
        lemma_ark_inverse(s, rk(ks, 0));
    } else {
        let sprev = enc_state(s, ks, i - 1);
        let m = mix_s(shift_s(sub_s(sprev)));
        let si = enc_state(s, ks, i);
        lemma_shift_inverse(sub_s(si));
        lemma_sub_inverse(si);
        lemma_ark_inverse(m, rk(ks, i));
        lemma_mix_inverse(shift_s(sub_s(sprev)));
        lemma_rounds(s, ks, i - 1);
    }
}

/// Decrypting an encrypted state with the same schedule gives the state
/// back, for every 16-byte state and every 176-byte schedule.
pub proof fn lemma_cipher_round_trip(s: Seq<u8>, ks: Seq<u8>)
    requires
        s.len() == 16,
        ks.len() == 176,
    ensures
        dec_spec(enc_spec(s, ks), ks) == s,
{
    let e9 = enc_state(s, ks, 9);
    lemma_ark_inverse(shift_s(sub_s(e9)), rk(ks, 10));
    lemma_rounds(s, ks, 9);
}

/// Encryption depends on nothing but the state and the schedule: equal
/// inputs give byte-identical ciphertext, so repeating an encryption
/// can never change its result.
pub proof fn lemma_cipher_deterministic(s1: Seq<u8>, ks1: Seq<u8>, s2: Seq<u8>, ks2: Seq<u8>)
    requires
        s1 == s2,
        ks1 == ks2,
    ensures
        enc_spec(s1, ks1) == enc_spec(s2, ks2),
{
}

/// Copies words `4*round .. 4*round + 4` of the schedule into a round
/// key.
fn round_key_of(key_schedule: &[[u8; 4]; 44], round: usize) -> (rkey: [[u8; 4]; 4])
    requires
        round <= 10,
    ensures
        wd(rkey) == rk(ksv(*key_schedule), round as int),
{
    let mut rkey: [[u8; 4]; 4] = [[0u8; 4]; 4];
    for j in 0..4
        invariant
            round <= 10,
            forall|jj: int| 0 <= jj < j ==> #[trigger] rkey[jj] == key_schedule[4 * round + jj],
    {
        rkey[j] = key_schedule[4 * round + j];
    }
    proof {
        assert(wd(rkey) =~= rk(ksv(*key_schedule), round as int));
    }
    rkey
}

/// Encrypts one state in place: key whitening, nine full rounds, and a
/// final round without the column mix.
pub fn cipher(byte_mtrx: &mut [[u8; 4]; 4], key_schedule: [[u8; 4]; 44])
    ensures
        st(*final(byte_mtrx)) == enc_spec(st(*old(byte_mtrx)), ksv(key_schedule)),
{
    let ghost s0 = st(*old(byte_mtrx));
    let ghost ks = ksv(key_schedule);
    let round_key = round_key_of(&key_schedule, 0);
    add_round_key(byte_mtrx, round_key);
    proof {
        reveal_with_fuel(enc_state, 1);
        assert(st(*byte_mtrx) == enc_state(s0, ks, 0));
    }
    for i in 1..10
        invariant
            st(*byte_mtrx) == enc_state(s0, ks, i - 1),
            ks == ksv(key_schedule),
    {
        sub_bytes(byte_mtrx);
        shift_rows(byte_mtrx);
        mix_columns(byte_mtrx);
        let round_key = round_key_of(&key_schedule, i);
        add_round_key(byte_mtrx, round_key);
        proof {
            reveal_with_fuel(enc_state, 1);
            assert(st(*byte_mtrx) == enc_state(s0, ks, i as int));
        }
    }
    sub_bytes(byte_mtrx);
    shift_rows(byte_mtrx);
    let round_key = round_key_of(&key_schedule, 10);
    add_round_key(byte_mtrx, round_key);
}

/// Decrypts one state in place, running the inverse transformations in
/// the reverse round order.
pub fn inv_cipher(byte_mtrx: &mut [[u8; 4]; 4], key_schedule: [[u8; 4]; 44])
    ensures
        st(*final(byte_mtrx)) == dec_spec(st(*old(byte_mtrx)), ksv(key_schedule)),
{
    let ghost t0 = st(*old(byte_mtrx));
    let ghost ks = ksv(key_schedule);
    let round_key = round_key_of(&key_schedule, 10);
    add_round_key(byte_mtrx, round_key);
    let mut i: usize = 9;
    while i >= 1
        invariant
            i <= 9,
            ks == ksv(key_schedule),
            dec_loop(st(*byte_mtrx), ks, i as int) == dec_spec(t0, ks),
        decreases i,
    {
        let ghost before = st(*byte_mtrx);
        inv_shift_rows(byte_mtrx);
        inv_sub_bytes(byte_mtrx);
        let round_key = round_key_of(&key_schedule, i);
        add_round_key(byte_mtrx, round_key);
        inv_mix_columns(byte_mtrx);
        proof {
            reveal_with_fuel(dec_loop, 1);
            assert(dec_loop(before, ks, i as int) == dec_loop(st(*byte_mtrx), ks, i - 1));
        }
        i = i - 1;
    }
    let ghost before = st(*byte_mtrx);
    inv_shift_rows(byte_mtrx);
    inv_sub_bytes(byte_mtrx);
    let round_key = round_key_of(&key_schedule, 0);
    add_round_key(byte_mtrx, round_key);
    proof {
        reveal_with_fuel(dec_loop, 1);
        assert(st(*byte_mtrx) == dec_loop(before, ks, 0));
    }
}

} // verus!
