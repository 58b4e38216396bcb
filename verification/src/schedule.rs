//! The round-key schedule: a 16-byte key expanded into 44 words, one
//! 4-word round key for the initial whitening and for each of the 10
//! rounds.  The first 4 words are the key itself; every later word is
//! the XOR of the word 4 places back with the previous word, the
//! previous word first being rotated, substituted and XORed with the
//! round constant whenever its index is a multiple of 4.

use vstd::prelude::*;
use crate::words::{rot_word_s, sub_word_s, wxor, rcon_word, rot_word, sub_word, rcon_xor};

verus! {

broadcast use vstd::array::group_array_axioms;

/// Word `i` of the schedule derived from a 16-byte key.
pub open spec fn ks_word(key: Seq<u8>, i: int) -> Seq<u8>
    recommends
        key.len() == 16,
        0 <= i < 44,
    decreases i,
{
    if i < 4 {
        seq![key[4 * i], key[4 * i + 1], key[4 * i + 2], key[4 * i + 3]]
    } else {
        let prev = ks_word(key, i - 1);
        let t = if i % 4 == 0 {
            wxor(sub_word_s(rot_word_s(prev)), rcon_word(i / 4))
        } else {
            prev
        };
        wxor(ks_word(key, i - 4), t)
    }
}

/// The whole schedule as one flat byte sequence: byte `i` is byte
/// `i % 4` of word `i / 4`.
pub open spec fn ks_flat(key: Seq<u8>) -> Seq<u8>
    recommends
        key.len() == 16,
{
    Seq::new(176, |i: int| ks_word(key, i / 4)[i % 4])
}

/// The flat view of an expanded schedule held as 44 words.
pub open spec fn ksv(ks: [[u8; 4]; 44]) -> Seq<u8> {
    Seq::new(176, |i: int| ks[i / 4][i % 4])
}

/// Expands a 16-byte key into the 44-word round-key schedule.  The
/// expansion is deterministic and total: every key has exactly one
/// schedule, and words 0..4 are the key itself.
pub fn key_expansion(key: [u8; 16]) -> (ks: [[u8; 4]; 44])
    ensures
        forall|i: int| 0 <= i < 44 ==> #[trigger] ks[i]@ == ks_word(key@, i),
        ksv(ks) == ks_flat(key@),
{
    let mut ks: [[u8; 4]; 44] = [[0u8; 4]; 44];
    for i in 0..4
        invariant
            forall|j: int| 0 <= j < i ==> #[trigger] ks[j]@ == ks_word(key@, j),
    {
        ks[i] = [key[4 * i], key[4 * i + 1], key[4 * i + 2], key[4 * i + 3]];
        proof {
            assert(ks[i as int]@ =~= ks_word(key@, i as int));
        }
    }
    for i in 4..44
        invariant
            forall|j: int| 0 <= j < i ==> #[trigger] ks[j]@ == ks_word(key@, j),
    {
        let mut temp: [u8; 4] = ks[i - 1];
        if i % 4 == 0 {
            temp = rcon_xor(sub_word(rot_word(temp)), i / 4);
            proof {
                assert(rot_word_s(ks_word(key@, i - 1)).len() == 4);
            }
        }
        let prev4: [u8; 4] = ks[i - 4];
        ks[i] = [prev4[0] ^ temp[0], prev4[1] ^ temp[1], prev4[2] ^ temp[2], prev4[3] ^ temp[3]];
        proof {
            assert(ks[i as int]@ =~= wxor(prev4@, temp@));
            assert(wxor(prev4@, temp@) =~= ks_word(key@, i as int));
        }
    }
    proof {
        assert(ksv(ks) =~= ks_flat(key@));
    }
    ks
}

} // verus!
