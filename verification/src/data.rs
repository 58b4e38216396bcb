//! The block codec and the byte-level drivers.  An input byte stream is
//! zero-padded up to the least common multiple of its length and the
//! 16-byte block size, split into blocks, and each block viewed as a
//! 4x4 column-major state.  The padding is not self-describing: nothing
//! records how many zero bytes were appended, so decryption returns the
//! padded stream, never the original length.

use vstd::prelude::*;
use vstd::arithmetic::div_mod::{
    lemma_fundamental_div_mod, lemma_fundamental_div_mod_converse, lemma_div_by_multiple,
    lemma_mod_multiples_basic,
};
use crate::state::st;
use crate::schedule::{ks_flat, ksv, key_expansion};
use crate::cipher::{enc_spec, dec_spec, lemma_cipher_round_trip, cipher, inv_cipher};

verus! {

/// The greatest common divisor by Euclid's rule: `gcd(a, 0) == a` and
/// `gcd(a, b) == gcd(b, a % b)` for `b != 0`.
pub open spec fn gcd_spec(a: nat, b: nat) -> nat
    decreases b,
{
    if b == 0 {
        a
    } else {
        gcd_spec(b, a % b)
    }
}

/// `d` divides `n`.
pub open spec fn divides(d: nat, n: nat) -> bool {
    exists|k: nat| n == #[trigger] (d * k)
}

/// The least common multiple, written through the divisor as
/// `(a / gcd(a, b)) * b`.
pub open spec fn lcm_spec(a: nat, b: nat) -> nat {
    (a / gcd_spec(a, b)) * b
}

/// The length a byte stream is padded to: the least common multiple of
/// its length and the block size.
pub open spec fn padded_len(n: nat) -> nat {
    lcm_spec(n, 16)
}

/// A byte stream zero-extended to its padded length.
pub open spec fn padded_spec(p: Seq<u8>) -> Seq<u8> {
    p + Seq::new((padded_len(p.len()) - p.len()) as nat, |i: int| 0u8)
}

/// Block `j` of a byte stream: its bytes `16*j .. 16*j + 16`.
pub open spec fn block_at(s: Seq<u8>, j: int) -> Seq<u8>
    recommends
        0 <= j,
        16 * j + 16 <= s.len(),
{
    s.subrange(16 * j, 16 * j + 16)
}

/// The encryption of a byte stream: pad, then encrypt each 16-byte
/// block independently with the schedule expanded from the key.
pub open spec fn enc_bytes_spec(p: Seq<u8>, key: Seq<u8>) -> Seq<u8>
    recommends
        key.len() == 16,
{
    let q = padded_spec(p);
    Seq::new(q.len(), |i: int| enc_spec(block_at(q, i / 16), ks_flat(key))[i % 16])
}

/// The decryption of a byte stream: pad (a no-op on any whole number of
/// blocks), then decrypt each block independently.
pub open spec fn dec_bytes_spec(c: Seq<u8>, key: Seq<u8>) -> Seq<u8>
    recommends
        key.len() == 16,
{
    let q = padded_spec(c);
    Seq::new(q.len(), |i: int| dec_spec(block_at(q, i / 16), ks_flat(key))[i % 16])
}

/// A positive argument keeps the greatest common divisor positive.
pub proof fn lemma_gcd_pos(a: nat, b: nat)
    requires
        a > 0 || b > 0,
    ensures
        gcd_spec(a, b) > 0,
    decreases b,
{
    if b > 0 {
        assert(gcd_spec(a, b) == gcd_spec(b, a % b));
        if a % b == 0 {
            assert(gcd_spec(b, 0) == b);
        } else {
            lemma_gcd_pos(b, a % b);
        }
    }
}

/// The greatest common divisor divides both of its arguments.
pub proof fn lemma_gcd_divides(a: nat, b: nat)
    ensures
        divides(gcd_spec(a, b), a),
        divides(gcd_spec(a, b), b),
    decreases b,
{
    if b == 0 {
        assert(a == a * 1);
        assert(0 == a * 0);
    } else {
        let g: nat = gcd_spec(b, a % b);
        lemma_gcd_divides(b, a % b);
        let k1: nat = choose|k: nat| b == #[trigger] (g * k);
        let k2: nat = choose|k: nat| (a % b) == #[trigger] (g * k);
        let q: nat = a / b;
        lemma_fundamental_div_mod(a as int, b as int);
        assert(a == g * (k1 * q + k2)) by (nonlinear_arith)
            requires
                a == b * q + (a % b),
                b == g * k1,
                (a % b) == g * k2,
        ;
    }
}

/// What the padded length guarantees: it is a whole number of blocks,
/// at least the input length, at most sixteen times it, and already
/// block-aligned input is left alone.
pub proof fn lemma_padded_len(n: nat)
    ensures
        padded_len(n) % 16 == 0,
        padded_len(n) >= n,
        padded_len(n) <= n * 16,
        n % 16 == 0 ==> padded_len(n) == n,
{
    let g: nat = gcd_spec(n, 16);
    lemma_gcd_pos(n, 16);
    lemma_gcd_divides(n, 16);
    assert(divides(g, n));
    assert(divides(g, 16));
    let k: nat = choose|kk: nat| n == #[trigger] (g * kk);
    let k3: nat = choose|kk: nat| 16 == #[trigger] (g * kk);
    assert(n == g * k);
    assert(16 == g * k3);
    lemma_div_by_multiple(k as int, g as int);
    assert(n / g == k);
    assert(padded_len(n) == k * 16);
    lemma_mod_multiples_basic(k as int, 16);
    if k3 == 0 {
        assert(16 == g * 0);
        assert(false);
    }
    assert(g <= 16) by (nonlinear_arith)
        requires
            16 == g * k3,
            k3 >= 1,
            g >= 0,
    ;
    assert(k * 16 >= n) by (nonlinear_arith)
        requires
            n == g * k,
            g <= 16,
    ;
    assert(k * 16 <= n * 16) by (nonlinear_arith)
        requires
            n == g * k,
            g >= 1,
    ;
    if n % 16 == 0 {
        assert(gcd_spec(n, 16) == gcd_spec(16, n % 16));
        assert(g == 16);
        lemma_fundamental_div_mod(n as int, 16);
        assert(padded_len(n) == n);
    }
}

/// Byte `16*j + t` of a stream sits in block `j` at offset `t`.
pub proof fn lemma_block_index(j: int, t: int)
    requires
        0 <= j,
        0 <= t < 16,
    ensures
        (16 * j + t) / 16 == j,
        (16 * j + t) % 16 == t,
{
    lemma_fundamental_div_mod_converse(16 * j + t, 16, j, t);
}

/// Decrypting an encrypted byte stream with the same key gives back the
/// padded plaintext: every byte of the original, with the zero padding
/// retained, since nothing records where the padding began.
#[verifier::rlimit(100)]
pub proof fn lemma_file_round_trip(p: Seq<u8>, key: Seq<u8>)
    requires
        key.len() == 16,
    ensures
        dec_bytes_spec(enc_bytes_spec(p, key), key) == padded_spec(p),
{
    let q = padded_spec(p);
    let e = enc_bytes_spec(p, key);
    lemma_padded_len(p.len());
    assert(q.len() == padded_len(p.len()));
    assert(e.len() == q.len());
    lemma_padded_len(e.len());
    assert(padded_spec(e) =~= e);
    let d = dec_bytes_spec(e, key);
    assert forall|i: int| 0 <= i < q.len() implies d[i] == q[i] by {
        let j = i / 16;
        let t = i % 16;
        lemma_fundamental_div_mod(i, 16);
        assert(0 <= t < 16);
        assert(16 * j + 16 <= q.len()) by {
            lemma_fundamental_div_mod(q.len() as int, 16);
        }
        assert(block_at(e, j) =~= enc_spec(block_at(q, j), ks_flat(key))) by {
            assert forall|u: int| 0 <= u < 16 implies block_at(e, j)[u] == enc_spec(
                block_at(q, j),
                ks_flat(key),
            )[u] by {
                lemma_block_index(j, u);
                assert(e[16 * j + u] == enc_spec(
                    block_at(q, (16 * j + u) / 16),
                    ks_flat(key),
                )[(16 * j + u) % 16]);
            }
        }
        lemma_cipher_round_trip(block_at(q, j), ks_flat(key));
        assert(d[i] == dec_spec(block_at(e, j), ks_flat(key))[t]);
        assert(d[i] == block_at(q, j)[t]);
    }
    assert(d =~= q);
}

/// Euclid's algorithm, iteratively.
pub fn gcd(a: usize, b: usize) -> (r: usize)
    ensures
        r as nat == gcd_spec(a as nat, b as nat),
{
    let mut x = a;
    let mut y = b;
    while y != 0
        invariant
            gcd_spec(x as nat, y as nat) == gcd_spec(a as nat, b as nat),
        decreases y,
    {
        let t = x % y;
        x = y;
        y = t;
    }
    x
}

/// The least common multiple, `(a / gcd(a, b)) * b`.  At least one
/// argument must be nonzero, and the result must fit in a machine word.
pub fn lcm(a: usize, b: usize) -> (r: usize)
    requires
        a > 0 || b > 0,
        lcm_spec(a as nat, b as nat) <= usize::MAX as nat,
    ensures
        r as nat == lcm_spec(a as nat, b as nat),
{
    let g = gcd(a, b);
    proof {
        lemma_gcd_pos(a as nat, b as nat);
    }
    (a / g) * b
}

/// A byte stream together with its padded block and state views.  The
/// three fields describe the same data: `blocks` chops the padded
/// `bytes` into 16-byte pieces, and each entry of `state` is the same
/// block as a 4x4 column-major matrix.
#[derive(Debug)]
pub struct Data {
    pub bytes: Vec<u8>,
    pub blocks: Vec<[u8; 16]>,
    pub state: Vec<[[u8; 4]; 4]>,
}

impl Data {
    /// An empty container: no bytes, no blocks, no states.
    pub fn new() -> (d: Data)
        ensures
            d.bytes@.len() == 0,
            d.blocks@.len() == 0,
            d.state@.len() == 0,
    {
        Data { bytes: Vec::new(), blocks: Vec::new(), state: Vec::new() }
    }

    /// Pads a byte stream with zeros to the least common multiple of its
    /// length and 16, then splits it into blocks and states.
    pub fn from_bytes(bytes: Vec<u8>) -> (d: Data)
        requires
            bytes@.len() <= usize::MAX as nat / 16,
        ensures
            d.bytes@ == padded_spec(bytes@),
            d.blocks@.len() == d.bytes@.len() / 16,
            d.state@.len() == d.blocks@.len(),
            forall|j: int|
                0 <= j < d.blocks@.len() ==> #[trigger] d.blocks@[j]@ == block_at(d.bytes@, j),
            forall|j: int| 0 <= j < d.state@.len() ==> #[trigger] st(d.state@[j]) == d.blocks@[j]@,
    {
        let ghost p0 = bytes@;
        let mut bytes = bytes;
        let n = bytes.len();
        proof {
            lemma_padded_len(n as nat);
            lemma_fundamental_div_mod(usize::MAX as int, 16);
        }
        let target = lcm(n, 16);
        while bytes.len() < target
            invariant
                target as nat == padded_len(p0.len()),
                p0.len() <= bytes@.len() <= target as nat,
                bytes@.subrange(0, p0.len() as int) == p0,
                forall|i: int| p0.len() <= i < bytes@.len() ==> bytes@[i] == 0,
            decreases target - bytes.len(),
        {
            bytes.push(0);
            proof {
                assert(bytes@.subrange(0, p0.len() as int) =~= p0);
            }
        }
        proof {
            assert(bytes@ =~= padded_spec(p0));
        }
        let blen = bytes.len();
        let num_blocks = blen / 16;
        proof {
            lemma_fundamental_div_mod(bytes@.len() as int, 16);
            lemma_padded_len(p0.len());
        }
        let mut blocks: Vec<[u8; 16]> = Vec::new();
        for i in 0..num_blocks
            invariant
                num_blocks as nat == bytes@.len() / 16,
                bytes@.len() == 16 * num_blocks,
                bytes@.len() == blen,
                blocks@.len() == i,
                forall|j: int| 0 <= j < i ==> #[trigger] blocks@[j]@ == block_at(bytes@, j),
        {
            let mut tmp_block = [0u8; 16];
            for j in 0..16
                invariant
                    num_blocks as nat == bytes@.len() / 16,
                    bytes@.len() == 16 * num_blocks,
                    bytes@.len() == blen,
                    i < num_blocks,
                    forall|t: int| 0 <= t < j ==> #[trigger] tmp_block[t] == bytes@[16 * (i as int) + t],
            {
                tmp_block[j] = bytes[16 * i + j];
            }
            blocks.push(tmp_block);
            proof {
                assert(blocks@[i as int]@ =~= block_at(bytes@, i as int));
            }
        }
        let mut state: Vec<[[u8; 4]; 4]> = Vec::new();
        for i in 0..num_blocks
            invariant
                blocks@.len() == num_blocks,
                state@.len() == i,
                forall|j: int| 0 <= j < i ==> #[trigger] st(state@[j]) == blocks@[j]@,
        {
            let block = blocks[i];
            let mut byte_mtrx: [[u8; 4]; 4] = [[0u8; 4]; 4];
            for c in 0..4
                invariant
                    forall|cc: int, rr: int|
                        0 <= cc < c && 0 <= rr < 4 ==> #[trigger] byte_mtrx[cc][rr] == block[4 * cc
                            + rr],
            {
                let mut tmp_col = [0u8; 4];
                for r in 0..4
                    invariant
                        c < 4,
                        forall|t: int| 0 <= t < r ==> #[trigger] tmp_col[t] == block[4 * (c as int) + t],
                        forall|cc: int, rr: int|
                            0 <= cc < c && 0 <= rr < 4 ==> #[trigger] byte_mtrx[cc][rr] == block[4
                                * cc + rr],
                {
                    tmp_col[r] = block[4 * c + r];
                }
                byte_mtrx[c] = tmp_col;
            }
            state.push(byte_mtrx);
            proof {
                assert(st(state@[i as int]) =~= blocks@[i as int]@);
            }
        }
        Data { bytes, blocks, state }
    }

    /// Reassembles the states into one byte stream, column-major, in
    /// block order: the exact inverse arrangement of `from_bytes`.
    pub fn to_bytes(&self) -> (r: Vec<u8>)
        ensures
            r@.len() == 16 * self.state@.len(),
            forall|i: int| 0 <= i < r@.len() ==> #[trigger] r@[i] == st(self.state@[i / 16])[i % 16],
    {
        let mut out: Vec<u8> = Vec::new();
        let n = self.state.len();
        for i in 0..n
            invariant
                n == self.state@.len(),
                out@.len() == 16 * i,
                forall|t: int| 0 <= t < out@.len() ==> #[trigger] out@[t] == st(
                    self.state@[t / 16],
                )[t % 16],
        {
            let byte_mtrx = self.state[i];
            for c in 0..4
                invariant
                    n == self.state@.len(),
                    i < n,
                    byte_mtrx == self.state@[i as int],
                    out@.len() == 16 * i + 4 * c,
                    forall|t: int| 0 <= t < out@.len() ==> #[trigger] out@[t] == st(
                        self.state@[t / 16],
                    )[t % 16],
            {
                for r in 0..4
                    invariant
                        n == self.state@.len(),
                        i < n,
                        c < 4,
                        byte_mtrx == self.state@[i as int],
                        out@.len() == 16 * i + 4 * c + r,
                        forall|t: int| 0 <= t < out@.len() ==> #[trigger] out@[t] == st(
                            self.state@[t / 16],
                        )[t % 16],
                {
                    out.push(byte_mtrx[c][r]);
                    proof {
                        let t = out@.len() - 1;
                        lemma_block_index(i as int, 4 * c + r);
                        assert(out@[t] == st(self.state@[t / 16])[t % 16]);
                    }
                }
            }
        }
        out
    }
}

/// Expands the key and encrypts every state of the container in place;
/// the schedule is read-only and every block is processed independently.
pub fn encrypt(data: &mut Data, key: [u8; 16])
    ensures
        final(data).bytes == old(data).bytes,
        final(data).blocks == old(data).blocks,
        final(data).state@.len() == old(data).state@.len(),
        forall|i: int|
            0 <= i < old(data).state@.len() ==> #[trigger] st(final(data).state@[i]) == enc_spec(
                st(old(data).state@[i]),
                ks_flat(key@),
            ),
{
    let key_schedule = key_expansion(key);
    proof {
        assert(ksv(key_schedule) == ks_flat(key@));
    }
    let n = data.state.len();
    for i in 0..n
        invariant
            n == data.state@.len(),
            data.bytes == old(data).bytes,
            data.blocks == old(data).blocks,
            ksv(key_schedule) == ks_flat(key@),
            forall|j: int| i <= j < n ==> #[trigger] data.state@[j] == old(data).state@[j],
            forall|j: int|
                0 <= j < i ==> #[trigger] st(data.state@[j]) == enc_spec(
                    st(old(data).state@[j]),
                    ks_flat(key@),
                ),
    {
        let mut m = data.state[i];
        cipher(&mut m, key_schedule);
        data.state.set(i, m);
    }
}

/// Expands the key and decrypts every state of the container in place.
pub fn decrypt(data: &mut Data, key: [u8; 16])
    ensures
        final(data).bytes == old(data).bytes,
        final(data).blocks == old(data).blocks,
        final(data).state@.len() == old(data).state@.len(),
        forall|i: int|
            0 <= i < old(data).state@.len() ==> #[trigger] st(final(data).state@[i]) == dec_spec(
                st(old(data).state@[i]),
                ks_flat(key@),
            ),
{
    let key_schedule = key_expansion(key);
    proof {
        assert(ksv(key_schedule) == ks_flat(key@));
    }
    let n = data.state.len();
    for i in 0..n
        invariant
            n == data.state@.len(),
            data.bytes == old(data).bytes,
            data.blocks == old(data).blocks,
            ksv(key_schedule) == ks_flat(key@),
            forall|j: int| i <= j < n ==> #[trigger] data.state@[j] == old(data).state@[j],
            forall|j: int|
                0 <= j < i ==> #[trigger] st(data.state@[j]) == dec_spec(
                    st(old(data).state@[j]),
                    ks_flat(key@),
                ),
    {
        let mut m = data.state[i];
        inv_cipher(&mut m, key_schedule);
        data.state.set(i, m);
    }
}

/// Pads and encrypts a whole byte stream with a 16-byte key; the result
/// is always a whole number of blocks.
pub fn encrypt_bytes(plain: Vec<u8>, key: [u8; 16]) -> (r: Vec<u8>)
    requires
        plain@.len() <= usize::MAX as nat / 16,
    ensures
        r@ == enc_bytes_spec(plain@, key@),
{
    let ghost p0 = plain@;
    let mut data = Data::from_bytes(plain);
    encrypt(&mut data, key);
    let out = data.to_bytes();
    proof {
        let q = padded_spec(p0);
        lemma_padded_len(p0.len());
        lemma_fundamental_div_mod(q.len() as int, 16);
        assert forall|i: int| 0 <= i < out@.len() implies out@[i] == enc_bytes_spec(p0, key@)[i]
            by {
            let j = i / 16;
            let t = i % 16;
            lemma_fundamental_div_mod(i, 16);
            assert(st(data.state@[j]) == enc_spec(block_at(q, j), ks_flat(key@)));
        }
        assert(out@ =~= enc_bytes_spec(p0, key@));
    }
    out
}

/// Pads (a no-op on whole blocks) and decrypts a whole byte stream; any
/// zero padding added at encryption time is retained in the result.
pub fn decrypt_bytes(ciphertext: Vec<u8>, key: [u8; 16]) -> (r: Vec<u8>)
    requires
        ciphertext@.len() <= usize::MAX as nat / 16,
    ensures
        r@ == dec_bytes_spec(ciphertext@, key@),
{
    let ghost c0 = ciphertext@;
    let mut data = Data::from_bytes(ciphertext);
    decrypt(&mut data, key);
    let out = data.to_bytes();
    proof {
        let q = padded_spec(c0);
        lemma_padded_len(c0.len());
        lemma_fundamental_div_mod(q.len() as int, 16);
        assert forall|i: int| 0 <= i < out@.len() implies out@[i] == dec_bytes_spec(c0, key@)[i]
            by {
            let j = i / 16;
            let t = i % 16;
            lemma_fundamental_div_mod(i, 16);
            assert(st(data.state@[j]) == dec_spec(block_at(q, j), ks_flat(key@)));
        }
        assert(out@ =~= dec_bytes_spec(c0, key@));
    }
    out
}

} // verus!
