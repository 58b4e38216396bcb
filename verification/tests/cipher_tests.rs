use aes128::cipher::{cipher, inv_cipher};
use aes128::data::{gcd, lcm, Data, encrypt, decrypt, encrypt_bytes, decrypt_bytes};
use aes128::field::{multiply, pow, inverse};
use aes128::sbox::{s_box, inv_s_box};
use aes128::schedule::key_expansion;
use aes128::words::{word_mult, rot_word, sub_word, rcon_xor};

const KEYSIZE: usize = 128;

#[test]
fn test_key_expansion() {
    if KEYSIZE == 128 {
        let key: [u8; 16] = [
            0x2b, 0x7e, 0x15, 0x16, 0x27, 0xae, 0xd2, 0xa6, 0xab, 0xf7, 0x15, 0x88, 0x09, 0xcf,
            0x4f, 0x3c,
        ];
        let key_schedule: [[u8; 4]; 44] = key_expansion(key);
        assert_eq!(key_schedule[4], [0xa0, 0xfa, 0xfe, 0x17]);
    }
}

const FIPS_KEY: [u8; 16] = [
    0x2b, 0x7e, 0x15, 0x16, 0x28, 0xae, 0xd2, 0xa6, 0xab, 0xf7, 0x15, 0x88, 0x09, 0xcf, 0x4f,
    0x3c,
];

#[test]
fn test_key_expansion_later_words() {
    let ks = key_expansion(FIPS_KEY);
    assert_eq!(ks[0], [0x2b, 0x7e, 0x15, 0x16]);
    assert_eq!(ks[3], [0x09, 0xcf, 0x4f, 0x3c]);
    assert_eq!(ks[4], [0xa0, 0xfa, 0xfe, 0x17]);
    assert_eq!(ks[10], [0x59, 0x35, 0x80, 0x7a]);
    assert_eq!(ks[43], [0xb6, 0x63, 0x0c, 0xa6]);
}

#[test]
fn test_field_add_is_xor() {
    assert_eq!(aes128::field::add(0x57, 0x83), 0xd4);
    assert_eq!(aes128::field::add(0xff, 0xff), 0x00);
    assert_eq!(aes128::field::add(0x00, 0x2a), 0x2a);
}

#[test]
fn test_field_multiply_known_products() {
    assert_eq!(multiply(0x57, 0x83), 0xc1);
    assert_eq!(multiply(0x57, 0x13), 0xfe);
    assert_eq!(multiply(0x02, 0x80), 0x1b);
    assert_eq!(multiply(0x00, 0xab), 0x00);
    assert_eq!(multiply(0x01, 0xab), 0xab);
}

#[test]
fn test_field_pow() {
    assert_eq!(pow(0x02, 0), 0x01);
    assert_eq!(pow(0x02, 1), 0x02);
    assert_eq!(pow(0x02, 4), 0x10);
    assert_eq!(pow(0x02, 8), 0x1b);
    assert_eq!(pow(0x00, 0), 0x01);
    assert_eq!(pow(0x00, 5), 0x00);
}

#[test]
fn test_field_inverse_all_nonzero() {
    assert_eq!(inverse(0), 0);
    for a in 1..=255u8 {
        let inv = inverse(a);
        assert_eq!(multiply(a, inv), 1);
    }
}

#[test]
fn test_sbox_known_values() {
    assert_eq!(s_box(0x00), 0x63);
    assert_eq!(s_box(0x01), 0x7c);
    assert_eq!(s_box(0x53), 0xed);
    assert_eq!(s_box(0xff), 0x16);
    assert_eq!(inv_s_box(0x63), 0x00);
    assert_eq!(inv_s_box(0xed), 0x53);
}

#[test]
fn test_sbox_involution_all_bytes() {
    for b in 0..=255u8 {
        assert_eq!(inv_s_box(s_box(b)), b);
        assert_eq!(s_box(inv_s_box(b)), b);
    }
}

#[test]
fn test_word_mult_constants_are_inverse() {
    let product = word_mult([0x02, 0x01, 0x01, 0x03], [0x0e, 0x09, 0x0d, 0x0b]);
    assert_eq!(product, [0x01, 0x00, 0x00, 0x00]);
}

#[test]
fn test_word_mult_mix_column_vector() {
    let mixed = word_mult([0xdb, 0x13, 0x53, 0x45], [0x02, 0x01, 0x01, 0x03]);
    assert_eq!(mixed, [0x8e, 0x4d, 0xa1, 0xbc]);
    let unmixed = word_mult(mixed, [0x0e, 0x09, 0x0d, 0x0b]);
    assert_eq!(unmixed, [0xdb, 0x13, 0x53, 0x45]);
}

#[test]
fn test_rot_sub_rcon_words() {
    assert_eq!(rot_word([0x09, 0xcf, 0x4f, 0x3c]), [0xcf, 0x4f, 0x3c, 0x09]);
    assert_eq!(sub_word([0xcf, 0x4f, 0x3c, 0x09]), [0x8a, 0x84, 0xeb, 0x01]);
    assert_eq!(rcon_xor([0x8a, 0x84, 0xeb, 0x01], 1), [0x8b, 0x84, 0xeb, 0x01]);
    assert_eq!(rcon_xor([0x00, 0x00, 0x00, 0x00], 9), [0x1b, 0x00, 0x00, 0x00]);
}

fn state_from_bytes(block: [u8; 16]) -> [[u8; 4]; 4] {
    let mut state = [[0u8; 4]; 4];
    for c in 0..4 {
        for r in 0..4 {
            state[c][r] = block[4 * c + r];
        }
    }
    state
}

fn bytes_from_state(state: [[u8; 4]; 4]) -> [u8; 16] {
    let mut block = [0u8; 16];
    for c in 0..4 {
        for r in 0..4 {
            block[4 * c + r] = state[c][r];
        }
    }
    block
}

const FIPS_PLAIN: [u8; 16] = [
    0x32, 0x43, 0xf6, 0xa8, 0x88, 0x5a, 0x30, 0x8d, 0x31, 0x31, 0x98, 0xa2, 0xe0, 0x37, 0x07,
    0x34,
];

const FIPS_CIPHERTEXT: [u8; 16] = [
    0x39, 0x25, 0x84, 0x1d, 0x02, 0xdc, 0x09, 0xfb, 0xdc, 0x11, 0x85, 0x97, 0x19, 0x6a, 0x0b,
    0x32,
];

#[test]
fn test_cipher_known_answer() {
    let ks = key_expansion(FIPS_KEY);
    let mut state = state_from_bytes(FIPS_PLAIN);
    cipher(&mut state, ks);
    assert_eq!(bytes_from_state(state), FIPS_CIPHERTEXT);
}

#[test]
fn test_inv_cipher_known_answer() {
    let ks = key_expansion(FIPS_KEY);
    let mut state = state_from_bytes(FIPS_CIPHERTEXT);
    inv_cipher(&mut state, ks);
    assert_eq!(bytes_from_state(state), FIPS_PLAIN);
}

#[test]
fn test_cipher_round_trip_other_state() {
    let ks = key_expansion([0xfe; 16]);
    let original = [[0x11, 0x22, 0x33, 0x44], [0x55, 0x66, 0x77, 0x88], [0x99, 0xaa, 0xbb, 0xcc],
        [0xdd, 0xee, 0xff, 0x00]];
    let mut state = original;
    cipher(&mut state, ks);
    assert_ne!(state, original);
    inv_cipher(&mut state, ks);
    assert_eq!(state, original);
}

#[test]
fn test_gcd_lcm() {
    assert_eq!(gcd(12, 18), 6);
    assert_eq!(gcd(0, 5), 5);
    assert_eq!(gcd(5, 0), 5);
    assert_eq!(gcd(16, 16), 16);
    assert_eq!(lcm(4, 6), 12);
    assert_eq!(lcm(5, 16), 80);
    assert_eq!(lcm(32, 16), 32);
    assert_eq!(lcm(0, 16), 0);
}

#[test]
fn test_data_new_is_empty() {
    let data = Data::new();
    assert_eq!(data.bytes.len(), 0);
    assert_eq!(data.blocks.len(), 0);
    assert_eq!(data.state.len(), 0);
}

#[test]
fn test_from_bytes_pads_to_lcm() {
    let data = Data::from_bytes(vec![1, 2, 3, 4, 5]);
    assert_eq!(data.bytes.len(), 80);
    assert_eq!(data.blocks.len(), 5);
    assert_eq!(data.state.len(), 5);
    assert_eq!(&data.bytes[..5], &[1, 2, 3, 4, 5]);
    assert!(data.bytes[5..].iter().all(|&b| b == 0));

    let aligned = Data::from_bytes(vec![7u8; 32]);
    assert_eq!(aligned.bytes.len(), 32);
    assert_eq!(aligned.blocks.len(), 2);

    let empty = Data::from_bytes(Vec::new());
    assert_eq!(empty.bytes.len(), 0);
    assert_eq!(empty.blocks.len(), 0);
}

#[test]
fn test_to_bytes_inverts_from_bytes() {
    let input: Vec<u8> = (0u8..48).collect();
    let data = Data::from_bytes(input.clone());
    assert_eq!(data.to_bytes(), input);
}

#[test]
fn test_encrypt_decrypt_data_round_trip() {
    let key = [0x42u8; 16];
    let input: Vec<u8> = (0u8..32).collect();
    let mut data = Data::from_bytes(input.clone());
    encrypt(&mut data, key);
    decrypt(&mut data, key);
    assert_eq!(data.to_bytes(), input);
}

#[test]
fn test_encrypt_bytes_known_answer() {
    let out = encrypt_bytes(FIPS_PLAIN.to_vec(), FIPS_KEY);
    assert_eq!(out, FIPS_CIPHERTEXT.to_vec());
}

#[test]
fn test_file_round_trip_with_padding() {
    let key = [0x5au8; 16];
    let plain: Vec<u8> = vec![10, 20, 30];
    let ciphertext = encrypt_bytes(plain.clone(), key);
    assert_eq!(ciphertext.len(), 48);
    let recovered = decrypt_bytes(ciphertext, key);
    let mut padded = plain.clone();
    padded.resize(48, 0);
    assert_eq!(recovered, padded);
}

#[test]
fn test_encryption_deterministic() {
    let key = [0x77u8; 16];
    let plain: Vec<u8> = (0u8..100).collect();
    let first = encrypt_bytes(plain.clone(), key);
    let second = encrypt_bytes(plain.clone(), key);
    assert_eq!(first, second);
}

#[test]
fn test_sbox_moves_most_bytes() {
    let mut changed = 0;
    for b in 0..=255u8 {
        if s_box(b) != b {
            changed += 1;
        }
    }
    assert!(changed >= 250);
}
