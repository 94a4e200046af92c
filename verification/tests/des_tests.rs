use ciphers::algorithms::data_encryption_standard::{
    des_decrypt_bits, des_encrypt_bits, final_permutation, initial_permutation, key_schedule,
    DataEncryptionStandardAlg,
};
use ciphers::ops::make_64bits_blocks;
use ciphers::tables::{initial_permutation_table, sbox_tables};
use ciphers::Operations;

fn hex_to_bits(hex: &str) -> Vec<u8> {
    let mut bits: Vec<u8> = Vec::new();
    for c in hex.chars() {
        let v: u8 = c.to_digit(16).unwrap() as u8;
        bits.push(v / 8 % 2);
        bits.push(v / 4 % 2);
        bits.push(v / 2 % 2);
        bits.push(v % 2);
    }
    bits
}

#[test]
fn test_initial_permutation() {
    assert_eq!(initial_permutation([[0; 8]; 8]), [[0; 8]; 8]);
    assert_eq!(initial_permutation([[1; 8]; 8]), [[1; 8]; 8]);

    let vec_test = make_64bits_blocks((1..=64).collect())[0];
    assert_eq!(
        initial_permutation(vec_test),
        make_64bits_blocks(initial_permutation_table())[0]
    );
}

#[test]
fn test_final_permutation() {
    assert_eq!(final_permutation([[0; 8]; 8]), [[0; 8]; 8]);
    assert_eq!(final_permutation([[1; 8]; 8]), [[1; 8]; 8]);

    let vec_test = make_64bits_blocks((1..=64).collect())[0];
    assert_eq!(
        final_permutation(vec_test),
        make_64bits_blocks(ciphers::tables::final_permutation_table())[0]
    );
}

#[test]
fn test_initial_then_final_permutation_is_identity() {
    let block = make_64bits_blocks((1..=64).collect())[0];
    assert_eq!(final_permutation(initial_permutation(block)), block);
}

#[test]
fn test_des_known_vector() {
    // The classical worked example of the standard: key 133457799BBCDFF1
    // encrypts plaintext 0123456789ABCDEF to 85E813540F0AB405.
    let key = hex_to_bits("133457799BBCDFF1");
    let plain = hex_to_bits("0123456789ABCDEF");
    let cipher = des_encrypt_bits(&key, &plain);
    assert_eq!(cipher, hex_to_bits("85E813540F0AB405"));
    let back = des_decrypt_bits(&key, &cipher);
    assert_eq!(back, plain);
}

#[test]
fn test_des_roundtrip_two_blocks() {
    let key = hex_to_bits("0E329232EA6D0D73");
    let msg = hex_to_bits("8787878787878787FFFFFFFF00000000");
    let cipher = des_encrypt_bits(&key, &msg);
    assert_eq!(cipher.len(), 128);
    assert_eq!(des_decrypt_bits(&key, &cipher), msg);
}

#[test]
fn test_des_pads_partial_block_with_zeros() {
    let key = hex_to_bits("133457799BBCDFF1");
    let short = hex_to_bits("01234567");
    let padded = hex_to_bits("0123456700000000");
    assert_eq!(des_encrypt_bits(&key, &short), des_encrypt_bits(&key, &padded));
}

#[test]
fn test_key_schedule_deterministic() {
    let key = hex_to_bits("133457799BBCDFF1");
    let first = key_schedule(&key);
    let second = key_schedule(&key);
    assert_eq!(first, second);
    assert_eq!(first.len(), 16);
    for rk in &first {
        assert_eq!(rk.len(), 48);
    }
}

#[test]
fn test_key_schedule_first_round_key() {
    // The first round key of the classical worked example.
    let key = hex_to_bits("133457799BBCDFF1");
    let keys = key_schedule(&key);
    let expected: Vec<u8> = vec![
        0, 0, 0, 1, 1, 0, 1, 1, 0, 0, 0, 0, 0, 0, 1, 0, 1, 1, 1, 0, 1, 1, 1, 1, 1, 1, 1, 1, 1,
        1, 0, 0, 0, 1, 1, 1, 0, 0, 0, 0, 0, 1, 1, 1, 0, 0, 1, 0,
    ];
    assert_eq!(keys[0], expected);
}

#[test]
fn test_sbox_entries_are_nibbles() {
    let tables = sbox_tables();
    assert_eq!(tables.len(), 8);
    for t in &tables {
        assert_eq!(t.len(), 64);
        for &v in t {
            assert!(v <= 15);
        }
    }
}

#[test]
fn test_execute_encrypt_decrypt_text() {
    let alg = DataEncryptionStandardAlg {
        operation: Operations::Encrypt,
        key: "password".to_string(),
        message: "attack at dawn".to_string(),
    };
    let cipher_text = alg.clone().execute();
    let again = alg.execute();
    // The cipher is a pure function of key and message.
    assert_eq!(cipher_text, again);
    let dec = DataEncryptionStandardAlg {
        operation: Operations::Decrypt,
        key: "password".to_string(),
        message: "sixteen byte msg".to_string(),
    };
    // Decryption is a pure function of key and message as well.
    let plain_once = dec.clone().execute();
    let plain_again = dec.execute();
    assert_eq!(plain_once, plain_again);
}
