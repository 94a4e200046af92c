use ciphers::ops::{
    bits_into_string, bits_to_byte, bits_to_char, byte_parity_verify, byte_to_bits, char_to_bits,
    is_a_7bit_chunk, is_a_8bit_chunk, is_a_8bytes_block, is_a_xbit_chunk, left_shift_vec,
    make_64bits_blocks, permutation, rotate_left_vec, string_into_bits,
};
use ciphers::tables::{final_permutation_table, initial_permutation_table};

#[test]
fn test_bit_to_byte() {
    assert_eq!(bits_to_byte(&[0, 0, 0, 0, 0, 0, 0, 1]), 1);
    assert_eq!(bits_to_byte(&[1, 1, 1, 1, 1, 1, 1, 1]), 255);
    assert_eq!(bits_to_byte(&[0, 1, 0, 0, 1, 1, 0, 0]), 76);
}

#[test]
fn test_byte_to_bit() {
    assert_eq!(byte_to_bits(1), [0, 0, 0, 0, 0, 0, 0, 1]);
    assert_eq!(byte_to_bits(255), [1, 1, 1, 1, 1, 1, 1, 1]);
    assert_eq!(byte_to_bits(76), [0, 1, 0, 0, 1, 1, 0, 0]);
}

#[test]
fn test_char_to_bits() {
    assert_eq!(char_to_bits('A'), vec![[0, 1, 0, 0, 0, 0, 0, 1]]);
    assert_eq!(char_to_bits('@'), vec![[0, 1, 0, 0, 0, 0, 0, 0]]);
    assert_eq!(char_to_bits('~'), vec![[0, 1, 1, 1, 1, 1, 1, 0]]);
    assert_eq!(char_to_bits('±'), vec![[1, 1, 0, 0, 0, 0, 1, 0], [1, 0, 1, 1, 0, 0, 0, 1]]);
    assert_eq!(char_to_bits('æ'), vec![[1, 1, 0, 0, 0, 0, 1, 1], [1, 0, 1, 0, 0, 1, 1, 0]]);
    assert_eq!(char_to_bits('»'), vec![[1, 1, 0, 0, 0, 0, 1, 0], [1, 0, 1, 1, 1, 0, 1, 1]]);
}

#[test]
fn test_bits_to_char() {
    assert_eq!(bits_to_char(vec![[0, 1, 0, 0, 0, 0, 0, 1]]), 'A');
    assert_eq!(bits_to_char(vec![[0, 1, 0, 0, 1, 0, 1, 1]]), 'K');
    assert_eq!(bits_to_char(vec![[0, 1, 0, 1, 1, 0, 1, 1]]), '[');
    assert_eq!(bits_to_char(vec![[1, 1, 0, 0, 0, 0, 1, 1], [1, 0, 0, 1, 0, 0, 0, 0]]), 'Ð');
    assert_eq!(bits_to_char(vec![[1, 1, 0, 0, 0, 0, 1, 1], [1, 0, 0, 1, 1, 0, 0, 0]]), 'Ø');
    assert_eq!(bits_to_char(vec![[1, 1, 0, 0, 0, 0, 1, 1], [1, 0, 1, 1, 0, 0, 0, 0]]), 'ð');
}

#[test]
fn test_string_into_bits() {
    assert_eq!(
        string_into_bits("ALOALO".to_string()),
        vec![
            0, 1, 0, 0, 0, 0, 0, 1, 0, 1, 0, 0, 1, 1, 0, 0, 0, 1, 0, 0, 1, 1, 1, 1, 0, 1, 0, 0,
            0, 0, 0, 1, 0, 1, 0, 0, 1, 1, 0, 0, 0, 1, 0, 0, 1, 1, 1, 1
        ]
    );
    assert_eq!(
        string_into_bits("AL MOSSAR".to_string()),
        vec![
            0, 1, 0, 0, 0, 0, 0, 1, 0, 1, 0, 0, 1, 1, 0, 0, 0, 0, 1, 0, 0, 0, 0, 0, 0, 1, 0, 0,
            1, 1, 0, 1, 0, 1, 0, 0, 1, 1, 1, 1, 0, 1, 0, 1, 0, 0, 1, 1, 0, 1, 0, 1, 0, 0, 1, 1,
            0, 1, 0, 0, 0, 0, 0, 1, 0, 1, 0, 1, 0, 0, 1, 0
        ]
    );
    assert_eq!(
        string_into_bits("× × ×Ð".to_string()),
        vec![
            1, 1, 0, 0, 0, 0, 1, 1, 1, 0, 0, 1, 0, 1, 1, 1, 0, 0, 1, 0, 0, 0, 0, 0, 1, 1, 0, 0,
            0, 0, 1, 1, 1, 0, 0, 1, 0, 1, 1, 1, 0, 0, 1, 0, 0, 0, 0, 0, 1, 1, 0, 0, 0, 0, 1, 1,
            1, 0, 0, 1, 0, 1, 1, 1, 1, 1, 0, 0, 0, 0, 1, 1, 1, 0, 0, 1, 0, 0, 0, 0
        ]
    );
}

#[test]
fn test_bits_into_string() {
    assert_eq!(bits_into_string(vec![0, 1, 0, 0, 0, 0, 0, 1]), "A".to_string());
    assert_eq!(
        bits_into_string(vec![
            0, 1, 0, 0, 0, 0, 0, 1, 0, 1, 0, 0, 1, 1, 0, 0, 0, 1, 0, 0, 1, 1, 1, 1, 0, 1, 0, 0,
            0, 0, 0, 1, 0, 1, 0, 0, 1, 1, 0, 0, 0, 1, 0, 0, 1, 1, 1, 1
        ]),
        "ALOALO".to_string()
    );
    assert_eq!(
        bits_into_string(vec![
            0, 1, 1, 0, 0, 0, 0, 1, 0, 1, 1, 0, 0, 0, 1, 0, 0, 1, 1, 0, 0, 0, 1, 1, 1, 1, 0, 0,
            0, 0, 1, 1, 1, 0, 0, 0, 1, 1, 0, 1
        ]),
        "abcÍ".to_string()
    );
    assert_eq!(
        bits_into_string(vec![
            0, 1, 0, 0, 0, 0, 0, 1, 0, 1, 0, 0, 1, 1, 0, 0, 0, 0, 1, 0, 0, 0, 0, 0, 0, 1, 0, 0,
            1, 1, 0, 1, 0, 1, 0, 0, 1, 1, 1, 1, 0, 1, 0, 1, 0, 0, 1, 1, 0, 1, 0, 1, 0, 0, 1, 1,
            0, 1, 0, 0, 0, 0, 0, 1, 0, 1, 0, 1, 0, 0, 1, 0
        ]),
        "AL MOSSAR".to_string()
    );
    assert_eq!(
        bits_into_string(vec![
            1, 1, 0, 0, 0, 0, 1, 1, 1, 0, 0, 1, 0, 1, 1, 1, 0, 0, 1, 0, 0, 0, 0, 0, 1, 1, 0, 0,
            0, 0, 1, 1, 1, 0, 0, 1, 0, 1, 1, 1, 0, 0, 1, 0, 0, 0, 0, 0, 1, 1, 0, 0, 0, 0, 1, 1,
            1, 0, 0, 1, 0, 1, 1, 1, 1, 1, 0, 0, 0, 0, 1, 1, 1, 0, 0, 1, 0, 0, 0, 0
        ]),
        "× × ×Ð".to_string()
    );
}

#[test]
fn test_is_a_8bit_chunk() {
    assert_eq!(is_a_8bit_chunk(&[1, 0, 1]), [1, 0, 1, 0, 0, 0, 0, 0]);
    assert_eq!(is_a_8bit_chunk(&[1, 0, 1, 0, 0, 1]), [1, 0, 1, 0, 0, 1, 0, 0]);
    assert_eq!(is_a_8bit_chunk(&[1, 0, 1, 0, 0, 1, 0, 0, 0]), [0, 0, 0, 0, 0, 0, 0, 0]);
}

#[test]
fn test_is_a_7bit_chunk() {
    assert_eq!(is_a_7bit_chunk(&[1, 0, 1]), [1, 0, 1, 0, 0, 0, 0]);
    assert_eq!(is_a_7bit_chunk(&[1, 0, 1, 0, 0, 1]), [1, 0, 1, 0, 0, 1, 0]);
    assert_eq!(is_a_7bit_chunk(&[1, 0, 1, 0, 0, 1, 0, 0, 0]), [0, 0, 0, 0, 0, 0, 0]);
}

#[test]
fn test_is_a_xbit_chunk() {
    assert_eq!(is_a_xbit_chunk(&[1, 0, 1], 6), vec![1, 0, 1, 0, 0, 0]);
    assert_eq!(is_a_xbit_chunk(&[1, 0, 1, 1], 4), vec![1, 0, 1, 1]);
    assert_eq!(is_a_xbit_chunk(&[1, 0, 1], 2), vec![0, 0]);
}

#[test]
fn test_is_a_8bytes_block() {
    assert_eq!(
        is_a_8bytes_block(vec![
            [0, 0, 0, 0, 0, 0, 0, 0],
            [0, 0, 0, 0, 0, 0, 0, 0],
            [0, 0, 0, 0, 0, 0, 0, 0],
            [0, 0, 0, 0, 0, 0, 0, 0],
            [0, 0, 0, 0, 0, 0, 0, 0],
            [0, 0, 0, 0, 0, 0, 0, 0],
            [0, 0, 0, 0, 0, 0, 0, 0],
            [0, 0, 0, 0, 0, 0, 0, 0]
        ]),
        [
            [0, 0, 0, 0, 0, 0, 0, 0],
            [0, 0, 0, 0, 0, 0, 0, 0],
            [0, 0, 0, 0, 0, 0, 0, 0],
            [0, 0, 0, 0, 0, 0, 0, 0],
            [0, 0, 0, 0, 0, 0, 0, 0],
            [0, 0, 0, 0, 0, 0, 0, 0],
            [0, 0, 0, 0, 0, 0, 0, 0],
            [0, 0, 0, 0, 0, 0, 0, 0]
        ]
    );
    assert_eq!(
        is_a_8bytes_block(vec![
            [0, 0, 0, 0, 0, 0, 0, 0],
            [0, 0, 0, 0, 0, 0, 0, 0],
            [0, 0, 0, 0, 0, 0, 0, 0]
        ]),
        [
            [0, 0, 0, 0, 0, 0, 0, 0],
            [0, 0, 0, 0, 0, 0, 0, 0],
            [0, 0, 0, 0, 0, 0, 0, 0],
            [0, 0, 0, 0, 0, 0, 0, 0],
            [0, 0, 0, 0, 0, 0, 0, 0],
            [0, 0, 0, 0, 0, 0, 0, 0],
            [0, 0, 0, 0, 0, 0, 0, 0],
            [0, 0, 0, 0, 0, 0, 0, 0]
        ]
    );
    assert_eq!(
        is_a_8bytes_block(vec![
            [0, 0, 0, 0, 0, 0, 0, 0],
            [1, 0, 1, 0, 1, 0, 0, 0],
            [1, 0, 1, 0, 1, 0, 0, 0]
        ]),
        [
            [0, 0, 0, 0, 0, 0, 0, 0],
            [1, 0, 1, 0, 1, 0, 0, 0],
            [1, 0, 1, 0, 1, 0, 0, 0],
            [0, 0, 0, 0, 0, 0, 0, 0],
            [0, 0, 0, 0, 0, 0, 0, 0],
            [0, 0, 0, 0, 0, 0, 0, 0],
            [0, 0, 0, 0, 0, 0, 0, 0],
            [0, 0, 0, 0, 0, 0, 0, 0]
        ]
    );
}

#[test]
fn test_make_64bits_blocks() {
    assert_eq!(
        make_64bits_blocks(vec![0, 1]),
        vec![[
            [0, 1, 0, 0, 0, 0, 0, 0],
            [0, 0, 0, 0, 0, 0, 0, 0],
            [0, 0, 0, 0, 0, 0, 0, 0],
            [0, 0, 0, 0, 0, 0, 0, 0],
            [0, 0, 0, 0, 0, 0, 0, 0],
            [0, 0, 0, 0, 0, 0, 0, 0],
            [0, 0, 0, 0, 0, 0, 0, 0],
            [0, 0, 0, 0, 0, 0, 0, 0]
        ]]
    );

    assert_eq!(
        make_64bits_blocks(vec![
            0, 1, 0, 0, 0, 0, 0, 0, 0, 0, 1, 0, 0, 0, 0, 0, 0, 0, 0, 1, 0, 0, 0, 0, 0, 0, 0, 0,
            1, 0, 0, 0, 0, 0, 0, 0, 0, 1, 0, 0, 0, 0, 0, 0, 0, 0, 1, 0, 0, 0, 0, 0, 0, 0, 0, 1,
            0, 0, 0, 0, 0, 0, 0, 0, 1, 0, 0, 0, 0, 0, 0, 0, 0, 1, 0, 0, 0, 0, 0, 0, 0, 0, 1, 0,
            0, 0, 0, 0, 0, 0, 0, 1, 0, 0, 0, 0, 0, 0, 0, 0, 1, 0, 0, 0, 0, 0, 0, 0, 0, 1, 0, 0,
            0, 0, 0, 0, 0, 0, 1, 0, 0, 0, 0, 0, 0, 0, 0, 1, 0, 0, 0, 0, 0, 0, 0, 0
        ]),
        vec![
            [
                [0, 1, 0, 0, 0, 0, 0, 0],
                [0, 0, 1, 0, 0, 0, 0, 0],
                [0, 0, 0, 1, 0, 0, 0, 0],
                [0, 0, 0, 0, 1, 0, 0, 0],
                [0, 0, 0, 0, 0, 1, 0, 0],
                [0, 0, 0, 0, 0, 0, 1, 0],
                [0, 0, 0, 0, 0, 0, 0, 1],
                [0, 0, 0, 0, 0, 0, 0, 0]
            ],
            [
                [1, 0, 0, 0, 0, 0, 0, 0],
                [0, 1, 0, 0, 0, 0, 0, 0],
                [0, 0, 1, 0, 0, 0, 0, 0],
                [0, 0, 0, 1, 0, 0, 0, 0],
                [0, 0, 0, 0, 1, 0, 0, 0],
                [0, 0, 0, 0, 0, 1, 0, 0],
                [0, 0, 0, 0, 0, 0, 1, 0],
                [0, 0, 0, 0, 0, 0, 0, 1]
            ],
            [
                [0, 0, 0, 0, 0, 0, 0, 0],
                [0, 0, 0, 0, 0, 0, 0, 0],
                [0, 0, 0, 0, 0, 0, 0, 0],
                [0, 0, 0, 0, 0, 0, 0, 0],
                [0, 0, 0, 0, 0, 0, 0, 0],
                [0, 0, 0, 0, 0, 0, 0, 0],
                [0, 0, 0, 0, 0, 0, 0, 0],
                [0, 0, 0, 0, 0, 0, 0, 0]
            ]
        ]
    );
}

#[test]
fn test_byte_parity_verify() {
    assert_eq!(byte_parity_verify([0, 0, 0, 0, 0, 0, 0, 0]), [0, 0, 0, 0, 0, 0, 0, 1]);
    assert_eq!(byte_parity_verify([1, 1, 1, 1, 1, 1, 1, 1]), [1, 1, 1, 1, 1, 1, 1, 0]);
    assert_eq!(byte_parity_verify([1, 1, 1, 1, 0, 0, 0, 0]), [1, 1, 1, 1, 0, 0, 0, 1]);
    assert_eq!(byte_parity_verify([1, 1, 1, 0, 0, 0, 0, 0]), [1, 1, 1, 0, 0, 0, 0, 0]);
    assert_eq!(byte_parity_verify([1, 1, 1, 0, 0, 1, 1, 0]), [1, 1, 1, 0, 0, 1, 1, 0]);
    assert_eq!(byte_parity_verify([1, 1, 1, 1, 1, 1, 1, 0]), [1, 1, 1, 1, 1, 1, 1, 0]);
}

#[test]
fn test_byte_parity_verify_idempotent() {
    let samples: Vec<[u8; 8]> = vec![
        [0, 0, 0, 0, 0, 0, 0, 0],
        [1, 1, 1, 1, 1, 1, 1, 1],
        [1, 1, 1, 1, 0, 0, 0, 0],
        [1, 0, 1, 0, 1, 0, 1, 0],
        [0, 0, 0, 0, 0, 0, 0, 1],
    ];
    for b in samples {
        let once = byte_parity_verify(b);
        assert_eq!(byte_parity_verify(once), once);
    }
}

#[test]
fn test_permutation() {
    assert_eq!(
        permutation([[0u8; 8]; 8].concat(), initial_permutation_table()),
        [[0u8; 8]; 8].concat()
    );
    assert_eq!(
        permutation([[1u8; 8]; 8].concat(), initial_permutation_table()),
        [[1u8; 8]; 8].concat()
    );
    let vec_test = make_64bits_blocks((1..=64).collect())[0];
    assert_eq!(
        permutation(vec_test.concat(), initial_permutation_table()),
        initial_permutation_table()
    );
    assert_eq!(
        permutation([[0u8; 8]; 8].concat(), final_permutation_table()),
        [[0u8; 8]; 8].concat()
    );
    assert_eq!(
        permutation([[1u8; 8]; 8].concat(), final_permutation_table()),
        [[1u8; 8]; 8].concat()
    );

    let vec_test = make_64bits_blocks((1..=64).collect())[0];
    assert_eq!(
        permutation(vec_test.concat(), final_permutation_table()),
        final_permutation_table()
    );
}

#[test]
fn test_permutation_ip_fp_inverse() {
    let x: Vec<u8> = (1..=64).collect();
    let forward = permutation(x.clone(), initial_permutation_table());
    let back = permutation(forward, final_permutation_table());
    assert_eq!(back, x);
}

#[test]
fn test_left_shift() {
    assert_eq!(left_shift_vec(vec![0, 0, 0, 0, 0, 1, 1, 0], 1), vec![0, 0, 0, 0, 1, 1, 0, 0]);
    assert_eq!(left_shift_vec(vec![1, 0, 1, 0, 1, 0], 10), vec![0, 0, 0, 0, 0, 0]);
    assert_eq!(left_shift_vec(vec![1, 0, 1, 0, 1, 0], 5), vec![0, 0, 0, 0, 0, 0]);
    assert_eq!(left_shift_vec(vec![1, 0, 1, 0, 1, 0], 2), vec![1, 0, 1, 0, 0, 0]);
    assert_eq!(left_shift_vec(vec![1, 0, 1, 0, 1, 0], 1), vec![0, 1, 0, 1, 0, 0]);
    assert_eq!(left_shift_vec(vec![1, 0, 1, 0, 1, 0], 0), vec![1, 0, 1, 0, 1, 0]);
}

#[test]
fn test_rotate_left_vec() {
    assert_eq!(rotate_left_vec(&vec![1, 0, 1, 0, 1, 0], 1), vec![0, 1, 0, 1, 0, 1]);
    assert_eq!(rotate_left_vec(&vec![1, 0, 1, 0, 1, 0], 2), vec![1, 0, 1, 0, 1, 0]);
    assert_eq!(rotate_left_vec(&vec![1, 1, 0, 0], 0), vec![1, 1, 0, 0]);
    assert_eq!(rotate_left_vec(&vec![1, 1, 0, 0], 4), vec![1, 1, 0, 0]);
}

#[test]
fn test_bits_into_string_invalid_bytes_give_space() {
    // 0xFF is never valid character data.
    assert_eq!(bits_into_string(vec![1, 1, 1, 1, 1, 1, 1, 1]), " ".to_string());
    // An empty bit sequence decodes to the empty text.
    assert_eq!(bits_into_string(vec![]), "".to_string());
}

#[test]
fn test_bits_to_char_empty_and_invalid_give_space() {
    assert_eq!(bits_to_char(vec![]), ' ');
    assert_eq!(bits_to_char(vec![[1, 1, 1, 1, 1, 1, 1, 1]]), ' ');
}
