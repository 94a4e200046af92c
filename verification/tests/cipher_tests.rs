use ciphers::algorithms::cesar_cipher::CesarCipherAlg;
use ciphers::algorithms::vigenere_cipher::VigenereCipherAlg;
use ciphers::algorithms::xor_cipher::XorCipherAlg;
use ciphers::alphabet::{
    get_letter_bin_value, get_letter_position, get_text_bin_value, get_text_values,
};
use ciphers::Operations;

#[test]
fn get_letter_position_test() {}

#[test]
fn get_text_values_test() {
    let test_instance_1: VigenereCipherAlg = VigenereCipherAlg {
        operation: Operations::Encrypt,
        key: "banana".to_string(),
        message: "aaaaaa".to_string(),
    };
    assert_eq!(get_text_values(test_instance_1.key), vec![1, 0, 13, 0, 13, 0]);
}

#[test]
fn get_letter_position_values() {
    assert_eq!(get_letter_position("a"), 0);
    assert_eq!(get_letter_position("A"), 0);
    assert_eq!(get_letter_position("z"), 25);
    assert_eq!(get_letter_position("M"), 12);
}

#[test]
fn get_letter_bin_value_test() {
    assert_eq!(get_letter_bin_value("a"), vec![65]);
    assert_eq!(get_letter_bin_value("Z"), vec![90]);
    assert_eq!(get_letter_bin_value("!"), vec![33]);
}

#[test]
fn get_text_bin_value_test() {
    assert_eq!(get_text_bin_value("ab".to_string()), vec![vec![97], vec![98]]);
    assert_eq!(get_text_bin_value("±".to_string()), vec![vec![0xC2, 0xB1]]);
}

#[test]
fn extend_key_test() {
    let test_instance_1: VigenereCipherAlg = VigenereCipherAlg {
        operation: Operations::Encrypt,
        key: "banana".to_string(),
        message: "aaabbbcccdddeee".to_string(),
    };
    assert_eq!(
        test_instance_1.clone().extend_key(),
        VigenereCipherAlg {
            operation: test_instance_1.operation,
            key: "bananabananaban".to_string(),
            message: test_instance_1.message
        }
    );
}

#[test]
fn encode_test() {
    let test_instance_1: VigenereCipherAlg = VigenereCipherAlg {
        operation: Operations::Encrypt,
        key: "banana".to_string(),
        message: "aaabbbcccdddeee".to_string(),
    };
    println!("{:?}", test_instance_1.clone().encode());
}

#[test]
fn decode_test() {
    let test_instance_1: VigenereCipherAlg = VigenereCipherAlg {
        operation: Operations::Encrypt,
        key: "banana".to_string(),
        message: "BANBOBDCPDQDFER".to_string(),
    };
    println!("{:?}", test_instance_1.clone().decode());
}

#[test]
fn vigenere_encode_decode_values() {
    let enc = VigenereCipherAlg {
        operation: Operations::Encrypt,
        key: "banana".to_string(),
        message: "aaabbbcccdddeee".to_string(),
    };
    assert_eq!(enc.encode(), "BANBOBDCPDQDFER".to_string());
    let dec = VigenereCipherAlg {
        operation: Operations::Decrypt,
        key: "banana".to_string(),
        message: "BANBOBDCPDQDFER".to_string(),
    };
    assert_eq!(dec.decode(), "AAABBBCCCDDDEEE".to_string());
}

#[test]
fn vigenere_execute_dispatch() {
    let enc = VigenereCipherAlg {
        operation: Operations::Encrypt,
        key: "banana".to_string(),
        message: "aaaaaa".to_string(),
    };
    assert_eq!(enc.execute(), "BANANA".to_string());
}

#[test]
fn xor_cipher_encode_test() {
    let instance_1: XorCipherAlg = XorCipherAlg {
        operation: Operations::Decrypt,
        key: Some("AAAAAAAAAAAA".to_string()),
        message: "- 3.8$".to_string(),
    };

    let instance_2: XorCipherAlg = XorCipherAlg {
        operation: Operations::Encrypt,
        key: Some("AAAAAAAAAAAA".to_string()),
        message: "laroye".to_string(),
    };

    println!("{:?}", instance_1.execute());
    println!("{:?}", instance_2.execute());
}

#[test]
fn xor_cipher_roundtrip_values() {
    let enc = XorCipherAlg {
        operation: Operations::Encrypt,
        key: Some("AAAAAAAAAAAA".to_string()),
        message: "laroye".to_string(),
    };
    assert_eq!(enc.execute(), Some("- 3.8$".to_string()));
    let dec = XorCipherAlg {
        operation: Operations::Decrypt,
        key: Some("AAAAAAAAAAAA".to_string()),
        message: "- 3.8$".to_string(),
    };
    assert_eq!(dec.execute(), Some("laroye".to_string()));
}

#[test]
fn xor_cipher_empty_key_gives_none() {
    let inst = XorCipherAlg {
        operation: Operations::Encrypt,
        key: Some("".to_string()),
        message: "abc".to_string(),
    };
    assert_eq!(inst.execute(), None);
    let empty_message = XorCipherAlg {
        operation: Operations::Encrypt,
        key: Some("".to_string()),
        message: "".to_string(),
    };
    assert_eq!(empty_message.execute(), Some("".to_string()));
}

#[test]
fn xor_extend_key_test() {
    let inst = XorCipherAlg {
        operation: Operations::Encrypt,
        key: Some("key".to_string()),
        message: "abcdefg".to_string(),
    };
    let extended = inst.extend_key();
    assert_eq!(extended.key, Some("keykeyk".to_string()));
    assert_eq!(extended.message, "abcdefg".to_string());
}

#[test]
fn cesar_execute_values() {
    let inst = CesarCipherAlg {
        operation: Operations::Encrypt,
        shift: 3,
        message: "abc".to_string(),
    };
    assert_eq!(inst.execute(), "DEF".to_string());
    // Positions that land exactly on the alphabet length give a space, and
    // positions past it wrap around.
    let wrap = CesarCipherAlg {
        operation: Operations::Decrypt,
        shift: 3,
        message: "XYZ".to_string(),
    };
    assert_eq!(wrap.execute(), " BC".to_string());
}

#[test]
fn cesar_shift_pos_values() {
    let inst = CesarCipherAlg {
        operation: Operations::Encrypt,
        shift: 3,
        message: "abc".to_string(),
    };
    assert_eq!(inst.clone().shift_pos('a'), 3);
    assert_eq!(inst.clone().shift_pos('Z'), 2);
    let back = CesarCipherAlg {
        operation: Operations::Encrypt,
        shift: -3,
        message: "abc".to_string(),
    };
    assert_eq!(back.shift_pos('a'), 29);
}
