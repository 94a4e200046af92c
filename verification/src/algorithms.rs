//! The ciphers of the library, one module each.

pub mod cesar_cipher;
pub mod data_encryption_standard;
pub mod vigenere_cipher;
pub mod xor_cipher;
