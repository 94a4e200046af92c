//! The command-line shape of the toolkit: which cipher to run, with its
//! arguments. The surrounding binary parses the command line into these
//! types before calling into the ciphers.

use vstd::prelude::*;

use crate::algorithms::cesar_cipher::CesarCipherAlg;
use crate::algorithms::data_encryption_standard::DataEncryptionStandardAlg;
use crate::algorithms::vigenere_cipher::VigenereCipherAlg;
use crate::algorithms::xor_cipher::XorCipherAlg;

verus! {

/// One cipher invocation, with everything it needs to run.
#[derive(Debug, Clone)]
pub enum Algorithms {
    /// Operation using Cesar Cipher
    CesarCipher(CesarCipherAlg),
    /// Operation using Vigenere Cipher
    VigenereCipher(VigenereCipherAlg),
    /// Operation using Xor Cipher
    XorCipher(XorCipherAlg),
    /// Operation using Data Encryption Standard
    DataEncryptionStandard(DataEncryptionStandardAlg),
}

/// The whole command line: the chosen cipher and its arguments.
#[derive(Debug, Clone)]
pub struct CriptographyCliArgs {
    /// Which cipher to run.
    pub algorithym: Algorithms,
}

} // verus!
