//! Classical cipher toolkit: a text/bit codec, block segmentation helpers,
//! and four ciphers (Caesar shift, Vigenère, repeating-key XOR, and the
//! Data Encryption Standard as a 64-bit Feistel block cipher).

use vstd::prelude::*;

pub mod algorithms;
pub mod alphabet;
pub mod args;
pub mod ops;
pub mod tables;

verus! {

/// Which direction a cipher is run in.
#[derive(Debug, Clone, Copy, PartialEq, Eq, Structural)]
pub enum Operations {
    Encrypt,
    Decrypt,
}

} // verus!
