//! The Vigenère running-key cipher: the key is cycled to the message's
//! length and each message letter is moved by the alphabet position of the
//! key letter standing under it.

use vstd::prelude::*;
use vstd::string::StringSliceAdditionalSpecFns;

use crate::Operations;
use crate::alphabet::{get_text_values, is_ascii_letter, letter_index, letter_of_index};

verus! {

/// The key character standing under message position `i` once the key is
/// cycled.
pub open spec fn ext_key_char(key: Seq<char>, i: int) -> char
    recommends
        key.len() > 0,
        0 <= i,
{
    key[i % key.len() as int]
}

/// True when the key and message are made of letters and a non-empty
/// message comes with a non-empty key.
pub open spec fn vigenere_input_ok(key: Seq<char>, message: Seq<char>) -> bool {
    &&& message.len() > 0 ==> key.len() > 0
    &&& forall|i: int| 0 <= i < message.len() ==> is_ascii_letter(#[trigger] message[i])
    &&& forall|i: int| 0 <= i < key.len() ==> is_ascii_letter(#[trigger] key[i])
}

/// True when every position-sum of the encoding stays inside the alphabet;
/// a sum past the last letter has no letter to stand for it.
pub open spec fn vigenere_encode_ok(key: Seq<char>, message: Seq<char>) -> bool {
    &&& vigenere_input_ok(key, message)
    &&& forall|i: int|
        0 <= i < message.len() ==> letter_index(#[trigger] message[i]) + letter_index(
            ext_key_char(key, i),
        ) < 26
}

/// True when every position-difference of the decoding is non-negative.
pub open spec fn vigenere_decode_ok(key: Seq<char>, message: Seq<char>) -> bool {
    &&& vigenere_input_ok(key, message)
    &&& forall|i: int|
        0 <= i < message.len() ==> letter_index(#[trigger] message[i]) >= letter_index(
            ext_key_char(key, i),
        )
}

/// The letter the encoding writes at position `i`: the message letter moved
/// forward by the key letter's position.
pub open spec fn vigenere_encode_char(key: Seq<char>, message: Seq<char>, i: int) -> char {
    letter_of_index(letter_index(message[i]) + letter_index(ext_key_char(key, i)))
}

/// The letter the decoding writes at position `i`: the message letter moved
/// back by the key letter's position.
pub open spec fn vigenere_decode_char(key: Seq<char>, message: Seq<char>, i: int) -> char {
    letter_of_index(letter_index(message[i]) - letter_index(ext_key_char(key, i)))
}

/// A Vigenère invocation: the direction, the key word, and the message.
#[derive(Debug, Clone, PartialEq)]
pub struct VigenereCipherAlg {
    /// Encrypt (encode) or decrypt (decode).
    pub operation: Operations,
    /// The secret word whose letters drive the shifts.
    pub key: String,
    /// The message to encode or decode.
    pub message: String,
}

impl VigenereCipherAlg {
    /// The same invocation with the key cycled out to one character per
    /// byte of the message (the length bookkeeping counts bytes, not
    /// characters).
    pub fn extend_key(self) -> (r: Self)
        requires
            self.key@.len() > 0 || self.message@.len() == 0,
        ensures
            r.operation == self.operation,
            r.message@ == self.message@,
            r.key@.len() == vstd::utf8::encode_utf8(self.message@).len(),
            forall|i: int|
                0 <= i < r.key@.len() ==> r.key@[i] == self.key@[i % self.key@.len() as int],
    {
        let ghost key = self.key@;
        let msg_str = self.message.as_str();
        let n = msg_str.as_bytes().len();
        proof {
            assert(msg_str@ == self.message@);
            assert(msg_str.spec_bytes() == vstd::utf8::encode_utf8(self.message@));
            assert(n == vstd::utf8::encode_utf8(self.message@).len());
        }
        let key_str = self.key.as_str();
        let klen = key_str.unicode_len();
        let mut ext: Vec<char> = Vec::new();
        let mut count: usize = 0;
        let mut t: usize = 0;
        while t < n
            invariant
                key_str@ == key,
                klen == key.len(),
                n > 0 ==> klen > 0,
                t <= n,
                ext@.len() == t,
                klen > 0 ==> count == t % klen,
                forall|j: int| 0 <= j < t ==> ext@[j] == key[j % klen as int],
            decreases n - t,
        {
            ext.push(key_str.get_char(count));
            let ghost oc = count as int;
            count = count + 1;
            if count == klen {
                count = 0;
            }
            proof {
                let k = klen as int;
                let tt = t as int;
                vstd::arithmetic::div_mod::lemma_fundamental_div_mod(tt, k);
                let q = tt / k;
                assert((q + 1) * k == q * k + k) by (nonlinear_arith);
                if oc + 1 == k {
                    vstd::arithmetic::div_mod::lemma_fundamental_div_mod_converse_mod(
                        tt + 1,
                        k,
                        q + 1,
                        0,
                    );
                } else {
                    vstd::arithmetic::div_mod::lemma_fundamental_div_mod_converse_mod(
                        tt + 1,
                        k,
                        q,
                        oc + 1,
                    );
                }
            }
            t = t + 1;
        }
        let extended = crate::ops::chars_to_string(&ext);
        VigenereCipherAlg { operation: self.operation, key: extended, message: self.message }
    }

    /// Encodes the message: each letter moves forward by the position of
    /// the key letter standing under it.
    pub fn encode(self) -> (r: String)
        requires
            vigenere_encode_ok(self.key@, self.message@),
        ensures
            r@.len() == self.message@.len(),
            forall|i: int|
                0 <= i < r@.len() ==> r@[i] == vigenere_encode_char(
                    self.key@,
                    self.message@,
                    i,
                ),
    {
        let ghost key = self.key@;
        let ghost msg = self.message@;
        proof {
            lemma_letters_have_one_byte(msg);
        }
        let extended = self.extend_key();
        proof {
            assert forall|i: int| 0 <= i < extended.key@.len() implies is_ascii_letter(
                #[trigger] extended.key@[i],
            ) by {
                assert(extended.key@[i] == key[i % key.len() as int]);
            }
        }
        let VigenereCipherAlg { operation: _, key: ext_key, message } = extended;
        let message_values = get_text_values(message);
        let key_values = get_text_values(ext_key);
        if message_values.len() != key_values.len() {
            assert(false);
            return crate::ops::chars_to_string(&Vec::new());
        }
        let mut out: Vec<char> = Vec::new();
        let mut i: usize = 0;
        while i < message_values.len()
            invariant
                vigenere_encode_ok(key, msg),
                message_values@.len() == msg.len(),
                key_values@.len() == msg.len(),
                forall|j: int| 0 <= j < msg.len() ==> message_values@[j] == letter_index(msg[j]),
                forall|j: int|
                    0 <= j < msg.len() ==> key_values@[j] == letter_index(ext_key_char(key, j)),
                i <= msg.len(),
                out@.len() == i,
                forall|j: int| 0 <= j < i ==> out@[j] == vigenere_encode_char(key, msg, j),
            decreases msg.len() - i,
        {
            let v = message_values[i] + key_values[i];
            out.push(crate::alphabet::alphabet_letter(v));
            i = i + 1;
        }
        crate::ops::chars_to_string(&out)
    }

    /// Decodes the message: each letter moves back by the position of the
    /// key letter standing under it.
    pub fn decode(self) -> (r: String)
        requires
            vigenere_decode_ok(self.key@, self.message@),
        ensures
            r@.len() == self.message@.len(),
            forall|i: int|
                0 <= i < r@.len() ==> r@[i] == vigenere_decode_char(
                    self.key@,
                    self.message@,
                    i,
                ),
    {
        let ghost key = self.key@;
        let ghost msg = self.message@;
        proof {
            lemma_letters_have_one_byte(msg);
        }
        let extended = self.extend_key();
        proof {
            assert forall|i: int| 0 <= i < extended.key@.len() implies is_ascii_letter(
                #[trigger] extended.key@[i],
            ) by {
                assert(extended.key@[i] == key[i % key.len() as int]);
            }
        }
        let VigenereCipherAlg { operation: _, key: ext_key, message } = extended;
        let message_values = get_text_values(message);
        let key_values = get_text_values(ext_key);
        if message_values.len() != key_values.len() {
            assert(false);
            return crate::ops::chars_to_string(&Vec::new());
        }
        let mut out: Vec<char> = Vec::new();
        let mut i: usize = 0;
        while i < message_values.len()
            invariant
                vigenere_decode_ok(key, msg),
                message_values@.len() == msg.len(),
                key_values@.len() == msg.len(),
                forall|j: int| 0 <= j < msg.len() ==> message_values@[j] == letter_index(msg[j]),
                forall|j: int|
                    0 <= j < msg.len() ==> key_values@[j] == letter_index(ext_key_char(key, j)),
                i <= msg.len(),
                out@.len() == i,
                forall|j: int| 0 <= j < i ==> out@[j] == vigenere_decode_char(key, msg, j),
            decreases msg.len() - i,
        {
            let v = message_values[i] - key_values[i];
            out.push(crate::alphabet::alphabet_letter(v));
            i = i + 1;
        }
        crate::ops::chars_to_string(&out)
    }

    /// Runs the cipher in the direction `self.operation`.
    pub fn execute(self) -> (r: String)
        requires
            self.operation == Operations::Encrypt ==> vigenere_encode_ok(
                self.key@,
                self.message@,
            ),
            self.operation == Operations::Decrypt ==> vigenere_decode_ok(
                self.key@,
                self.message@,
            ),
        ensures
            r@.len() == self.message@.len(),
            self.operation == Operations::Encrypt ==> forall|i: int|
                0 <= i < r@.len() ==> r@[i] == vigenere_encode_char(self.key@, self.message@, i),
            self.operation == Operations::Decrypt ==> forall|i: int|
                0 <= i < r@.len() ==> r@[i] == vigenere_decode_char(self.key@, self.message@, i),
    {
        match self.operation {
            Operations::Encrypt => self.encode(),
            Operations::Decrypt => self.decode(),
        }
    }
}

/// A text of letters is ASCII, so it has exactly one byte per character.
proof fn lemma_letters_have_one_byte(s: Seq<char>)
    requires
        forall|i: int| 0 <= i < s.len() ==> is_ascii_letter(#[trigger] s[i]),
    ensures
        vstd::utf8::encode_utf8(s).len() == s.len(),
{
    assert(vstd::utf8::is_ascii_chars(s));
    vstd::utf8::is_ascii_chars_encode_utf8(s);
}

} // verus!
