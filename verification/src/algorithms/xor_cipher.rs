//! The repeating-key XOR cipher: the key is cycled to the message's length
//! and each message byte is XORed with the key byte standing under it.
//! When no key is given, a random alphanumeric key of random length is
//! drawn.

use vstd::prelude::*;
use vstd::string::StringSliceAdditionalSpecFns;
use rand::Rng;

use crate::Operations;
use crate::alphabet::get_text_bin_value;

verus! {

/// True when `c` is an ASCII letter or digit, the character set of the
/// random keys.
pub open spec fn is_alphanumeric_char(c: char) -> bool {
    ('0' <= c && c <= '9') || ('a' <= c && c <= 'z') || ('A' <= c && c <= 'Z')
}

/// Relies on rand::random (the thread-local generator behind
/// rand::thread_rng().gen()): a machine-word value about which nothing can
/// be promised.
#[verifier::external_body]
fn random_usize() -> usize {
    rand::random::<usize>()
}

/// Relies on rand's Alphanumeric distribution and Rng::sample_iter: every
/// sampled value is one of the 62 ASCII letters and digits, and taking
/// `len` of them yields a string of exactly `len` such characters.
#[verifier::external_body]
fn random_alphanumeric_string(len: usize) -> (r: String)
    ensures
        r@.len() == len as int,
        forall|i: int| 0 <= i < r@.len() ==> is_alphanumeric_char(#[trigger] r@[i]),
{
    rand::thread_rng()
        .sample_iter(&rand::distributions::Alphanumeric)
        .take(len)
        .map(char::from)
        .collect::<String>()
}

/// The character standing for the XOR of one key character and one message
/// character, byte against byte.
pub open spec fn xor_char(k: char, m: char) -> char
    recommends
        (k as u32) < 128,
        (m as u32) < 128,
{
    (((k as u8) ^ (m as u8)) as char)
}

/// The XOR encoding of `message` under the cycled `key`, one character per
/// message character.
pub open spec fn xor_text(key: Seq<char>, message: Seq<char>) -> Seq<char>
    recommends
        message.len() > 0 ==> key.len() > 0,
{
    Seq::new(message.len(), |i: int| xor_char(key[i % key.len() as int], message[i]))
}

/// A repeating-key XOR invocation: the direction, the optional key, and the
/// message.
#[derive(Debug, Clone, PartialEq)]
pub struct XorCipherAlg {
    /// Encrypt or decrypt (XOR runs the same both ways).
    pub operation: Operations,
    /// The secret word; when absent a random alphanumeric key is drawn.
    pub key: Option<String>,
    /// The message to encode or decode.
    pub message: String,
}

impl XorCipherAlg {
    /// The same invocation with the key cycled out to one character per
    /// byte of the message (the length bookkeeping counts bytes, not
    /// characters).
    pub fn extend_key(self) -> (r: Self)
        requires
            self.key is Some,
            self.key->0@.len() > 0 || self.message@.len() == 0,
        ensures
            r.operation == self.operation,
            r.message@ == self.message@,
            r.key is Some,
            r.key->0@.len() == vstd::utf8::encode_utf8(self.message@).len(),
            forall|i: int|
                0 <= i < r.key->0@.len() ==> r.key->0@[i] == self.key->0@[i % self.key->0@.len() as int],
    {
        let key_string = match self.key {
            Some(k) => k,
            None => {
                assert(false);
                String::new()
            },
        };
        let ghost key = key_string@;
        let msg_str = self.message.as_str();
        let n = msg_str.as_bytes().len();
        proof {
            assert(msg_str@ == self.message@);
            assert(msg_str.spec_bytes() == vstd::utf8::encode_utf8(self.message@));
        }
        let key_str = key_string.as_str();
        let klen = key_str.unicode_len();
        let mut ext: Vec<char> = Vec::new();
        let mut count: usize = 0;
        let mut t: usize = 0;
        while t < n
            invariant
                key_str@ == key,
                klen == key.len(),
                n > 0 ==> klen > 0,
                t <= n,
                ext@.len() == t,
                klen > 0 ==> count == t % klen,
                forall|j: int| 0 <= j < t ==> ext@[j] == key[j % klen as int],
            decreases n - t,
        {
            ext.push(key_str.get_char(count));
            let ghost oc = count as int;
            count = count + 1;
            if count == klen {
                count = 0;
            }
            proof {
                let k = klen as int;
                let tt = t as int;
                vstd::arithmetic::div_mod::lemma_fundamental_div_mod(tt, k);
                let q = tt / k;
                assert((q + 1) * k == q * k + k) by (nonlinear_arith);
                if oc + 1 == k {
                    vstd::arithmetic::div_mod::lemma_fundamental_div_mod_converse_mod(
                        tt + 1,
                        k,
                        q + 1,
                        0,
                    );
                } else {
                    vstd::arithmetic::div_mod::lemma_fundamental_div_mod_converse_mod(
                        tt + 1,
                        k,
                        q,
                        oc + 1,
                    );
                }
            }
            t = t + 1;
        }
        let extended = crate::ops::chars_to_string(&ext);
        XorCipherAlg { operation: self.operation, key: Some(extended), message: self.message }
    }

    /// XORs the message against the cycled key, character by character;
    /// encoding and decoding are the same operation.
    pub fn encode_decode(self) -> (r: String)
        requires
            self.key is Some,
            self.key->0@.len() > 0 || self.message@.len() == 0,
            vstd::utf8::is_ascii_chars(self.key->0@),
            vstd::utf8::is_ascii_chars(self.message@),
        ensures
            r@.len() == self.message@.len(),
            forall|i: int|
                0 <= i < r@.len() ==> r@[i] == xor_char(
                    self.key->0@[i % self.key->0@.len() as int],
                    self.message@[i],
                ),
    {
        let ghost key = self.key->0@;
        let ghost msg = self.message@;
        proof {
            vstd::utf8::is_ascii_chars_encode_utf8(msg);
        }
        let extended = self.extend_key();
        let XorCipherAlg { operation: _, key: ext_key_opt, message } = extended;
        let ext_key = match ext_key_opt {
            Some(k) => k,
            None => {
                assert(false);
                String::new()
            },
        };
        proof {
            assert forall|i: int| 0 <= i < ext_key@.len() implies '\0' <= #[trigger] ext_key@[i]
                <= '\u{7f}' by {
                assert(ext_key@[i] == key[i % key.len() as int]);
            }
        }
        let bin_key = get_text_bin_value(ext_key);
        let bin_msg = get_text_bin_value(message);
        assert(bin_key@.len() == msg.len() && bin_msg@.len() == msg.len());
        let mut out: Vec<char> = Vec::new();
        let mut i: usize = 0;
        while i < bin_msg.len()
            invariant
                vstd::utf8::is_ascii_chars(key),
                vstd::utf8::is_ascii_chars(msg),
                msg.len() > 0 ==> key.len() > 0,
                bin_key@.len() == msg.len(),
                bin_msg@.len() == msg.len(),
                forall|j: int|
                    0 <= j < msg.len() ==> #[trigger] bin_key@[j]@ == crate::ops::char_bytes(
                        key[j % key.len() as int],
                    ),
                forall|j: int|
                    0 <= j < msg.len() ==> #[trigger] bin_msg@[j]@ == crate::ops::char_bytes(
                        msg[j],
                    ),
                i <= msg.len(),
                out@.len() == i,
                forall|j: int|
                    0 <= j < i ==> out@[j] == xor_char(key[j % key.len() as int], msg[j]),
            decreases msg.len() - i,
        {
            let ghost kc = key[(i as int) % (key.len() as int)];
            let ghost mc = msg[i as int];
            proof {
                lemma_ascii_char_bytes(kc);
                lemma_ascii_char_bytes(mc);
            }
            let kb = bin_key[i][0];
            let mb = bin_msg[i][0];
            assert(kb == kc as u8 && mb == mc as u8);
            let x = kb ^ mb;
            assert(x < 128) by (bit_vector)
                requires
                    kb < 128 && mb < 128 && x == (kb ^ mb),
            ;
            out.push(x as char);
            i = i + 1;
        }
        crate::ops::chars_to_string(&out)
    }

    /// Runs the XOR cipher: with a given key directly, and with no key
    /// under a freshly drawn random alphanumeric key of random length.
    /// Gives back nothing exactly when the key that would be used is empty
    /// while the message is not, where no character has a key byte under
    /// it.
    pub fn execute(self) -> (r: Option<String>)
        requires
            vstd::utf8::is_ascii_chars(self.message@),
            self.key matches Some(k) ==> vstd::utf8::is_ascii_chars(k@),
        ensures
            self.key matches Some(k) ==> ((r is Some) <==> (k@.len() > 0 || self.message@.len()
                == 0)),
            self.key matches Some(k) ==> (r matches Some(s) ==> s@ == xor_text(
                k@,
                self.message@,
            )),
            self.key is None ==> (r matches Some(s) ==> exists|kc: Seq<char>|
                {
                    &&& #[trigger] xor_text(kc, self.message@) == s@
                    &&& forall|i: int| 0 <= i < kc.len() ==> is_alphanumeric_char(#[trigger] kc[i])
                    &&& (self.message@.len() > 0 ==> kc.len() > 0)
                }),
            self.key is None ==> (r matches Some(s) ==> s@.len() == self.message@.len()),
            r is None ==> self.message@.len() > 0,
    {
        match self.key {
            Some(k) => {
                if k.as_str().is_empty() && !self.message.as_str().is_empty() {
                    None
                } else {
                    let ghost kv = k@;
                    let ghost mv = self.message@;
                    let inst = XorCipherAlg {
                        operation: self.operation,
                        key: Some(k),
                        message: self.message,
                    };
                    let s = inst.encode_decode();
                    proof {
                        assert(s@ =~= xor_text(kv, mv));
                    }
                    Some(s)
                }
            },
            None => {
                let key_len = random_usize();
                let rand_key = random_alphanumeric_string(key_len);
                proof {
                    assert forall|i: int| 0 <= i < rand_key@.len() implies '\0'
                        <= #[trigger] rand_key@[i] <= '\u{7f}' by {
                        assert(is_alphanumeric_char(rand_key@[i]));
                    }
                }
                if rand_key.as_str().is_empty() && !self.message.as_str().is_empty() {
                    None
                } else {
                    let ghost kv = rand_key@;
                    let ghost mv = self.message@;
                    let inst = XorCipherAlg {
                        operation: self.operation,
                        key: Some(rand_key),
                        message: self.message,
                    };
                    let s = inst.encode_decode();
                    proof {
                        assert(xor_text(kv, mv) =~= s@);
                    }
                    Some(s)
                }
            },
        }
    }
}

/// An ASCII character is encoded as the single byte of its own value.
proof fn lemma_ascii_char_bytes(c: char)
    requires
        '\0' <= c <= '\u{7f}',
    ensures
        crate::ops::char_bytes(c).len() == 1,
        crate::ops::char_bytes(c)[0] == c as u8,
        (c as u8) < 128,
{
    let u = c as u32;
    assert(vstd::utf8::encode_scalar(u) == seq![vstd::utf8::leading_byte_width_1(u)]);
    assert({
        &&& ((u & 0x7F) as u8) == (u as u8)
        &&& (u as u8) < 128
    }) by (bit_vector)
        requires
            u < 128,
    ;
}

} // verus!
