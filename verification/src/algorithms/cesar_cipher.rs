//! The Caesar shift cipher: every letter of the message moves a fixed
//! number of alphabet positions, with wrap-around at the ends of the
//! alphabet.

use vstd::prelude::*;

use crate::Operations;
use crate::alphabet::{is_ascii_letter, letter_index, letter_of_index, ALPHABET_LEN};

verus! {

/// The shifted alphabet position of `c`: positions past the end of the
/// alphabet wrap by one alphabet length, and negative positions are folded
/// back by shifting the other way plus one alphabet length.
pub open spec fn shift_pos_spec(shift: int, c: char) -> int
    recommends
        is_ascii_letter(c),
{
    let p = letter_index(c);
    if p + shift > 26 {
        p + shift - 26
    } else if p + shift < 0 {
        p - shift + 26
    } else {
        p + shift
    }
}

/// The character the cipher writes for `c`: the letter at the shifted
/// position, or a space when the shifted position falls outside the
/// alphabet.
pub open spec fn cesar_char(shift: int, c: char) -> char {
    let p = shift_pos_spec(shift, c);
    if 0 <= p < 26 {
        letter_of_index(p)
    } else {
        ' '
    }
}

/// True when every character of the message is a letter and the position
/// arithmetic of `shift_pos` stays inside the width of its integer type.
pub open spec fn cesar_input_ok(shift: int, message: Seq<char>) -> bool {
    forall|i: int|
        0 <= i < message.len() ==> {
            let c = #[trigger] message[i];
            &&& is_ascii_letter(c)
            &&& letter_index(c) + shift <= 127
            &&& (letter_index(c) + shift < 0 ==> letter_index(c) - shift + 26 <= 127)
        }
}

/// A Caesar-shift invocation: the direction, the shift amount, and the
/// message.
#[derive(Debug, Clone)]
pub struct CesarCipherAlg {
    /// Encrypt or decrypt (both run the same position shift).
    pub operation: Operations,
    /// How many alphabet positions each letter moves.
    pub shift: i8,
    /// The message to transform; every character must be a letter.
    pub message: String,
}

/// The shifted alphabet position of one letter.
fn shift_pos_of(shift: i8, c: char) -> (r: usize)
    requires
        is_ascii_letter(c),
        letter_index(c) + shift <= 127,
        letter_index(c) + shift < 0 ==> letter_index(c) - shift + 26 <= 127,
    ensures
        r == shift_pos_spec(shift as int, c),
{
    let u = c as u32;
    let letter_pos: i8 = if u >= 97 {
        (u - 97) as i8
    } else {
        (u - 65) as i8
    };
    assert(letter_pos == letter_index(c));
    if letter_pos + shift > ALPHABET_LEN {
        (letter_pos + shift - ALPHABET_LEN) as usize
    } else if letter_pos + shift < 0 {
        (letter_pos - shift + ALPHABET_LEN) as usize
    } else {
        (letter_pos + shift) as usize
    }
}

impl CesarCipherAlg {
    /// The shifted alphabet position of `c` under this invocation's shift.
    pub fn shift_pos(self, c: char) -> (r: usize)
        requires
            is_ascii_letter(c),
            letter_index(c) + self.shift <= 127,
            letter_index(c) + self.shift < 0 ==> letter_index(c) - self.shift + 26 <= 127,
        ensures
            r == shift_pos_spec(self.shift as int, c),
    {
        shift_pos_of(self.shift, c)
    }

    /// Shifts every letter of the message, writing a space wherever the
    /// shifted position falls outside the alphabet.
    fn encode_decode(self) -> (r: String)
        requires
            cesar_input_ok(self.shift as int, self.message@),
        ensures
            r@.len() == self.message@.len(),
            forall|i: int|
                0 <= i < r@.len() ==> r@[i] == cesar_char(self.shift as int, self.message@[i]),
    {
        let ghost msg = self.message@;
        let ghost shift = self.shift as int;
        let s = self.message.as_str();
        let n = s.unicode_len();
        let mut out: Vec<char> = Vec::new();
        let mut i: usize = 0;
        while i < n
            invariant
                s@ == msg,
                n == msg.len(),
                shift == self.shift as int,
                cesar_input_ok(shift, msg),
                i <= n,
                out@.len() == i,
                forall|j: int| 0 <= j < i ==> out@[j] == cesar_char(shift, msg[j]),
            decreases n - i,
        {
            let c = s.get_char(i);
            let pos = shift_pos_of(self.shift, c);
            if pos < 26 {
                out.push(crate::alphabet::alphabet_letter(pos));
            } else {
                out.push(' ');
            }
            i = i + 1;
        }
        crate::ops::chars_to_string(&out)
    }

    /// Runs the shift over the message; encryption and decryption both
    /// apply the same position shift.
    pub fn execute(self) -> (r: String)
        requires
            cesar_input_ok(self.shift as int, self.message@),
        ensures
            r@.len() == self.message@.len(),
            forall|i: int|
                0 <= i < r@.len() ==> r@[i] == cesar_char(self.shift as int, self.message@[i]),
    {
        match self.operation {
            Operations::Encrypt => self.encode_decode(),
            Operations::Decrypt => self.encode_decode(),
        }
    }
}

} // verus!
