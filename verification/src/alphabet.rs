//! The Latin alphabet that the character-substitution ciphers work over,
//! as positions 0..26, together with text-to-position conversions.

use vstd::prelude::*;
use vstd::string::StringSliceAdditionalSpecFns;

verus! {

/// The number of letters the substitution ciphers work over.
pub const ALPHABET_LEN: i8 = 26;

/// True when `c` is a letter of the Latin alphabet, in either case.
pub open spec fn is_ascii_letter(c: char) -> bool {
    ('a' <= c && c <= 'z') || ('A' <= c && c <= 'Z')
}

/// The position of `c` in the alphabet, ignoring case: 'a' and 'A' are 0,
/// 'z' and 'Z' are 25.
pub open spec fn letter_index(c: char) -> int
    recommends
        is_ascii_letter(c),
{
    if 'a' <= c && c <= 'z' {
        c as int - 97
    } else {
        c as int - 65
    }
}

/// The upper-case letter at position `i` of the alphabet.
pub open spec fn letter_of_index(i: int) -> char
    recommends
        0 <= i < 26,
{
    ((65 + i) as u8) as char
}

/// Position of a single letter in the alphabet, matching upper- or
/// lower-case spellings alike.
pub fn get_letter_position(letter: &str) -> (r: usize)
    requires
        letter@.len() == 1,
        is_ascii_letter(letter@[0]),
    ensures
        r == letter_index(letter@[0]),
        r < 26,
{
    let c = letter.get_char(0);
    let u = c as u32;
    if u >= 97 {
        (u - 97) as usize
    } else {
        (u - 65) as usize
    }
}

/// The alphabet positions of every letter of `text`, in order.
pub fn get_text_values(text: String) -> (r: Vec<usize>)
    requires
        forall|i: int| 0 <= i < text@.len() ==> is_ascii_letter(#[trigger] text@[i]),
    ensures
        r@.len() == text@.len(),
        forall|i: int| 0 <= i < r@.len() ==> r@[i] == letter_index(text@[i]),
{
    let mut r: Vec<usize> = Vec::new();
    let s = text.as_str();
    let n = s.unicode_len();
    let mut i: usize = 0;
    while i < n
        invariant
            n == text@.len(),
            s@ == text@,
            i <= n,
            r@.len() == i,
            forall|j: int| 0 <= j < text@.len() ==> is_ascii_letter(#[trigger] text@[j]),
            forall|j: int| 0 <= j < i ==> r@[j] == letter_index(text@[j]),
        decreases n - i,
    {
        let c = s.get_char(i);
        let u = c as u32;
        let p: usize = if u >= 97 {
            (u - 97) as usize
        } else {
            (u - 65) as usize
        };
        r.push(p);
        i = i + 1;
    }
    r
}

/// A byte mapped through the ASCII upper-case fold: the lower-case letters
/// move to their upper-case forms, every other byte is unchanged.
pub open spec fn ascii_upper_byte(b: u8) -> u8 {
    if 97 <= b <= 122 {
        (b - 32) as u8
    } else {
        b
    }
}

/// The UTF-8 bytes of `letter` with ASCII letters folded to upper case.
pub fn get_letter_bin_value(letter: &str) -> (r: Vec<u8>)
    ensures
        r@.len() == letter.spec_bytes().len(),
        forall|i: int| 0 <= i < r@.len() ==> r@[i] == ascii_upper_byte(letter.spec_bytes()[i]),
{
    let bytes = letter.as_bytes_vec();
    let mut r: Vec<u8> = Vec::new();
    let mut i: usize = 0;
    while i < bytes.len()
        invariant
            bytes@ == letter.spec_bytes(),
            i <= bytes@.len(),
            r@.len() == i,
            forall|j: int| 0 <= j < i ==> r@[j] == ascii_upper_byte(bytes@[j]),
        decreases bytes@.len() - i,
    {
        let b = bytes[i];
        if 97 <= b && b <= 122 {
            r.push(b - 32);
        } else {
            r.push(b);
        }
        i = i + 1;
    }
    r
}

/// The UTF-8 bytes of every character of `text`, one byte group per
/// character, in order.
pub fn get_text_bin_value(text: String) -> (r: Vec<Vec<u8>>)
    ensures
        r@.len() == text@.len(),
        forall|i: int| 0 <= i < r@.len() ==> #[trigger] r@[i]@ == crate::ops::char_bytes(text@[i]),
{
    let mut r: Vec<Vec<u8>> = Vec::new();
    let s = text.as_str();
    let n = s.unicode_len();
    let mut i: usize = 0;
    while i < n
        invariant
            n == text@.len(),
            s@ == text@,
            i <= n,
            r@.len() == i,
            forall|j: int| 0 <= j < i ==> #[trigger] r@[j]@ == crate::ops::char_bytes(text@[j]),
        decreases n - i,
    {
        let c = s.get_char(i);
        r.push(crate::ops::encode_char(c));
        i = i + 1;
    }
    r
}

/// The upper-case letter standing at alphabet position `i`.
pub fn alphabet_letter(i: usize) -> (c: char)
    requires
        i < 26,
    ensures
        c == letter_of_index(i as int),
{
    (65 + i as u8) as char
}

} // verus!
