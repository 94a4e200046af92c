//! Bit-level plumbing shared by the ciphers: the text/bit codec, the block
//! segmenter, the table-driven permutation engine, and small bit-vector
//! helpers.
//!
//! A bit sequence is a `Vec<u8>` whose elements are all 0 or 1, ordered
//! most-significant bit first within each byte.

use vstd::prelude::*;

verus! {

/// True when every element of `s` is a single bit: 0 or 1.
pub open spec fn is_bit_seq(s: Seq<u8>) -> bool {
    forall|i: int| 0 <= i < s.len() ==> s[i] == 0 || s[i] == 1
}

/// 1 when `b` is the bit 1, else 0: only exact ones count toward parity.
pub open spec fn bit_one(b: u8) -> int {
    if b == 1 {
        1
    } else {
        0
    }
}

/// How many elements of the 8-bit sequence `s` are exactly 1.
pub open spec fn ones_in_byte(s: Seq<u8>) -> int
    recommends
        s.len() == 8,
{
    bit_one(s[0]) + bit_one(s[1]) + bit_one(s[2]) + bit_one(s[3]) + bit_one(s[4]) + bit_one(s[5])
        + bit_one(s[6]) + bit_one(s[7])
}

/// The byte spelled by the 8 bits of `s`, most-significant bit first.
pub open spec fn byte_of_bits(s: Seq<u8>) -> u8
    recommends
        s.len() == 8,
        is_bit_seq(s),
{
    (s[0] * 128 + s[1] * 64 + s[2] * 32 + s[3] * 16 + s[4] * 8 + s[5] * 4 + s[6] * 2 + s[7]) as u8
}

/// The 8 bits of `b`, most-significant bit first.
pub open spec fn bits_of_byte(b: u8) -> Seq<u8> {
    seq![
        (b / 128 % 2) as u8,
        (b / 64 % 2) as u8,
        (b / 32 % 2) as u8,
        (b / 16 % 2) as u8,
        (b / 8 % 2) as u8,
        (b / 4 % 2) as u8,
        (b / 2 % 2) as u8,
        (b % 2) as u8,
    ]
}

/// Packs 8 bits (most-significant first) into one byte.
pub fn bits_to_byte(bits: &[u8; 8]) -> (r: u8)
    requires
        is_bit_seq(bits@),
    ensures
        r == byte_of_bits(bits@),
{
    assert(forall|i: int| 0 <= i < 8 ==> bits@[i] <= 1);
    bits[0] * 128 + bits[1] * 64 + bits[2] * 32 + bits[3] * 16 + bits[4] * 8 + bits[5] * 4 + bits[6]
        * 2 + bits[7]
}

/// Unpacks one byte into its 8 bits, most-significant first.
pub fn byte_to_bits(byte: u8) -> (r: [u8; 8])
    ensures
        r@ == bits_of_byte(byte),
        is_bit_seq(r@),
{
    let r: [u8; 8] = [
        byte / 128 % 2,
        byte / 64 % 2,
        byte / 32 % 2,
        byte / 16 % 2,
        byte / 8 % 2,
        byte / 4 % 2,
        byte / 2 % 2,
        byte % 2,
    ];
    assert(r@ =~= bits_of_byte(byte));
    r
}

/// The 8-bit chunk `s` padded on the right with zero bits; a chunk that is
/// already too long is replaced by an all-zero chunk.
pub open spec fn chunk8_of(s: Seq<u8>) -> Seq<u8> {
    Seq::new(
        8,
        |i: int|
            if s.len() > 8 {
                0u8
            } else if i < s.len() {
                s[i]
            } else {
                0u8
            },
    )
}

/// Forces `chunk` into exactly 8 bits: shorter chunks are right-padded with
/// zeros, longer ones (an internal error) are replaced by all zeros.
pub fn is_a_8bit_chunk(chunk: &[u8]) -> (r: [u8; 8])
    ensures
        r@ == chunk8_of(chunk@),
{
    let mut out: [u8; 8] = [0u8; 8];
    if chunk.len() <= 8 {
        let mut i: usize = 0;
        while i < chunk.len()
            invariant
                chunk@.len() <= 8,
                i <= chunk@.len(),
                out@.len() == 8,
                forall|j: int| 0 <= j < i ==> out@[j] == chunk@[j],
                forall|j: int| i <= j < 8 ==> out@[j] == 0,
            decreases chunk@.len() - i,
        {
            out[i] = chunk[i];
            i = i + 1;
        }
    }
    assert(out@ =~= chunk8_of(chunk@));
    out
}

/// The 7-bit analogue of [`chunk8_of`].
pub open spec fn chunk7_of(s: Seq<u8>) -> Seq<u8> {
    Seq::new(
        7,
        |i: int|
            if s.len() > 7 {
                0u8
            } else if i < s.len() {
                s[i]
            } else {
                0u8
            },
    )
}

/// Forces `chunk` into exactly 7 bits, as [`is_a_8bit_chunk`] does for 8.
pub fn is_a_7bit_chunk(chunk: &[u8]) -> (r: [u8; 7])
    ensures
        r@ == chunk7_of(chunk@),
{
    let mut out: [u8; 7] = [0u8; 7];
    if chunk.len() <= 7 {
        let mut i: usize = 0;
        while i < chunk.len()
            invariant
                chunk@.len() <= 7,
                i <= chunk@.len(),
                out@.len() == 7,
                forall|j: int| 0 <= j < i ==> out@[j] == chunk@[j],
                forall|j: int| i <= j < 7 ==> out@[j] == 0,
            decreases chunk@.len() - i,
        {
            out[i] = chunk[i];
            i = i + 1;
        }
    }
    assert(out@ =~= chunk7_of(chunk@));
    out
}

/// [`chunk8_of`] generalized to a width of `x` bits.
pub open spec fn chunk_x_of(s: Seq<u8>, x: int) -> Seq<u8> {
    Seq::new(
        x as nat,
        |i: int|
            if s.len() > x {
                0u8
            } else if i < s.len() {
                s[i]
            } else {
                0u8
            },
    )
}

/// Forces `chunk` into exactly `x_bits_must_have` bits: shorter chunks are
/// right-padded with zeros, longer ones are replaced by all zeros.
pub fn is_a_xbit_chunk(chunk: &[u8], x_bits_must_have: usize) -> (r: Vec<u8>)
    ensures
        r@ == chunk_x_of(chunk@, x_bits_must_have as int),
{
    let x = x_bits_must_have;
    let mut out: Vec<u8> = Vec::new();
    if chunk.len() > x {
        let mut i: usize = 0;
        while i < x
            invariant
                chunk@.len() > x,
                i <= x,
                out@.len() == i,
                forall|j: int| 0 <= j < i ==> out@[j] == 0,
            decreases x - i,
        {
            out.push(0);
            i = i + 1;
        }
    } else {
        let mut i: usize = 0;
        while i < x
            invariant
                chunk@.len() <= x,
                i <= x,
                out@.len() == i,
                forall|j: int|
                    0 <= j < i ==> out@[j] == (if j < chunk@.len() {
                        chunk@[j]
                    } else {
                        0u8
                    }),
            decreases x - i,
        {
            if i < chunk.len() {
                out.push(chunk[i]);
            } else {
                out.push(0);
            }
            i = i + 1;
        }
    }
    assert(out@ =~= chunk_x_of(chunk@, x as int));
    out
}

/// The bit of `s` at position `k`, or the zero padding beyond its end.
pub open spec fn bit_at(s: Seq<u8>, k: int) -> u8 {
    if 0 <= k < s.len() {
        s[k]
    } else {
        0u8
    }
}

/// Forces a sequence of at most 8 bytes into exactly 8, right-padding with
/// all-zero bytes; more than 8 bytes (an internal error) gives all zeros.
pub fn is_a_8bytes_block(block: Vec<[u8; 8]>) -> (r: [[u8; 8]; 8])
    ensures
        forall|i: int, j: int|
            0 <= i < 8 && 0 <= j < 8 ==> r@[i]@[j] == (if block@.len() > 8 {
                0u8
            } else if i < block@.len() {
                block@[i]@[j]
            } else {
                0u8
            }),
{
    let zero_row: [u8; 8] = [0u8; 8];
    let mut out: [[u8; 8]; 8] = [zero_row; 8];
    if block.len() <= 8 {
        let mut i: usize = 0;
        while i < block.len()
            invariant
                block@.len() <= 8,
                i <= block@.len(),
                forall|k: int| 0 <= k < i ==> out@[k] == block@[k],
                forall|k: int, j: int| i <= k < 8 && 0 <= j < 8 ==> out@[k]@[j] == 0,
            decreases block@.len() - i,
        {
            out[i] = block[i];
            i = i + 1;
        }
    }
    out
}

/// The 64 bits of one 8x8 block, row by row.
pub open spec fn block_bits(b: [[u8; 8]; 8]) -> Seq<u8> {
    Seq::new(64, |k: int| b@[k / 8]@[k % 8])
}

/// Segments a bit sequence into 64-bit blocks of 8 bytes of 8 bits each,
/// zero-padding the final partial block.
pub fn make_64bits_blocks(bits: Vec<u8>) -> (r: Vec<[[u8; 8]; 8]>)
    ensures
        r@.len() == (bits@.len() + 63) / 64,
        forall|b: int, k: int|
            0 <= b < r@.len() && 0 <= k < 64 ==> block_bits(r@[b])[k] == bit_at(bits@, 64 * b + k),
{
    let n = bits.len();
    let nblocks: usize = n / 64 + (if n % 64 == 0 {
        0
    } else {
        1
    });
    assert(nblocks == (bits@.len() + 63) / 64);
    let mut out: Vec<[[u8; 8]; 8]> = Vec::new();
    let mut b: usize = 0;
    while b < nblocks
        invariant
            n == bits@.len(),
            nblocks == (bits@.len() + 63) / 64,
            b <= nblocks,
            out@.len() == b,
            forall|p: int, k: int|
                0 <= p < b && 0 <= k < 64 ==> block_bits(out@[p])[k] == bit_at(bits@, 64 * p + k),
        decreases nblocks - b,
    {
        let zero_row: [u8; 8] = [0u8; 8];
        let mut blk: [[u8; 8]; 8] = [zero_row; 8];
        let mut i: usize = 0;
        while i < 8
            invariant
                n == bits@.len(),
                b < nblocks,
                nblocks == (bits@.len() + 63) / 64,
                i <= 8,
                forall|p: int, j: int|
                    0 <= p < i && 0 <= j < 8 ==> blk@[p]@[j] == bit_at(bits@, 64 * b + 8 * p + j),
            decreases 8 - i,
        {
            let mut row: [u8; 8] = [0u8; 8];
            let mut j: usize = 0;
            while j < 8
                invariant
                    n == bits@.len(),
                    b < nblocks,
                    nblocks == (bits@.len() + 63) / 64,
                    i < 8,
                    j <= 8,
                    forall|q: int| 0 <= q < j ==> row@[q] == bit_at(bits@, 64 * b + 8 * i + q),
                decreases 8 - j,
            {
                let k = b * 64 + i * 8 + j;
                if k < n {
                    row[j] = bits[k];
                } else {
                    row[j] = 0;
                }
                j = j + 1;
            }
            blk[i] = row;
            i = i + 1;
        }
        proof {
            assert forall|k: int| 0 <= k < 64 implies block_bits(blk)[k] == bit_at(
                bits@,
                64 * b + k,
            ) by {
                assert(blk@[k / 8]@[k % 8] == bit_at(bits@, 64 * b + 8 * (k / 8) + (k % 8)));
            }
        }
        out.push(blk);
        b = b + 1;
    }
    out
}

/// The parity-fix step of the key schedule: when the count of 1-bits in the
/// 8-bit group is even, the last position is rewritten so the count becomes
/// odd; otherwise the group is returned unchanged.
pub open spec fn parity_fix(s: Seq<u8>) -> Seq<u8>
    recommends
        s.len() == 8,
{
    if ones_in_byte(s) % 2 == 0 {
        if s[7] == 0 {
            s.update(7, 1u8)
        } else {
            s.update(7, 0u8)
        }
    } else {
        s
    }
}

/// Rewrites the final bit of an 8-bit group so the whole group has an odd
/// count of 1-bits (the DES parity convention); a group that already has odd
/// parity is returned unchanged.
pub fn byte_parity_verify(byte: [u8; 8]) -> (r: [u8; 8])
    ensures
        r@ == parity_fix(byte@),
{
    let ones: u32 = (if byte[0] == 1 {
        1u32
    } else {
        0u32
    }) + (if byte[1] == 1 {
        1u32
    } else {
        0u32
    }) + (if byte[2] == 1 {
        1u32
    } else {
        0u32
    }) + (if byte[3] == 1 {
        1u32
    } else {
        0u32
    }) + (if byte[4] == 1 {
        1u32
    } else {
        0u32
    }) + (if byte[5] == 1 {
        1u32
    } else {
        0u32
    }) + (if byte[6] == 1 {
        1u32
    } else {
        0u32
    }) + (if byte[7] == 1 {
        1u32
    } else {
        0u32
    });
    if ones % 2 == 0 {
        let r: [u8; 8] = [
            byte[0],
            byte[1],
            byte[2],
            byte[3],
            byte[4],
            byte[5],
            byte[6],
            if byte[7] == 0 {
                1
            } else {
                0
            },
        ];
        assert(r@ =~= parity_fix(byte@));
        r
    } else {
        byte
    }
}

/// Applying the parity-fix step twice yields the same result as applying it
/// once: the first application makes the count of 1-bits odd, and a group
/// with odd parity passes through unchanged.
pub proof fn lemma_parity_fix_idempotent(s: Seq<u8>)
    requires
        s.len() == 8,
        is_bit_seq(s),
    ensures
        parity_fix(parity_fix(s)) == parity_fix(s),
{
    if ones_in_byte(s) % 2 == 0 {
        let t = parity_fix(s);
        assert(forall|i: int| 0 <= i < 7 ==> t[i] == s[i]);
        assert(ones_in_byte(t) % 2 == 1);
    }
}

/// True when every entry of `t` is a valid 1-based position of a sequence of
/// length `n`.
pub open spec fn table_in_range(t: Seq<u8>, n: int) -> bool {
    forall|i: int| 0 <= i < t.len() ==> 1 <= #[trigger] t[i] && t[i] <= n
}

/// The table-driven gather: output position `i` holds the input bit at the
/// 1-based position `t[i]`.
pub open spec fn permute_bits(b: Seq<u8>, t: Seq<u8>) -> Seq<u8>
    recommends
        table_in_range(t, b.len() as int),
{
    Seq::new(t.len(), |i: int| b[t[i] - 1])
}

/// Applies a declarative bit-reordering table to `block`: for each position
/// `i` of the table, emits `block[table[i] - 1]`. The output length is the
/// table length, which may differ from the input length.
pub fn permutation(block: Vec<u8>, concatenated_permut_table: Vec<u8>) -> (r: Vec<u8>)
    requires
        table_in_range(concatenated_permut_table@, block@.len() as int),
    ensures
        r@ == permute_bits(block@, concatenated_permut_table@),
{
    let t = &concatenated_permut_table;
    let mut out: Vec<u8> = Vec::new();
    let mut i: usize = 0;
    while i < t.len()
        invariant
            table_in_range(t@, block@.len() as int),
            i <= t@.len(),
            out@.len() == i,
            forall|j: int| 0 <= j < i ==> out@[j] == block@[t@[j] - 1],
        decreases t@.len() - i,
    {
        let pos = t[i];
        out.push(block[(pos - 1) as usize]);
        i = i + 1;
    }
    assert(out@ =~= permute_bits(block@, concatenated_permut_table@));
    out
}

/// A uniform sequence is a fixed point of every in-range permutation: when
/// all bits of `s` equal `v`, every bit of `permute_bits(s, t)` equals `v`
/// as well, whatever the table.
pub proof fn lemma_permute_uniform(s: Seq<u8>, t: Seq<u8>, v: u8)
    requires
        table_in_range(t, s.len() as int),
        forall|i: int| 0 <= i < s.len() ==> s[i] == v,
    ensures
        permute_bits(s, t).len() == t.len(),
        forall|i: int| 0 <= i < t.len() ==> permute_bits(s, t)[i] == v,
{
    assert forall|i: int| 0 <= i < t.len() implies permute_bits(s, t)[i] == v by {
        assert(1 <= t[i] <= s.len());
        assert(permute_bits(s, t)[i] == s[t[i] - 1]);
    }
}

/// Gathering from the vector that spells out its own one-based positions
/// copies the table: `permute_bits` applied to (1, 2, 3, ...) yields the
/// table itself.
pub proof fn lemma_permute_positions(x: Seq<u8>, t: Seq<u8>)
    requires
        table_in_range(t, x.len() as int),
        forall|i: int| 0 <= i < x.len() ==> x[i] == i + 1,
    ensures
        permute_bits(x, t) == t,
{
    assert forall|i: int| 0 <= i < t.len() implies permute_bits(x, t)[i] == t[i] by {
        assert(1 <= t[i] <= x.len());
        assert(permute_bits(x, t)[i] == x[t[i] - 1]);
    }
    assert(permute_bits(x, t) =~= t);
}

/// `s` shifted left by `n` positions, with zeros fed in on the right.
pub open spec fn shift_left_fill(s: Seq<u8>, n: int) -> Seq<u8> {
    Seq::new(
        s.len(),
        |i: int|
            if i + n < s.len() {
                s[i + n]
            } else {
                0u8
            },
    )
}

/// Shifts a bit vector left by `shift` positions, feeding zeros in on the
/// right; the length is unchanged and bits shifted past the front are lost.
pub fn left_shift_vec(bits_vec: Vec<u8>, shift: usize) -> (r: Vec<u8>)
    requires
        bits_vec@.len() > 0 || shift == 0,
    ensures
        r@ == shift_left_fill(bits_vec@, shift as int),
{
    let ghost orig = bits_vec@;
    let mut shift_vec = bits_vec;
    let mut k: usize = 0;
    while k < shift
        invariant
            orig.len() > 0 || shift == 0,
            k <= shift,
            shift_vec@ == shift_left_fill(orig, k as int),
        decreases shift - k,
    {
        let ghost before = shift_vec@;
        shift_vec.remove(0);
        shift_vec.push(0);
        proof {
            assert(shift_vec@ =~= shift_left_fill(orig, k + 1));
        }
        k = k + 1;
    }
    shift_vec
}

/// The UTF-8 bytes of a character, one 8-bit group per byte, flattened into
/// a bit sequence elsewhere.
pub open spec fn char_bytes(c: char) -> Seq<u8> {
    vstd::utf8::encode_scalar(c as u32)
}

/// Encodes one character as its UTF-8 bytes.
pub fn encode_char(c: char) -> (v: Vec<u8>)
    ensures
        v@ == char_bytes(c),
{
    proof {
        vstd::utf8::char_is_scalar(c);
    }
    let u = c as u32;
    let mut v: Vec<u8> = Vec::new();
    if u <= 0x7F {
        v.push((u & 0x7F) as u8);
    } else if u <= 0x7FF {
        v.push(0xC0 | ((u >> 6) & 0x1F) as u8);
        v.push(0x80 | (u & 0x3F) as u8);
    } else if u <= 0xFFFF {
        v.push(0xE0 | ((u >> 12) & 0x0F) as u8);
        v.push(0x80 | ((u >> 6) & 0x3F) as u8);
        v.push(0x80 | (u & 0x3F) as u8);
    } else {
        v.push(0xF0 | ((u >> 18) & 0x7) as u8);
        v.push(0x80 | ((u >> 12) & 0x3F) as u8);
        v.push(0x80 | ((u >> 6) & 0x3F) as u8);
        v.push(0x80 | (u & 0x3F) as u8);
    }
    assert(v@ =~= vstd::utf8::encode_scalar(u));
    v
}

/// Splits a character into 8-bit groups, one per byte of its UTF-8
/// representation (multi-byte characters give several groups).
pub fn char_to_bits(c: char) -> (r: Vec<[u8; 8]>)
    ensures
        r@.len() == char_bytes(c).len(),
        forall|i: int| 0 <= i < r@.len() ==> #[trigger] r@[i]@ == bits_of_byte(char_bytes(c)[i]),
{
    let bytes = encode_char(c);
    let mut r: Vec<[u8; 8]> = Vec::new();
    let mut i: usize = 0;
    while i < bytes.len()
        invariant
            bytes@ == char_bytes(c),
            i <= bytes@.len(),
            r@.len() == i,
            forall|j: int| 0 <= j < i ==> #[trigger] r@[j]@ == bits_of_byte(char_bytes(c)[j]),
        decreases bytes@.len() - i,
    {
        r.push(byte_to_bits(bytes[i]));
        i = i + 1;
    }
    r
}

/// Relies on String::from_utf8: it returns the decoded string exactly when
/// the bytes are a valid UTF-8 encoding, and an error otherwise.
#[verifier::external_body]
fn utf8_to_string(bytes: Vec<u8>) -> (r: Option<String>)
    ensures
        r is Some <==> vstd::utf8::valid_utf8(bytes@),
        r matches Some(s) ==> s@ == vstd::utf8::decode_utf8(bytes@),
{
    String::from_utf8(bytes).ok()
}

/// The character that a sequence of 8-bit groups decodes to: the first
/// character of the UTF-8 decoding, or a space when the bytes are not valid
/// character data or decode to nothing.
pub open spec fn char_of_byte_groups(bytes: Seq<u8>) -> char {
    if vstd::utf8::valid_utf8(bytes) && bytes.len() > 0 {
        vstd::utf8::decode_utf8(bytes)[0]
    } else {
        ' '
    }
}

/// Packs each 8-bit group into a byte and decodes the bytes as character
/// data, giving a space when they are not valid or empty.
pub fn bits_to_char(bits: Vec<[u8; 8]>) -> (r: char)
    requires
        forall|i: int| 0 <= i < bits@.len() ==> is_bit_seq(#[trigger] bits@[i]@),
    ensures
        r == char_of_byte_groups(Seq::new(bits@.len(), |i: int| byte_of_bits(bits@[i]@))),
{
    let ghost bs = Seq::new(bits@.len(), |i: int| byte_of_bits(bits@[i]@));
    let mut bytes: Vec<u8> = Vec::new();
    let mut i: usize = 0;
    while i < bits.len()
        invariant
            forall|j: int| 0 <= j < bits@.len() ==> is_bit_seq(#[trigger] bits@[j]@),
            bs == Seq::new(bits@.len(), |j: int| byte_of_bits(bits@[j]@)),
            i <= bits@.len(),
            bytes@ =~= bs.subrange(0, i as int),
        decreases bits@.len() - i,
    {
        let row = bits[i];
        bytes.push(bits_to_byte(&row));
        i = i + 1;
    }
    assert(bytes@ =~= bs);
    let is_empty = bytes.len() == 0;
    match utf8_to_string(bytes) {
        Some(s) => {
            if is_empty {
                ' '
            } else {
                assert(s@.len() > 0) by {
                    vstd::utf8::decode_utf8_encode_utf8(bs);
                }
                s.as_str().get_char(0)
            }
        },
        None => ' ',
    }
}

/// Appending one character to a text appends that character's UTF-8 bytes
/// to the text's encoding.
pub proof fn lemma_encode_utf8_push(s: Seq<char>, c: char)
    ensures
        vstd::utf8::encode_utf8(s.push(c)) == vstd::utf8::encode_utf8(s)
            + vstd::utf8::encode_scalar(c as u32),
    decreases s.len(),
{
    if s.len() == 0 {
        let sc = s.push(c);
        assert(sc.len() == 1 && sc[0] == c);
        assert(sc.drop_first() =~= Seq::<char>::empty());
        assert(vstd::utf8::encode_utf8(sc.drop_first()) == Seq::<u8>::empty());
        assert(vstd::utf8::encode_utf8(sc) == vstd::utf8::encode_scalar(sc[0] as u32)
            + vstd::utf8::encode_utf8(sc.drop_first()));
        assert(vstd::utf8::encode_utf8(s) == Seq::<u8>::empty());
        assert(vstd::utf8::encode_utf8(sc) =~= vstd::utf8::encode_utf8(s)
            + vstd::utf8::encode_scalar(c as u32));
    } else {
        lemma_encode_utf8_push(s.drop_first(), c);
        assert(s.push(c).drop_first() =~= s.drop_first().push(c));
        assert(s.push(c)[0] == s[0]);
        assert(vstd::utf8::encode_utf8(s.push(c)) == vstd::utf8::encode_scalar(s[0] as u32)
            + vstd::utf8::encode_utf8(s.drop_first().push(c)));
        assert(vstd::utf8::encode_utf8(s) == vstd::utf8::encode_scalar(s[0] as u32)
            + vstd::utf8::encode_utf8(s.drop_first()));
        assert(vstd::utf8::encode_utf8(s.push(c)) =~= vstd::utf8::encode_utf8(s)
            + vstd::utf8::encode_scalar(c as u32));
    }
}

/// Builds the text made of exactly the given characters.
pub fn chars_to_string(chars: &Vec<char>) -> (r: String)
    ensures
        r@ == chars@,
{
    let mut bytes: Vec<u8> = Vec::new();
    let mut i: usize = 0;
    while i < chars.len()
        invariant
            i <= chars@.len(),
            bytes@ == vstd::utf8::encode_utf8(chars@.subrange(0, i as int)),
        decreases chars@.len() - i,
    {
        let mut cb = encode_char(chars[i]);
        bytes.append(&mut cb);
        proof {
            lemma_encode_utf8_push(chars@.subrange(0, i as int), chars@[i as int]);
            assert(chars@.subrange(0, i + 1) =~= chars@.subrange(0, i as int).push(
                chars@[i as int],
            ));
        }
        i = i + 1;
    }
    assert(chars@.subrange(0, chars@.len() as int) =~= chars@);
    proof {
        vstd::utf8::encode_utf8_valid_utf8(chars@);
        vstd::utf8::encode_utf8_decode_utf8(chars@);
    }
    match utf8_to_string(bytes) {
        Some(s) => s,
        None => {
            assert(false);
            String::new()
        },
    }
}

/// The bits of a byte sequence, 8 per byte, most-significant first.
pub open spec fn bits_of_bytes(bytes: Seq<u8>) -> Seq<u8> {
    Seq::new(8 * bytes.len(), |i: int| bits_of_byte(bytes[i / 8])[i % 8])
}

/// Encodes a text as the flat sequence of the bits of its UTF-8 bytes, in
/// character order.
pub fn string_into_bits(message: String) -> (r: Vec<u8>)
    ensures
        r@ == bits_of_bytes(vstd::utf8::encode_utf8(message@)),
        is_bit_seq(r@),
{
    let bytes = message.as_str().as_bytes_vec();
    let mut r: Vec<u8> = Vec::new();
    let mut i: usize = 0;
    while i < bytes.len()
        invariant
            bytes@ == vstd::utf8::encode_utf8(message@),
            i <= bytes@.len(),
            r@.len() == 8 * i,
            forall|k: int| 0 <= k < r@.len() ==> #[trigger] r@[k] == bits_of_byte(bytes@[k / 8])[k % 8],
        decreases bytes@.len() - i,
    {
        let row = byte_to_bits(bytes[i]);
        let mut j: usize = 0;
        while j < 8
            invariant
                bytes@ == vstd::utf8::encode_utf8(message@),
                i < bytes@.len(),
                row@ == bits_of_byte(bytes@[i as int]),
                j <= 8,
                r@.len() == 8 * i + j,
                forall|k: int|
                    0 <= k < r@.len() ==> #[trigger] r@[k] == bits_of_byte(bytes@[k / 8])[k % 8],
            decreases 8 - j,
        {
            r.push(row[j]);
            proof {
                let k = r@.len() - 1;
                assert(k / 8 == i && k % 8 == j);
            }
            j = j + 1;
        }
        i = i + 1;
    }
    assert(r@ =~= bits_of_bytes(vstd::utf8::encode_utf8(message@)));
    assert forall|k: int| 0 <= k < r@.len() implies r@[k] == 0 || r@[k] == 1 by {
        let b = vstd::utf8::encode_utf8(message@)[k / 8];
        assert(bits_of_byte(b)[k % 8] == 0 || bits_of_byte(b)[k % 8] == 1);
    }
    r
}

/// The bytes spelled by a bit sequence, 8 bits per byte with the final
/// partial group right-padded with zero bits.
pub open spec fn bytes_of_bits(bits: Seq<u8>) -> Seq<u8> {
    Seq::new(
        ((bits.len() + 7) / 8) as nat,
        |i: int| byte_of_bits(Seq::new(8, |j: int| bit_at(bits, 8 * i + j))),
    )
}

/// The text that a bit sequence decodes to: its bytes decoded as UTF-8, or a
/// single space when they are not valid character data.
pub open spec fn text_of_bits(bits: Seq<u8>) -> Seq<char> {
    if vstd::utf8::valid_utf8(bytes_of_bits(bits)) {
        vstd::utf8::decode_utf8(bytes_of_bits(bits))
    } else {
        seq![' ']
    }
}

/// Groups the bits into bytes (zero-padding the final group) and decodes
/// them as text; bytes that are not valid character data give a single
/// space instead of failing.
pub fn bits_into_string(bits: Vec<u8>) -> (r: String)
    requires
        is_bit_seq(bits@),
    ensures
        r@ == text_of_bits(bits@),
{
    let ghost bs = bytes_of_bits(bits@);
    let n = bits.len();
    let nbytes: usize = n / 8 + (if n % 8 == 0 {
        0
    } else {
        1
    });
    assert(nbytes == (bits@.len() + 7) / 8);
    let mut bytes: Vec<u8> = Vec::new();
    let mut i: usize = 0;
    while i < nbytes
        invariant
            is_bit_seq(bits@),
            n == bits@.len(),
            nbytes == (bits@.len() + 7) / 8,
            bs == bytes_of_bits(bits@),
            i <= nbytes,
            bytes@ =~= bs.subrange(0, i as int),
        decreases nbytes - i,
    {
        let mut row: [u8; 8] = [0u8; 8];
        let mut j: usize = 0;
        while j < 8
            invariant
                is_bit_seq(bits@),
                n == bits@.len(),
                i < nbytes,
                nbytes == (bits@.len() + 7) / 8,
                j <= 8,
                forall|q: int| 0 <= q < j ==> row@[q] == bit_at(bits@, 8 * i + q),
                forall|q: int| j <= q < 8 ==> row@[q] == 0,
            decreases 8 - j,
        {
            let k = i * 8 + j;
            if k < n {
                row[j] = bits[k];
            }
            j = j + 1;
        }
        assert(row@ =~= Seq::new(8, |q: int| bit_at(bits@, 8 * (i as int) + q)));
        bytes.push(bits_to_byte(&row));
        proof {
            assert(bytes@ =~= bs.subrange(0, i + 1));
        }
        i = i + 1;
    }
    assert(bytes@ =~= bs);
    match utf8_to_string(bytes) {
        Some(s) => s,
        None => {
            let r = String::from_str(" ");
            proof {
                reveal_strlit(" ");
                assert(r@ =~= seq![' ']);
            }
            r
        },
    }
}

/// `s` rotated left by `n` positions: the first `n` elements move to the end.
pub open spec fn rotate_left_spec(s: Seq<u8>, n: int) -> Seq<u8>
    recommends
        0 <= n <= s.len(),
{
    s.subrange(n, s.len() as int) + s.subrange(0, n)
}

/// Rotates a bit vector left by `n` positions (the key-schedule rotation:
/// bits leaving on the left re-enter on the right).
pub fn rotate_left_vec(bits_vec: &Vec<u8>, n: usize) -> (r: Vec<u8>)
    requires
        n <= bits_vec@.len(),
    ensures
        r@ == rotate_left_spec(bits_vec@, n as int),
{
    let len = bits_vec.len();
    let mut out: Vec<u8> = Vec::new();
    let mut i: usize = n;
    while i < len
        invariant
            n <= len,
            len == bits_vec@.len(),
            n <= i <= len,
            out@ =~= bits_vec@.subrange(n as int, i as int),
        decreases len - i,
    {
        out.push(bits_vec[i]);
        i = i + 1;
    }
    let mut j: usize = 0;
    while j < n
        invariant
            n <= len,
            len == bits_vec@.len(),
            j <= n,
            out@ =~= bits_vec@.subrange(n as int, len as int) + bits_vec@.subrange(0, j as int),
        decreases n - j,
    {
        out.push(bits_vec[j]);
        j = j + 1;
    }
    assert(out@ =~= rotate_left_spec(bits_vec@, n as int));
    out
}

} // verus!
