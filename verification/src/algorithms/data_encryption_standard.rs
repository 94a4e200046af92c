//! The Data Encryption Standard: a 64-bit Feistel block cipher driven by a
//! 56-bit effective key expanded into sixteen 48-bit round keys.
//!
//! Blocks and keys are bit vectors (`Vec<u8>` of 0/1 values), most
//! significant bit first. Encryption applies the initial permutation,
//! sixteen Feistel rounds, the final half-swap-undo and the final
//! permutation to every 64-bit block independently; decryption runs the
//! same structure with the round keys in reverse order.

use vstd::prelude::*;

use crate::Operations;
use crate::ops::{
    bit_at, is_bit_seq, permute_bits, permutation, rotate_left_spec, rotate_left_vec, parity_fix,
    byte_parity_verify, table_in_range,
};
use crate::tables::{
    initial_permutation_table, initial_permutation_table_spec, final_permutation_table,
    final_permutation_table_spec, pc1_table, pc1_table_spec, pc2_table, pc2_table_spec,
    expansion_table, expansion_table_spec, pbox_table, pbox_table_spec, shift_schedule,
    shift_schedule_spec, sbox_tables, sbox_spec, lemma_ip_table_in_range,
    lemma_fp_table_in_range, lemma_pc1_table_in_range, lemma_pc2_table_in_range,
    lemma_expansion_table_in_range, lemma_pbox_table_in_range, lemma_shift_schedule_in_range,
    lemma_sbox_bounds, lemma_ip_fp_inverse,
};

verus! {

/// Bitwise exclusive-or of two equal-length bit sequences.
pub open spec fn xor_bits(a: Seq<u8>, b: Seq<u8>) -> Seq<u8>
    recommends
        a.len() == b.len(),
{
    Seq::new(
        a.len(),
        |i: int|
            if a[i] == b[i] {
                0u8
            } else {
                1u8
            },
    )
}

/// Exclusive-or of two equal-length bit vectors, element by element.
pub fn xor_vec(a: &Vec<u8>, b: &Vec<u8>) -> (r: Vec<u8>)
    requires
        a@.len() == b@.len(),
    ensures
        r@ == xor_bits(a@, b@),
        is_bit_seq(r@),
{
    let mut r: Vec<u8> = Vec::new();
    let mut i: usize = 0;
    while i < a.len()
        invariant
            a@.len() == b@.len(),
            i <= a@.len(),
            r@.len() == i,
            forall|j: int|
                0 <= j < i ==> r@[j] == (if a@[j] == b@[j] {
                    0u8
                } else {
                    1u8
                }),
        decreases a@.len() - i,
    {
        if a[i] == b[i] {
            r.push(0);
        } else {
            r.push(1);
        }
        i = i + 1;
    }
    assert(r@ =~= xor_bits(a@, b@));
    r
}

/// A fresh copy of a bit vector.
fn copy_bits(v: &Vec<u8>) -> (r: Vec<u8>)
    ensures
        r@ == v@,
{
    let mut r: Vec<u8> = Vec::new();
    let mut i: usize = 0;
    while i < v.len()
        invariant
            i <= v@.len(),
            r@ =~= v@.subrange(0, i as int),
        decreases v@.len() - i,
    {
        r.push(v[i]);
        i = i + 1;
    }
    assert(r@ =~= v@);
    r
}

/// The S-box row selected by a 6-bit group: its outer two bits.
pub open spec fn sbox_row_of(g: Seq<u8>) -> int
    recommends
        g.len() == 6,
        is_bit_seq(g),
{
    2 * g[0] + g[5]
}

/// The S-box column selected by a 6-bit group: its inner four bits.
pub open spec fn sbox_col_of(g: Seq<u8>) -> int
    recommends
        g.len() == 6,
        is_bit_seq(g),
{
    8 * g[1] + 4 * g[2] + 2 * g[3] + g[4]
}

/// The four bits of a 4-bit value, most-significant first.
pub open spec fn nibble_bits(v: u8) -> Seq<u8> {
    seq![(v / 8 % 2) as u8, (v / 4 % 2) as u8, (v / 2 % 2) as u8, (v % 2) as u8]
}

/// The 4-bit output of S-box `j` for the `j`-th 6-bit group of the 48-bit
/// round value `x`.
pub open spec fn sbox_value(x: Seq<u8>, j: int) -> u8
    recommends
        x.len() == 48,
        is_bit_seq(x),
        0 <= j < 8,
{
    let g = x.subrange(6 * j, 6 * j + 6);
    sbox_spec(j)[16 * sbox_row_of(g) + sbox_col_of(g)]
}

/// The substitution step: the 48 bits are split into eight 6-bit groups,
/// each group is looked up in its S-box, and the eight 4-bit outputs are
/// concatenated into 32 bits.
pub open spec fn substitute_spec(x: Seq<u8>) -> Seq<u8>
    recommends
        x.len() == 48,
        is_bit_seq(x),
{
    Seq::new(32, |i: int| nibble_bits(sbox_value(x, i / 4))[i % 4])
}

/// Looks each 6-bit group of `x` up in its S-box (outer bits select the
/// row, inner bits the column) and concatenates the 4-bit results.
pub fn substitute(x: &Vec<u8>) -> (r: Vec<u8>)
    requires
        x@.len() == 48,
        is_bit_seq(x@),
    ensures
        r@ == substitute_spec(x@),
        is_bit_seq(r@),
{
    proof {
        lemma_sbox_bounds();
    }
    let tables = sbox_tables();
    let mut r: Vec<u8> = Vec::new();
    let mut j: usize = 0;
    while j < 8
        invariant
            x@.len() == 48,
            is_bit_seq(x@),
            tables@.len() == 8,
            forall|p: int| 0 <= p < 8 ==> #[trigger] tables@[p]@ == sbox_spec(p),
            forall|p: int, q: int| 0 <= p < 8 && 0 <= q < 64 ==> #[trigger] sbox_spec(p)[q] <= 15,
            forall|p: int| 0 <= p < 8 ==> sbox_spec(p).len() == 64,
            j <= 8,
            r@.len() == 4 * j,
            forall|i: int| 0 <= i < 4 * j ==> r@[i] == substitute_spec(x@)[i],
        decreases 8 - j,
    {
        let g0 = x[6 * j];
        let g1 = x[6 * j + 1];
        let g2 = x[6 * j + 2];
        let g3 = x[6 * j + 3];
        let g4 = x[6 * j + 4];
        let g5 = x[6 * j + 5];
        let row: usize = (2 * g0 + g5) as usize;
        let col: usize = (8 * g1 + 4 * g2 + 2 * g3 + g4) as usize;
        proof {
            let g = x@.subrange(6 * j as int, 6 * j as int + 6);
            assert(g[0] == g0 && g[1] == g1 && g[2] == g2 && g[3] == g3 && g[4] == g4 && g[5]
                == g5);
            assert(row == sbox_row_of(g) && col == sbox_col_of(g));
        }
        let v = tables[j][16 * row + col];
        assert(v == sbox_value(x@, j as int) && v <= 15);
        r.push(v / 8 % 2);
        r.push(v / 4 % 2);
        r.push(v / 2 % 2);
        r.push(v % 2);
        proof {
            assert forall|i: int| 4 * j <= i < 4 * j + 4 implies r@[i] == substitute_spec(x@)[i] by {
                assert(i / 4 == j as int);
                assert(r@[i] == nibble_bits(v)[i % 4]);
            }
        }
        j = j + 1;
    }
    assert(r@ =~= substitute_spec(x@));
    assert forall|i: int| 0 <= i < 32 implies r@[i] == 0 || r@[i] == 1 by {
        assert(substitute_spec(x@)[i] == nibble_bits(sbox_value(x@, i / 4))[i % 4]);
    }
    r
}

/// Any 6-bit group selects a row between 0 and 3 and a column between 0
/// and 15, so together with the table bounds every S-box output is a
/// single 4-bit value.
pub proof fn lemma_sbox_selector_bounds(g: Seq<u8>)
    requires
        g.len() == 6,
        is_bit_seq(g),
    ensures
        0 <= sbox_row_of(g) < 4,
        0 <= sbox_col_of(g) < 16,
{
}

/// The Feistel round function f: expand the 32-bit half to 48 bits, mix in
/// the round key, substitute through the S-boxes, and permute with the
/// P-box.
pub open spec fn feistel_f(r: Seq<u8>, k: Seq<u8>) -> Seq<u8>
    recommends
        r.len() == 32,
        k.len() == 48,
        is_bit_seq(r),
        is_bit_seq(k),
{
    permute_bits(
        substitute_spec(xor_bits(permute_bits(r, expansion_table_spec()), k)),
        pbox_table_spec(),
    )
}

/// One Feistel round: the new left half is the old right half, and the new
/// right half is the old left half XORed with f(right, key).
pub open spec fn round_spec(l: Seq<u8>, r: Seq<u8>, k: Seq<u8>) -> (Seq<u8>, Seq<u8>)
    recommends
        l.len() == 32,
        r.len() == 32,
        k.len() == 48,
{
    (r, xor_bits(l, feistel_f(r, k)))
}

/// A permutation of a bit sequence through an in-range table is again a bit
/// sequence, of the table's length.
pub proof fn lemma_permute_bits_preserves(b: Seq<u8>, t: Seq<u8>)
    requires
        table_in_range(t, b.len() as int),
        is_bit_seq(b),
    ensures
        permute_bits(b, t).len() == t.len(),
        is_bit_seq(permute_bits(b, t)),
{
    assert forall|i: int| 0 <= i < t.len() implies permute_bits(b, t)[i] == 0 || permute_bits(
        b,
        t,
    )[i] == 1 by {
        assert(1 <= t[i] <= b.len());
        assert(permute_bits(b, t)[i] == b[t[i] - 1]);
    }
}

/// The value f(r, k) is a 32-bit bit sequence whenever its inputs are
/// bit sequences of the round's widths.
pub proof fn lemma_feistel_f_bits(r: Seq<u8>, k: Seq<u8>)
    requires
        r.len() == 32,
        k.len() == 48,
        is_bit_seq(r),
        is_bit_seq(k),
    ensures
        feistel_f(r, k).len() == 32,
        is_bit_seq(feistel_f(r, k)),
{
    lemma_expansion_table_in_range();
    lemma_pbox_table_in_range();
    let e = permute_bits(r, expansion_table_spec());
    lemma_permute_bits_preserves(r, expansion_table_spec());
    let xk = xor_bits(e, k);
    let s = substitute_spec(xk);
    lemma_sbox_bounds();
    assert forall|i: int| 0 <= i < 32 implies s[i] == 0 || s[i] == 1 by {
        assert(s[i] == nibble_bits(sbox_value(xk, i / 4))[i % 4]);
    }
    assert(s.len() == 32);
    lemma_permute_bits_preserves(s, pbox_table_spec());
}

/// Runs one Feistel round on the two 32-bit halves with a 48-bit round key.
pub fn feistel_round(l: &Vec<u8>, r: &Vec<u8>, k: &Vec<u8>) -> (res: (Vec<u8>, Vec<u8>))
    requires
        l@.len() == 32,
        r@.len() == 32,
        k@.len() == 48,
        is_bit_seq(l@),
        is_bit_seq(r@),
        is_bit_seq(k@),
    ensures
        res.0@ == round_spec(l@, r@, k@).0,
        res.1@ == round_spec(l@, r@, k@).1,
        res.0@.len() == 32 && res.1@.len() == 32,
        is_bit_seq(res.0@) && is_bit_seq(res.1@),
{
    proof {
        lemma_expansion_table_in_range();
        lemma_pbox_table_in_range();
        lemma_permute_bits_preserves(r@, expansion_table_spec());
        lemma_feistel_f_bits(r@, k@);
    }
    let e = permutation(copy_bits(r), expansion_table());
    let xk = xor_vec(&e, k);
    let s = substitute(&xk);
    let f = permutation(s, pbox_table());
    let nr = xor_vec(l, &f);
    (copy_bits(r), nr)
}

/// The 64-bit key after the parity step: every 8-bit group is rewritten so
/// its count of 1-bits is odd.
pub open spec fn parity_fixed_key(key: Seq<u8>) -> Seq<u8>
    recommends
        key.len() == 64,
{
    Seq::new(64, |i: int| parity_fix(key.subrange(8 * (i / 8), 8 * (i / 8) + 8))[i % 8])
}

/// The two 28-bit key halves C and D after `r` rounds of the schedule:
/// round 0 is PC-1 of the parity-fixed key, and each later round rotates
/// both halves left by the schedule's shift for that round.
pub open spec fn key_halves(key: Seq<u8>, r: int) -> (Seq<u8>, Seq<u8>)
    recommends
        key.len() == 64,
        0 <= r <= 16,
    decreases r,
{
    if r <= 0 {
        let cd = permute_bits(parity_fixed_key(key), pc1_table_spec());
        (cd.subrange(0, 28), cd.subrange(28, 56))
    } else {
        let prev = key_halves(key, r - 1);
        let s = shift_schedule_spec()[r - 1] as int;
        (rotate_left_spec(prev.0, s), rotate_left_spec(prev.1, s))
    }
}

/// The 48-bit round key of round `r` (1-based): PC-2 applied to the
/// concatenated halves C_r and D_r.
pub open spec fn round_key_spec(key: Seq<u8>, r: int) -> Seq<u8>
    recommends
        key.len() == 64,
        1 <= r <= 16,
{
    permute_bits(key_halves(key, r).0 + key_halves(key, r).1, pc2_table_spec())
}

/// The ordered sequence of the sixteen round keys of `key`.
pub open spec fn key_schedule_spec(key: Seq<u8>) -> Seq<Seq<u8>>
    recommends
        key.len() == 64,
{
    Seq::new(16, |i: int| round_key_spec(key, i + 1))
}

/// The key halves after any round are 28-bit bit sequences whenever the key
/// is a 64-bit bit sequence.
pub proof fn lemma_key_halves_bits(key: Seq<u8>, r: int)
    requires
        key.len() == 64,
        is_bit_seq(key),
        0 <= r <= 16,
    ensures
        key_halves(key, r).0.len() == 28,
        key_halves(key, r).1.len() == 28,
        is_bit_seq(key_halves(key, r).0),
        is_bit_seq(key_halves(key, r).1),
    decreases r,
{
    if r <= 0 {
        let pfk = parity_fixed_key(key);
        assert forall|i: int| 0 <= i < 64 implies pfk[i] == 0 || pfk[i] == 1 by {
            let sub = key.subrange(8 * (i / 8), 8 * (i / 8) + 8);
            assert(is_bit_seq(sub));
            assert(parity_fix(sub)[i % 8] == 0 || parity_fix(sub)[i % 8] == 1);
        }
        lemma_pc1_table_in_range();
        lemma_permute_bits_preserves(pfk, pc1_table_spec());
        let cd = permute_bits(pfk, pc1_table_spec());
        assert(is_bit_seq(cd.subrange(0, 28)));
        assert(is_bit_seq(cd.subrange(28, 56)));
    } else {
        lemma_key_halves_bits(key, r - 1);
        lemma_shift_schedule_in_range();
        let prev = key_halves(key, r - 1);
        let s = shift_schedule_spec()[r - 1] as int;
        assert(is_bit_seq(rotate_left_spec(prev.0, s)));
        assert(is_bit_seq(rotate_left_spec(prev.1, s)));
    }
}

/// Every round key is a 48-bit bit sequence whenever the key is a 64-bit
/// bit sequence.
pub proof fn lemma_round_key_bits(key: Seq<u8>, r: int)
    requires
        key.len() == 64,
        is_bit_seq(key),
        1 <= r <= 16,
    ensures
        round_key_spec(key, r).len() == 48,
        is_bit_seq(round_key_spec(key, r)),
{
    lemma_key_halves_bits(key, r);
    lemma_pc2_table_in_range();
    let cd = key_halves(key, r).0 + key_halves(key, r).1;
    assert(is_bit_seq(cd));
    lemma_permute_bits_preserves(cd, pc2_table_spec());
}

/// The same key always yields the same ordered sequence of round keys: the
/// schedule is a function of the key bits alone.
pub proof fn lemma_key_schedule_deterministic(k1: Seq<u8>, k2: Seq<u8>)
    requires
        k1 == k2,
    ensures
        key_schedule_spec(k1) == key_schedule_spec(k2),
{
}

/// Derives the sixteen 48-bit round keys from a 64-bit key: parity step,
/// PC-1, then per round a left-rotation of both halves and PC-2.
pub fn key_schedule(key_bits: &Vec<u8>) -> (keys: Vec<Vec<u8>>)
    requires
        key_bits@.len() == 64,
        is_bit_seq(key_bits@),
    ensures
        keys@.len() == 16,
        forall|i: int| 0 <= i < 16 ==> #[trigger] keys@[i]@ == key_schedule_spec(key_bits@)[i],
        forall|i: int| 0 <= i < 16 ==> (#[trigger] keys@[i]@).len() == 48 && is_bit_seq(keys@[i]@),
{
    let ghost key = key_bits@;
    // Parity step, one 8-bit group at a time.
    let mut fixed: Vec<u8> = Vec::new();
    let mut i: usize = 0;
    while i < 8
        invariant
            key == key_bits@,
            key.len() == 64,
            is_bit_seq(key),
            i <= 8,
            fixed@.len() == 8 * i,
            forall|k: int| 0 <= k < 8 * i ==> fixed@[k] == parity_fixed_key(key)[k],
        decreases 8 - i,
    {
        let row: [u8; 8] = [
            key_bits[8 * i],
            key_bits[8 * i + 1],
            key_bits[8 * i + 2],
            key_bits[8 * i + 3],
            key_bits[8 * i + 4],
            key_bits[8 * i + 5],
            key_bits[8 * i + 6],
            key_bits[8 * i + 7],
        ];
        assert(row@ =~= key.subrange(8 * (i as int), 8 * (i as int) + 8));
        let fr = byte_parity_verify(row);
        fixed.push(fr[0]);
        fixed.push(fr[1]);
        fixed.push(fr[2]);
        fixed.push(fr[3]);
        fixed.push(fr[4]);
        fixed.push(fr[5]);
        fixed.push(fr[6]);
        fixed.push(fr[7]);
        proof {
            assert forall|k: int| 8 * i <= k < 8 * i + 8 implies fixed@[k] == parity_fixed_key(
                key,
            )[k] by {
                assert(k / 8 == i as int);
                assert(fixed@[k] == fr@[k % 8]);
            }
        }
        i = i + 1;
    }
    assert(fixed@ =~= parity_fixed_key(key));
    proof {
        lemma_pc1_table_in_range();
        lemma_key_halves_bits(key, 0);
    }
    let cd = permutation(fixed, pc1_table());
    let mut c: Vec<u8> = Vec::new();
    let mut d: Vec<u8> = Vec::new();
    let mut p: usize = 0;
    while p < 28
        invariant
            cd@ == permute_bits(parity_fixed_key(key), pc1_table_spec()),
            cd@.len() == 56,
            p <= 28,
            c@ =~= cd@.subrange(0, p as int),
        decreases 28 - p,
    {
        c.push(cd[p]);
        p = p + 1;
    }
    let mut q: usize = 28;
    while q < 56
        invariant
            cd@ == permute_bits(parity_fixed_key(key), pc1_table_spec()),
            cd@.len() == 56,
            28 <= q <= 56,
            d@ =~= cd@.subrange(28, q as int),
        decreases 56 - q,
    {
        d.push(cd[q]);
        q = q + 1;
    }
    assert(c@ == key_halves(key, 0).0);
    assert(d@ == key_halves(key, 0).1);
    let schedule = shift_schedule();
    let mut keys: Vec<Vec<u8>> = Vec::new();
    let mut r: usize = 0;
    while r < 16
        invariant
            key.len() == 64,
            is_bit_seq(key),
            schedule@ == shift_schedule_spec(),
            r <= 16,
            c@ == key_halves(key, r as int).0,
            d@ == key_halves(key, r as int).1,
            keys@.len() == r,
            forall|t: int| 0 <= t < r ==> #[trigger] keys@[t]@ == key_schedule_spec(key)[t],
        decreases 16 - r,
    {
        proof {
            lemma_shift_schedule_in_range();
            lemma_key_halves_bits(key, r as int);
            lemma_key_halves_bits(key, r as int + 1);
        }
        let s = schedule[r] as usize;
        c = rotate_left_vec(&c, s);
        d = rotate_left_vec(&d, s);
        assert(c@ == key_halves(key, r as int + 1).0);
        assert(d@ == key_halves(key, r as int + 1).1);
        let mut cdv = copy_bits(&c);
        let mut dv = copy_bits(&d);
        cdv.append(&mut dv);
        assert(cdv@ == key_halves(key, r as int + 1).0 + key_halves(key, r as int + 1).1);
        proof {
            lemma_pc2_table_in_range();
        }
        let rk = permutation(cdv, pc2_table());
        assert(rk@ == round_key_spec(key, r as int + 1));
        keys.push(rk);
        r = r + 1;
    }
    proof {
        assert forall|t: int| 0 <= t < 16 implies (#[trigger] keys@[t]@).len() == 48 && is_bit_seq(
            keys@[t]@,
        ) by {
            lemma_round_key_bits(key, t + 1);
        }
    }
    keys
}

/// Flattens an 8x8 block of bits into a 64-element bit vector, row by row.
fn flatten_block(block: &[[u8; 8]; 8]) -> (r: Vec<u8>)
    ensures
        r@ == crate::ops::block_bits(*block),
{
    let mut r: Vec<u8> = Vec::new();
    let mut i: usize = 0;
    while i < 8
        invariant
            i <= 8,
            r@.len() == 8 * i,
            forall|k: int| 0 <= k < 8 * i ==> r@[k] == block@[k / 8]@[k % 8],
        decreases 8 - i,
    {
        let mut j: usize = 0;
        while j < 8
            invariant
                i < 8,
                j <= 8,
                r@.len() == 8 * i + j,
                forall|k: int| 0 <= k < 8 * i + j ==> r@[k] == block@[k / 8]@[k % 8],
            decreases 8 - j,
        {
            r.push(block[i][j]);
            proof {
                let k = r@.len() - 1;
                assert(k / 8 == i as int && k % 8 == j as int);
            }
            j = j + 1;
        }
        i = i + 1;
    }
    assert(r@ =~= crate::ops::block_bits(*block));
    r
}

/// Applies the initial permutation IP to an 8x8 block of bits.
pub fn initial_permutation(block: [[u8; 8]; 8]) -> (r: [[u8; 8]; 8])
    ensures
        crate::ops::block_bits(r) == permute_bits(
            crate::ops::block_bits(block),
            initial_permutation_table_spec(),
        ),
{
    let flat = flatten_block(&block);
    proof {
        lemma_ip_table_in_range();
    }
    let permuted = permutation(flat, initial_permutation_table());
    let blocks = crate::ops::make_64bits_blocks(permuted);
    let out = blocks[0];
    proof {
        assert(crate::ops::block_bits(out) =~= permute_bits(
            crate::ops::block_bits(block),
            initial_permutation_table_spec(),
        ));
    }
    out
}

/// Applies the final permutation FP (the inverse of IP) to an 8x8 block of
/// bits.
pub fn final_permutation(block: [[u8; 8]; 8]) -> (r: [[u8; 8]; 8])
    ensures
        crate::ops::block_bits(r) == permute_bits(
            crate::ops::block_bits(block),
            final_permutation_table_spec(),
        ),
{
    let flat = flatten_block(&block);
    proof {
        lemma_fp_table_in_range();
    }
    let permuted = permutation(flat, final_permutation_table());
    let blocks = crate::ops::make_64bits_blocks(permuted);
    let out = blocks[0];
    proof {
        assert(crate::ops::block_bits(out) =~= permute_bits(
            crate::ops::block_bits(block),
            final_permutation_table_spec(),
        ));
    }
    out
}

/// The halves after running the first `n` Feistel rounds on (l, r) with the
/// given round keys, consumed in order.
pub open spec fn rounds_spec(l: Seq<u8>, r: Seq<u8>, keys: Seq<Seq<u8>>, n: int) -> (
    Seq<u8>,
    Seq<u8>,
)
    recommends
        0 <= n <= keys.len(),
    decreases n,
{
    if n <= 0 {
        (l, r)
    } else {
        let prev = rounds_spec(l, r, keys, n - 1);
        round_spec(prev.0, prev.1, keys[n - 1])
    }
}

/// True when `keys` is a sequence of 48-bit round keys.
pub open spec fn are_round_keys(keys: Seq<Seq<u8>>) -> bool {
    forall|i: int|
        0 <= i < keys.len() ==> (#[trigger] keys[i]).len() == 48 && is_bit_seq(keys[i])
}

/// The halves stay 32-bit bit sequences through any number of rounds.
pub proof fn lemma_rounds_bits(l: Seq<u8>, r: Seq<u8>, keys: Seq<Seq<u8>>, n: int)
    requires
        l.len() == 32,
        r.len() == 32,
        is_bit_seq(l),
        is_bit_seq(r),
        are_round_keys(keys),
        0 <= n <= keys.len(),
    ensures
        rounds_spec(l, r, keys, n).0.len() == 32,
        rounds_spec(l, r, keys, n).1.len() == 32,
        is_bit_seq(rounds_spec(l, r, keys, n).0),
        is_bit_seq(rounds_spec(l, r, keys, n).1),
    decreases n,
{
    if n > 0 {
        lemma_rounds_bits(l, r, keys, n - 1);
        let prev = rounds_spec(l, r, keys, n - 1);
        lemma_feistel_f_bits(prev.1, keys[n - 1]);
    }
}

/// One 64-bit block encrypted under the given round keys: IP, sixteen
/// rounds, the un-swapped concatenation (R16, L16), then FP.
pub open spec fn encrypt_block_spec(block: Seq<u8>, keys: Seq<Seq<u8>>) -> Seq<u8>
    recommends
        block.len() == 64,
        is_bit_seq(block),
        keys.len() == 16,
{
    let ip = permute_bits(block, initial_permutation_table_spec());
    let fin = rounds_spec(ip.subrange(0, 32), ip.subrange(32, 64), keys, keys.len() as int);
    permute_bits(fin.1 + fin.0, final_permutation_table_spec())
}

/// One 64-bit block decrypted under the given round keys: the same
/// structure with the keys consumed in reverse order.
pub open spec fn decrypt_block_spec(block: Seq<u8>, keys: Seq<Seq<u8>>) -> Seq<u8>
    recommends
        block.len() == 64,
        is_bit_seq(block),
        keys.len() == 16,
{
    encrypt_block_spec(block, keys.reverse())
}

/// The output of a block encryption is a 64-bit bit sequence.
pub proof fn lemma_encrypt_block_bits(block: Seq<u8>, keys: Seq<Seq<u8>>)
    requires
        block.len() == 64,
        is_bit_seq(block),
        are_round_keys(keys),
        keys.len() == 16,
    ensures
        encrypt_block_spec(block, keys).len() == 64,
        is_bit_seq(encrypt_block_spec(block, keys)),
{
    lemma_ip_table_in_range();
    lemma_fp_table_in_range();
    lemma_permute_bits_preserves(block, initial_permutation_table_spec());
    let ip = permute_bits(block, initial_permutation_table_spec());
    assert(is_bit_seq(ip.subrange(0, 32)));
    assert(is_bit_seq(ip.subrange(32, 64)));
    lemma_rounds_bits(ip.subrange(0, 32), ip.subrange(32, 64), keys, 16);
    let fin = rounds_spec(ip.subrange(0, 32), ip.subrange(32, 64), keys, 16);
    assert(is_bit_seq(fin.1 + fin.0));
    lemma_permute_bits_preserves(fin.1 + fin.0, final_permutation_table_spec());
}

/// Runs one 64-bit block through IP, the sixteen rounds (keys in order for
/// encryption, reversed for decryption), the final swap-undo and FP.
fn process_block(block: &Vec<u8>, keys: &Vec<Vec<u8>>, decrypting: bool) -> (r: Vec<u8>)
    requires
        block@.len() == 64,
        is_bit_seq(block@),
        keys@.len() == 16,
        forall|i: int| 0 <= i < 16 ==> (#[trigger] keys@[i]@).len() == 48 && is_bit_seq(keys@[i]@),
    ensures
        r@ == if decrypting {
            decrypt_block_spec(block@, Seq::new(16, |i: int| keys@[i]@))
        } else {
            encrypt_block_spec(block@, Seq::new(16, |i: int| keys@[i]@))
        },
        r@.len() == 64,
        is_bit_seq(r@),
{
    let ghost kseq = Seq::new(16, |i: int| keys@[i]@);
    let ghost used: Seq<Seq<u8>> = if decrypting {
        kseq.reverse()
    } else {
        kseq
    };
    proof {
        assert(are_round_keys(kseq));
        assert(are_round_keys(used));
        lemma_ip_table_in_range();
        lemma_fp_table_in_range();
        lemma_permute_bits_preserves(block@, initial_permutation_table_spec());
    }
    let ip = permutation(copy_bits(block), initial_permutation_table());
    let mut l: Vec<u8> = Vec::new();
    let mut r: Vec<u8> = Vec::new();
    let mut p: usize = 0;
    while p < 32
        invariant
            ip@.len() == 64,
            p <= 32,
            l@ =~= ip@.subrange(0, p as int),
        decreases 32 - p,
    {
        l.push(ip[p]);
        p = p + 1;
    }
    let mut q: usize = 32;
    while q < 64
        invariant
            ip@.len() == 64,
            32 <= q <= 64,
            r@ =~= ip@.subrange(32, q as int),
        decreases 64 - q,
    {
        r.push(ip[q]);
        q = q + 1;
    }
    assert(l@ == ip@.subrange(0, 32) && r@ == ip@.subrange(32, 64));
    assert(is_bit_seq(l@) && is_bit_seq(r@));
    let mut n: usize = 0;
    while n < 16
        invariant
            keys@.len() == 16,
            forall|i: int|
                0 <= i < 16 ==> (#[trigger] keys@[i]@).len() == 48 && is_bit_seq(keys@[i]@),
            kseq == Seq::new(16, |i: int| keys@[i]@),
            used == if decrypting {
                kseq.reverse()
            } else {
                kseq
            },
            are_round_keys(used),
            used.len() == 16,
            ip@.len() == 64,
            is_bit_seq(ip@),
            n <= 16,
            l@ == rounds_spec(ip@.subrange(0, 32), ip@.subrange(32, 64), used, n as int).0,
            r@ == rounds_spec(ip@.subrange(0, 32), ip@.subrange(32, 64), used, n as int).1,
            l@.len() == 32 && r@.len() == 32,
            is_bit_seq(l@) && is_bit_seq(r@),
        decreases 16 - n,
    {
        let k: &Vec<u8> = if decrypting {
            &keys[15 - n]
        } else {
            &keys[n]
        };
        assert(k@ == used[n as int]);
        let rr = feistel_round(&l, &r, k);
        l = rr.0;
        r = rr.1;
        n = n + 1;
    }
    let mut pre = r;
    let mut lv = l;
    pre.append(&mut lv);
    let out = permutation(pre, final_permutation_table());
    proof {
        lemma_permute_bits_preserves(
            rounds_spec(ip@.subrange(0, 32), ip@.subrange(32, 64), used, 16).1 + rounds_spec(
                ip@.subrange(0, 32),
                ip@.subrange(32, 64),
                used,
                16,
            ).0,
            final_permutation_table_spec(),
        );
    }
    out
}

/// `s` zero-padded on the right to the next multiple of 64 bits.
pub open spec fn zero_pad64(s: Seq<u8>) -> Seq<u8> {
    Seq::new((((s.len() + 63) / 64) * 64) as nat, |i: int| bit_at(s, i))
}

/// The `b`-th 64-bit block of a padded bit sequence.
pub open spec fn block_of(padded: Seq<u8>, b: int) -> Seq<u8>
    recommends
        0 <= b,
        64 * b + 64 <= padded.len(),
{
    padded.subrange(64 * b, 64 * b + 64)
}

/// Every 64-bit block of `padded` put through the block cipher
/// independently, encrypting or decrypting.
pub open spec fn des_apply_blocks(padded: Seq<u8>, keys: Seq<Seq<u8>>, decrypting: bool) -> Seq<
    u8,
>
    recommends
        padded.len() % 64 == 0,
        keys.len() == 16,
{
    Seq::new(
        padded.len(),
        |i: int|
            if decrypting {
                decrypt_block_spec(block_of(padded, i / 64), keys)[i % 64]
            } else {
                encrypt_block_spec(block_of(padded, i / 64), keys)[i % 64]
            },
    )
}

/// The ciphertext bits of `msg` under `key`: the message is zero-padded to
/// whole 64-bit blocks and every block is encrypted under the key's
/// sixteen round keys, consumed in order.
pub open spec fn des_encrypt_bits_spec(key: Seq<u8>, msg: Seq<u8>) -> Seq<u8>
    recommends
        key.len() == 64,
        is_bit_seq(key),
        is_bit_seq(msg),
{
    des_apply_blocks(zero_pad64(msg), key_schedule_spec(key), false)
}

/// The plaintext bits of `msg` under `key`: as encryption, but with the
/// round keys consumed in reverse order.
pub open spec fn des_decrypt_bits_spec(key: Seq<u8>, msg: Seq<u8>) -> Seq<u8>
    recommends
        key.len() == 64,
        is_bit_seq(key),
        is_bit_seq(msg),
{
    des_apply_blocks(zero_pad64(msg), key_schedule_spec(key), true)
}

/// Pads the message to whole 64-bit blocks and runs every block through
/// the cipher with the round keys of `key_bits`.
fn des_bits(key_bits: &Vec<u8>, msg_bits: &Vec<u8>, decrypting: bool) -> (r: Vec<u8>)
    requires
        key_bits@.len() == 64,
        is_bit_seq(key_bits@),
        is_bit_seq(msg_bits@),
        msg_bits@.len() + 63 <= usize::MAX,
    ensures
        r@ == des_apply_blocks(zero_pad64(msg_bits@), key_schedule_spec(key_bits@), decrypting),
        r@.len() == zero_pad64(msg_bits@).len(),
        is_bit_seq(r@),
{
    let ghost key = key_bits@;
    let ghost msg = msg_bits@;
    let ghost padded = zero_pad64(msg);
    let ghost kseq = key_schedule_spec(key);
    let keys = key_schedule(key_bits);
    proof {
        assert(Seq::new(16, |i: int| keys@[i]@) =~= kseq);
    }
    let n = msg_bits.len();
    let nblocks: usize = n / 64 + (if n % 64 == 0 {
        0
    } else {
        1
    });
    assert(64 * nblocks == padded.len());
    let mut out: Vec<u8> = Vec::new();
    let mut b: usize = 0;
    while b < nblocks
        invariant
            key.len() == 64,
            is_bit_seq(key),
            msg == msg_bits@,
            is_bit_seq(msg),
            n == msg.len(),
            n + 63 <= usize::MAX,
            padded == zero_pad64(msg),
            64 * nblocks == padded.len(),
            kseq == key_schedule_spec(key),
            keys@.len() == 16,
            forall|i: int| 0 <= i < 16 ==> #[trigger] keys@[i]@ == kseq[i],
            forall|i: int|
                0 <= i < 16 ==> (#[trigger] keys@[i]@).len() == 48 && is_bit_seq(keys@[i]@),
            b <= nblocks,
            out@.len() == 64 * b,
            forall|i: int|
                0 <= i < 64 * b ==> out@[i] == des_apply_blocks(padded, kseq, decrypting)[i],
            is_bit_seq(out@),
        decreases nblocks - b,
    {
        let mut blk: Vec<u8> = Vec::new();
        let mut j: usize = 0;
        while j < 64
            invariant
                msg == msg_bits@,
                is_bit_seq(msg),
                n == msg.len(),
                n + 63 <= usize::MAX,
                b < nblocks,
                64 * nblocks == padded.len(),
                padded == zero_pad64(msg),
                j <= 64,
                blk@.len() == j,
                forall|q: int| 0 <= q < j ==> blk@[q] == bit_at(msg, 64 * b + q),
            decreases 64 - j,
        {
            let k = 64 * b + j;
            if k < n {
                blk.push(msg_bits[k]);
            } else {
                blk.push(0);
            }
            j = j + 1;
        }
        proof {
            assert(blk@ =~= block_of(padded, b as int));
            assert(is_bit_seq(blk@));
        }
        let c = process_block(&blk, &keys, decrypting);
        let mut cv = c;
        let ghost out_before = out@;
        out.append(&mut cv);
        proof {
            assert(Seq::new(16, |q: int| keys@[q]@) =~= kseq);
            assert forall|i: int| 0 <= i < 64 * (b + 1) implies out@[i] == des_apply_blocks(
                padded,
                kseq,
                decrypting,
            )[i] by {
                if i < 64 * b {
                    assert(out@[i] == out_before[i]);
                } else {
                    assert(out@[i] == c@[i - 64 * b]);
                    assert(i / 64 == b as int && i % 64 == i - 64 * b);
                    assert(blk@ == block_of(padded, b as int));
                }
            }
        }
        b = b + 1;
    }
    proof {
        assert(out@ =~= des_apply_blocks(padded, kseq, decrypting));
    }
    out
}

/// Encrypts a bit sequence: zero-pads it to whole 64-bit blocks and
/// encrypts every block under the sixteen round keys of `key_bits`,
/// consumed in order.
pub fn des_encrypt_bits(key_bits: &Vec<u8>, message_bits: &Vec<u8>) -> (r: Vec<u8>)
    requires
        key_bits@.len() == 64,
        is_bit_seq(key_bits@),
        is_bit_seq(message_bits@),
        message_bits@.len() + 63 <= usize::MAX,
    ensures
        r@ == des_encrypt_bits_spec(key_bits@, message_bits@),
        r@.len() == zero_pad64(message_bits@).len(),
        is_bit_seq(r@),
{
    des_bits(key_bits, message_bits, false)
}

/// Decrypts a bit sequence: zero-pads it to whole 64-bit blocks and
/// decrypts every block under the sixteen round keys of `key_bits`,
/// consumed in reverse order.
pub fn des_decrypt_bits(key_bits: &Vec<u8>, message_bits: &Vec<u8>) -> (r: Vec<u8>)
    requires
        key_bits@.len() == 64,
        is_bit_seq(key_bits@),
        is_bit_seq(message_bits@),
        message_bits@.len() + 63 <= usize::MAX,
    ensures
        r@ == des_decrypt_bits_spec(key_bits@, message_bits@),
        r@.len() == zero_pad64(message_bits@).len(),
        is_bit_seq(r@),
{
    des_bits(key_bits, message_bits, true)
}

/// The first 64 bits of the UTF-8 encoding of a key text: the 64-bit input
/// key of the cipher.
pub open spec fn key_bits_of_text(key: Seq<char>) -> Seq<u8> {
    crate::ops::bits_of_bytes(vstd::utf8::encode_utf8(key)).subrange(0, 64)
}

/// True when a key text carries at least the 8 bytes (64 bits) the cipher
/// needs; a shorter key is a caller error.
pub open spec fn key_text_long_enough(key: Seq<char>) -> bool {
    vstd::utf8::encode_utf8(key).len() >= 8
}

/// The bit sequence of a message text.
pub open spec fn message_bits_of_text(message: Seq<char>) -> Seq<u8> {
    crate::ops::bits_of_bytes(vstd::utf8::encode_utf8(message))
}

/// The ciphertext text of `message` under the key text `key`.
pub open spec fn des_encrypt_text_spec(key: Seq<char>, message: Seq<char>) -> Seq<char> {
    crate::ops::text_of_bits(
        des_encrypt_bits_spec(key_bits_of_text(key), message_bits_of_text(message)),
    )
}

/// The plaintext text of `message` under the key text `key`.
pub open spec fn des_decrypt_text_spec(key: Seq<char>, message: Seq<char>) -> Seq<char> {
    crate::ops::text_of_bits(
        des_decrypt_bits_spec(key_bits_of_text(key), message_bits_of_text(message)),
    )
}

/// A DES invocation: the direction to run in, the key text (its first 8
/// bytes of bits form the 64-bit key) and the message text.
#[derive(Debug, Clone)]
pub struct DataEncryptionStandardAlg {
    /// Encrypt or decrypt.
    pub operation: Operations,
    /// The secret word; it must carry at least 8 bytes.
    pub key: String,
    /// The message to encrypt or decrypt.
    pub message: String,
}

impl DataEncryptionStandardAlg {
    /// Runs the cipher in the direction `self.operation` and returns the
    /// processed text.
    pub fn execute(self) -> (r: String)
        requires
            key_text_long_enough(self.key@),
            message_bits_of_text(self.message@).len() + 63 <= usize::MAX,
        ensures
            self.operation == Operations::Encrypt ==> r@ == des_encrypt_text_spec(
                self.key@,
                self.message@,
            ),
            self.operation == Operations::Decrypt ==> r@ == des_decrypt_text_spec(
                self.key@,
                self.message@,
            ),
    {
        match self.operation {
            Operations::Encrypt => self.encrypt(),
            Operations::Decrypt => self.decrypt(),
        }
    }

    /// Encrypts the message text: codec to bits, segmentation into 64-bit
    /// blocks, the block cipher on every block, and codec back to text.
    pub fn encrypt(self) -> (r: String)
        requires
            key_text_long_enough(self.key@),
            message_bits_of_text(self.message@).len() + 63 <= usize::MAX,
        ensures
            r@ == des_encrypt_text_spec(self.key@, self.message@),
    {
        let key64 = Self::key_bits(self.key);
        let msg_bits = crate::ops::string_into_bits(self.message);
        let cipher = des_encrypt_bits(&key64, &msg_bits);
        crate::ops::bits_into_string(cipher)
    }

    /// Decrypts the message text: the same pipeline with the round keys
    /// consumed in reverse order.
    pub fn decrypt(self) -> (r: String)
        requires
            key_text_long_enough(self.key@),
            message_bits_of_text(self.message@).len() + 63 <= usize::MAX,
        ensures
            r@ == des_decrypt_text_spec(self.key@, self.message@),
    {
        let key64 = Self::key_bits(self.key);
        let msg_bits = crate::ops::string_into_bits(self.message);
        let plain = des_decrypt_bits(&key64, &msg_bits);
        crate::ops::bits_into_string(plain)
    }

    /// The first 64 bits of the key text.
    fn key_bits(key: String) -> (r: Vec<u8>)
        requires
            key_text_long_enough(key@),
        ensures
            r@ == key_bits_of_text(key@),
            r@.len() == 64,
            is_bit_seq(r@),
    {
        let all = crate::ops::string_into_bits(key);
        let mut r: Vec<u8> = Vec::new();
        let mut i: usize = 0;
        while i < 64
            invariant
                all@.len() >= 64,
                is_bit_seq(all@),
                i <= 64,
                r@ =~= all@.subrange(0, i as int),
            decreases 64 - i,
        {
            r.push(all[i]);
            i = i + 1;
        }
        assert(r@ =~= key_bits_of_text(key@));
        r
    }
}

/// The initial and final permutations undo one another on any 64-bit
/// sequence: FP after IP, and IP after FP, both give the input back.
pub proof fn lemma_initial_final_inverse(x: Seq<u8>)
    requires
        x.len() == 64,
    ensures
        permute_bits(
            permute_bits(x, initial_permutation_table_spec()),
            final_permutation_table_spec(),
        ) == x,
        permute_bits(
            permute_bits(x, final_permutation_table_spec()),
            initial_permutation_table_spec(),
        ) == x,
{
    lemma_ip_table_in_range();
    lemma_fp_table_in_range();
    lemma_ip_fp_inverse();
    let ip = initial_permutation_table_spec();
    let fp = final_permutation_table_spec();
    let y = permute_bits(x, ip);
    let z = permute_bits(y, fp);
    assert forall|i: int| 0 <= i < 64 implies z[i] == x[i] by {
        assert(z[i] == y[fp[i] - 1]);
        assert(y[fp[i] - 1] == x[ip[fp[i] - 1] - 1]);
        assert(ip[fp[i] - 1] == i + 1);
    }
    assert(z =~= x);
    let y2 = permute_bits(x, fp);
    let z2 = permute_bits(y2, ip);
    assert forall|i: int| 0 <= i < 64 implies z2[i] == x[i] by {
        assert(z2[i] == y2[ip[i] - 1]);
        assert(y2[ip[i] - 1] == x[fp[ip[i] - 1] - 1]);
        assert(fp[ip[i] - 1] == i + 1);
    }
    assert(z2 =~= x);
}

/// A uniform 64-bit block is a fixed point of the initial and of the final
/// permutation: the all-zero and all-one blocks pass through unchanged,
/// as any uniform block does under any bit permutation.
pub proof fn lemma_uniform_block_fixed(x: Seq<u8>, v: u8)
    requires
        x.len() == 64,
        forall|i: int| 0 <= i < 64 ==> x[i] == v,
    ensures
        permute_bits(x, initial_permutation_table_spec()) == x,
        permute_bits(x, final_permutation_table_spec()) == x,
{
    lemma_ip_table_in_range();
    lemma_fp_table_in_range();
    crate::ops::lemma_permute_uniform(x, initial_permutation_table_spec(), v);
    crate::ops::lemma_permute_uniform(x, final_permutation_table_spec(), v);
    assert(permute_bits(x, initial_permutation_table_spec()) =~= x);
    assert(permute_bits(x, final_permutation_table_spec()) =~= x);
}

/// XOR with the same bit sequence twice gives the first operand back.
pub proof fn lemma_xor_involution(a: Seq<u8>, b: Seq<u8>)
    requires
        a.len() == b.len(),
        is_bit_seq(a),
        is_bit_seq(b),
    ensures
        xor_bits(xor_bits(a, b), b) == a,
{
    assert(xor_bits(xor_bits(a, b), b) =~= a);
}

/// A Feistel round is undone by the same round applied to the swapped
/// output halves: from `round(l, r, k) == (l2, r2)` it follows that
/// `round(r2, l2, k) == (r, l)`.
pub proof fn lemma_round_inverse(l: Seq<u8>, r: Seq<u8>, k: Seq<u8>)
    requires
        l.len() == 32,
        r.len() == 32,
        k.len() == 48,
        is_bit_seq(l),
        is_bit_seq(r),
        is_bit_seq(k),
    ensures
        round_spec(round_spec(l, r, k).1, round_spec(l, r, k).0, k).0 == r,
        round_spec(round_spec(l, r, k).1, round_spec(l, r, k).0, k).1 == l,
{
    let l2 = round_spec(l, r, k).0;
    let r2 = round_spec(l, r, k).1;
    assert(l2 == r && r2 == xor_bits(l, feistel_f(r, k)));
    lemma_feistel_f_bits(r, k);
    lemma_xor_involution(l, feistel_f(r, k));
    assert(round_spec(r2, l2, k).1 == xor_bits(xor_bits(l, feistel_f(r, k)), feistel_f(l2, k)));
}

/// Running `j` rounds with the reversed keys on the swapped final halves of
/// a full 16-round pass rewinds the pass to its state 16 - j rounds in.
pub proof fn lemma_rounds_inverse(l0: Seq<u8>, r0: Seq<u8>, keys: Seq<Seq<u8>>, j: int)
    requires
        l0.len() == 32,
        r0.len() == 32,
        is_bit_seq(l0),
        is_bit_seq(r0),
        are_round_keys(keys),
        keys.len() == 16,
        0 <= j <= 16,
    ensures
        rounds_spec(
            rounds_spec(l0, r0, keys, 16).1,
            rounds_spec(l0, r0, keys, 16).0,
            keys.reverse(),
            j,
        ).0 == rounds_spec(l0, r0, keys, 16 - j).1,
        rounds_spec(
            rounds_spec(l0, r0, keys, 16).1,
            rounds_spec(l0, r0, keys, 16).0,
            keys.reverse(),
            j,
        ).1 == rounds_spec(l0, r0, keys, 16 - j).0,
    decreases j,
{
    let fin = rounds_spec(l0, r0, keys, 16);
    if j > 0 {
        lemma_rounds_inverse(l0, r0, keys, j - 1);
        let dec_prev = rounds_spec(fin.1, fin.0, keys.reverse(), j - 1);
        let fwd = rounds_spec(l0, r0, keys, 16 - j);
        let fwd_next = rounds_spec(l0, r0, keys, 17 - j);
        assert(dec_prev.0 == fwd_next.1 && dec_prev.1 == fwd_next.0);
        assert(keys.reverse()[j - 1] == keys[16 - j]);
        assert(fwd_next == round_spec(fwd.0, fwd.1, keys[16 - j]));
        lemma_rounds_bits(l0, r0, keys, 16 - j);
        lemma_round_inverse(fwd.0, fwd.1, keys[16 - j]);
        assert(rounds_spec(fin.1, fin.0, keys.reverse(), j) == round_spec(
            dec_prev.0,
            dec_prev.1,
            keys.reverse()[j - 1],
        ));
    }
}

/// Decrypting an encrypted 64-bit block under the same round keys gives
/// the block back.
pub proof fn lemma_block_roundtrip(block: Seq<u8>, keys: Seq<Seq<u8>>)
    requires
        block.len() == 64,
        is_bit_seq(block),
        are_round_keys(keys),
        keys.len() == 16,
    ensures
        decrypt_block_spec(encrypt_block_spec(block, keys), keys) == block,
{
    lemma_ip_table_in_range();
    lemma_fp_table_in_range();
    lemma_permute_bits_preserves(block, initial_permutation_table_spec());
    let ip = permute_bits(block, initial_permutation_table_spec());
    let l0 = ip.subrange(0, 32);
    let r0 = ip.subrange(32, 64);
    assert(is_bit_seq(l0) && is_bit_seq(r0));
    lemma_rounds_bits(l0, r0, keys, 16);
    let fin = rounds_spec(l0, r0, keys, 16);
    let pre = fin.1 + fin.0;
    let cipher = permute_bits(pre, final_permutation_table_spec());
    assert(cipher == encrypt_block_spec(block, keys));
    // Decryption first applies IP, which undoes the FP of encryption.
    lemma_initial_final_inverse(pre);
    let ip2 = permute_bits(cipher, initial_permutation_table_spec());
    assert(ip2 == pre);
    assert(ip2.subrange(0, 32) =~= fin.1);
    assert(ip2.subrange(32, 64) =~= fin.0);
    // The reversed keys rewind the sixteen rounds.
    assert(are_round_keys(keys.reverse())) by {
        assert forall|i: int|
            0 <= i < keys.reverse().len() implies (#[trigger] keys.reverse()[i]).len() == 48
            && is_bit_seq(keys.reverse()[i]) by {
            assert(keys.reverse()[i] == keys[15 - i]);
        }
    }
    lemma_rounds_inverse(l0, r0, keys, 16);
    let dec_fin = rounds_spec(fin.1, fin.0, keys.reverse(), 16);
    assert(dec_fin.0 == r0 && dec_fin.1 == l0);
    assert(dec_fin.1 + dec_fin.0 =~= ip);
    // The final FP of decryption undoes the IP of encryption.
    lemma_initial_final_inverse(block);
    assert(keys.reverse().len() == 16);
    assert(decrypt_block_spec(cipher, keys) == permute_bits(
        ip,
        final_permutation_table_spec(),
    ));
}

/// For every 64-bit key and every plaintext padded to whole 64-bit blocks,
/// decrypting the encryption under the same key gives the plaintext back.
pub proof fn lemma_encrypt_decrypt_roundtrip(key: Seq<u8>, msg: Seq<u8>)
    requires
        key.len() == 64,
        is_bit_seq(key),
        is_bit_seq(msg),
        msg.len() % 64 == 0,
    ensures
        des_decrypt_bits_spec(key, des_encrypt_bits_spec(key, msg)) == msg,
{
    let keys = key_schedule_spec(key);
    assert(are_round_keys(keys)) by {
        assert forall|i: int|
            0 <= i < keys.len() implies (#[trigger] keys[i]).len() == 48 && is_bit_seq(
            keys[i],
        ) by {
            lemma_round_key_bits(key, i + 1);
        }
    }
    assert(zero_pad64(msg) =~= msg);
    let cipher = des_apply_blocks(msg, keys, false);
    assert(cipher.len() == msg.len());
    assert forall|i: int| 0 <= i < cipher.len() implies cipher[i] == 0 || cipher[i] == 1 by {
        let b = i / 64;
        assert(64 * b + 64 <= msg.len());
        assert(is_bit_seq(block_of(msg, b)));
        lemma_encrypt_block_bits(block_of(msg, b), keys);
        assert(cipher[i] == encrypt_block_spec(block_of(msg, b), keys)[i % 64]);
    }
    assert(is_bit_seq(cipher));
    assert(cipher.len() % 64 == 0);
    assert(zero_pad64(cipher) =~= cipher);
    let plain = des_apply_blocks(cipher, keys, true);
    assert(des_decrypt_bits_spec(key, des_encrypt_bits_spec(key, msg)) == plain);
    assert forall|i: int| 0 <= i < msg.len() implies plain[i] == msg[i] by {
        let b = i / 64;
        assert(64 * b + 64 <= msg.len());
        assert(is_bit_seq(block_of(msg, b)));
        lemma_encrypt_block_bits(block_of(msg, b), keys);
        assert(block_of(cipher, b) =~= encrypt_block_spec(block_of(msg, b), keys)) by {
            assert forall|q: int| 0 <= q < 64 implies block_of(cipher, b)[q] == encrypt_block_spec(
                block_of(msg, b),
                keys,
            )[q] by {
                assert(block_of(cipher, b)[q] == cipher[64 * b + q]);
                assert((64 * b + q) / 64 == b && (64 * b + q) % 64 == q);
            }
        }
        lemma_block_roundtrip(block_of(msg, b), keys);
        assert(plain[i] == decrypt_block_spec(block_of(cipher, b), keys)[i % 64]);
        assert(decrypt_block_spec(block_of(cipher, b), keys) == block_of(msg, b));
        assert(block_of(msg, b)[i % 64] == msg[i]);
    }
    assert(plain =~= msg);
}

} // verus!
