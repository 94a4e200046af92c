//! The fixed DES tables: initial and final permutation, permuted choices 1
//! and 2, the expansion and P-box tables, the per-round shift schedule, and
//! the eight S-boxes. Each table has a specification-level sequence and an
//! executable copy proved equal to it, together with the facts about the
//! tables that the cipher proofs rest on.

use vstd::prelude::*;

verus! {

/// The initial permutation (IP) table: 64 one-based source positions.
pub open spec fn initial_permutation_table_spec() -> Seq<u8> {
    seq![
        58u8, 50, 42, 34, 26, 18, 10, 2,
        60, 52, 44, 36, 28, 20, 12, 4,
        62, 54, 46, 38, 30, 22, 14, 6,
        64, 56, 48, 40, 32, 24, 16, 8,
        57, 49, 41, 33, 25, 17, 9, 1,
        59, 51, 43, 35, 27, 19, 11, 3,
        61, 53, 45, 37, 29, 21, 13, 5,
        63, 55, 47, 39, 31, 23, 15, 7,
    ]
}

/// The final permutation (FP) table, the inverse of IP.
pub open spec fn final_permutation_table_spec() -> Seq<u8> {
    seq![
        40u8, 8, 48, 16, 56, 24, 64, 32,
        39, 7, 47, 15, 55, 23, 63, 31,
        38, 6, 46, 14, 54, 22, 62, 30,
        37, 5, 45, 13, 53, 21, 61, 29,
        36, 4, 44, 12, 52, 20, 60, 28,
        35, 3, 43, 11, 51, 19, 59, 27,
        34, 2, 42, 10, 50, 18, 58, 26,
        33, 1, 41, 9, 49, 17, 57, 25,
    ]
}

/// The initial permutation table as runtime data.
pub fn initial_permutation_table() -> (r: Vec<u8>)
    ensures
        r@ == initial_permutation_table_spec(),
{
    let r: Vec<u8> = vec![
        58u8, 50, 42, 34, 26, 18, 10, 2,
        60, 52, 44, 36, 28, 20, 12, 4,
        62, 54, 46, 38, 30, 22, 14, 6,
        64, 56, 48, 40, 32, 24, 16, 8,
        57, 49, 41, 33, 25, 17, 9, 1,
        59, 51, 43, 35, 27, 19, 11, 3,
        61, 53, 45, 37, 29, 21, 13, 5,
        63, 55, 47, 39, 31, 23, 15, 7,
    ];
    assert(r@ =~= initial_permutation_table_spec());
    r
}

/// The final permutation table as runtime data.
pub fn final_permutation_table() -> (r: Vec<u8>)
    ensures
        r@ == final_permutation_table_spec(),
{
    let r: Vec<u8> = vec![
        40u8, 8, 48, 16, 56, 24, 64, 32,
        39, 7, 47, 15, 55, 23, 63, 31,
        38, 6, 46, 14, 54, 22, 62, 30,
        37, 5, 45, 13, 53, 21, 61, 29,
        36, 4, 44, 12, 52, 20, 60, 28,
        35, 3, 43, 11, 51, 19, 59, 27,
        34, 2, 42, 10, 50, 18, 58, 26,
        33, 1, 41, 9, 49, 17, 57, 25,
    ];
    assert(r@ =~= final_permutation_table_spec());
    r
}

/// Every entry of IP is a valid one-based position of a 64-bit block, and
/// the table is 64 entries long.
pub proof fn lemma_ip_table_in_range()
    ensures
        initial_permutation_table_spec().len() == 64,
        crate::ops::table_in_range(initial_permutation_table_spec(), 64),
{
    assert forall|i: int| 0 <= i < 64 implies 1 <= #[trigger] initial_permutation_table_spec()[i]
        && initial_permutation_table_spec()[i] <= 64 by {
        assert(1 <= initial_permutation_table_spec()[i] <= 64);
    }
}

/// Every entry of FP is a valid one-based position of a 64-bit block, and
/// the table is 64 entries long.
pub proof fn lemma_fp_table_in_range()
    ensures
        final_permutation_table_spec().len() == 64,
        crate::ops::table_in_range(final_permutation_table_spec(), 64),
{
    assert forall|i: int| 0 <= i < 64 implies 1 <= #[trigger] final_permutation_table_spec()[i]
        && final_permutation_table_spec()[i] <= 64 by {
        assert(1 <= final_permutation_table_spec()[i] <= 64);
    }
}

/// Permuted choice 1 (PC-1): selects the 56 non-parity key bits and splits
/// them into the two 28-bit halves C and D.
pub open spec fn pc1_table_spec() -> Seq<u8> {
    seq![
        57u8, 49, 41, 33, 25, 17, 9,
        1, 58, 50, 42, 34, 26, 18,
        10, 2, 59, 51, 43, 35, 27,
        19, 11, 3, 60, 52, 44, 36,
        63, 55, 47, 39, 31, 23, 15,
        7, 62, 54, 46, 38, 30, 22,
        14, 6, 61, 53, 45, 37, 29,
        21, 13, 5, 28, 20, 12, 4,
    ]
}

/// Permuted choice 1 as runtime data.
pub fn pc1_table() -> (r: Vec<u8>)
    ensures
        r@ == pc1_table_spec(),
{
    let r: Vec<u8> = vec![
        57u8, 49, 41, 33, 25, 17, 9,
        1, 58, 50, 42, 34, 26, 18,
        10, 2, 59, 51, 43, 35, 27,
        19, 11, 3, 60, 52, 44, 36,
        63, 55, 47, 39, 31, 23, 15,
        7, 62, 54, 46, 38, 30, 22,
        14, 6, 61, 53, 45, 37, 29,
        21, 13, 5, 28, 20, 12, 4,
    ];
    assert(r@ =~= pc1_table_spec());
    r
}

/// PC-1 is 56 entries long and selects only valid positions of a 64-bit key.
pub proof fn lemma_pc1_table_in_range()
    ensures
        pc1_table_spec().len() == 56,
        crate::ops::table_in_range(pc1_table_spec(), 64),
{
    assert forall|i: int| 0 <= i < 56 implies 1 <= #[trigger] pc1_table_spec()[i]
        && pc1_table_spec()[i] <= 64 by {
        assert(1 <= pc1_table_spec()[i] <= 64);
    }
}

/// Permuted choice 2 (PC-2): compresses the 56 rotated key bits to the
/// 48-bit round key.
pub open spec fn pc2_table_spec() -> Seq<u8> {
    seq![
        14u8, 17, 11, 24, 1, 5,
        3, 28, 15, 6, 21, 10,
        23, 19, 12, 4, 26, 8,
        16, 7, 27, 20, 13, 2,
        41, 52, 31, 37, 47, 55,
        30, 40, 51, 45, 33, 48,
        44, 49, 39, 56, 34, 53,
        46, 42, 50, 36, 29, 32,
    ]
}

/// Permuted choice 2 as runtime data.
pub fn pc2_table() -> (r: Vec<u8>)
    ensures
        r@ == pc2_table_spec(),
{
    let r: Vec<u8> = vec![
        14u8, 17, 11, 24, 1, 5,
        3, 28, 15, 6, 21, 10,
        23, 19, 12, 4, 26, 8,
        16, 7, 27, 20, 13, 2,
        41, 52, 31, 37, 47, 55,
        30, 40, 51, 45, 33, 48,
        44, 49, 39, 56, 34, 53,
        46, 42, 50, 36, 29, 32,
    ];
    assert(r@ =~= pc2_table_spec());
    r
}

/// PC-2 is 48 entries long and selects only valid positions of the 56
/// combined key bits.
pub proof fn lemma_pc2_table_in_range()
    ensures
        pc2_table_spec().len() == 48,
        crate::ops::table_in_range(pc2_table_spec(), 56),
{
    assert forall|i: int| 0 <= i < 48 implies 1 <= #[trigger] pc2_table_spec()[i]
        && pc2_table_spec()[i] <= 56 by {
        assert(1 <= pc2_table_spec()[i] <= 56);
    }
}

/// The expansion table E: widens the 32-bit right half to 48 bits,
/// duplicating 16 of the positions.
pub open spec fn expansion_table_spec() -> Seq<u8> {
    seq![
        32u8, 1, 2, 3, 4, 5,
        4, 5, 6, 7, 8, 9,
        8, 9, 10, 11, 12, 13,
        12, 13, 14, 15, 16, 17,
        16, 17, 18, 19, 20, 21,
        20, 21, 22, 23, 24, 25,
        24, 25, 26, 27, 28, 29,
        28, 29, 30, 31, 32, 1,
    ]
}

/// The expansion table as runtime data.
pub fn expansion_table() -> (r: Vec<u8>)
    ensures
        r@ == expansion_table_spec(),
{
    let r: Vec<u8> = vec![
        32u8, 1, 2, 3, 4, 5,
        4, 5, 6, 7, 8, 9,
        8, 9, 10, 11, 12, 13,
        12, 13, 14, 15, 16, 17,
        16, 17, 18, 19, 20, 21,
        20, 21, 22, 23, 24, 25,
        24, 25, 26, 27, 28, 29,
        28, 29, 30, 31, 32, 1,
    ];
    assert(r@ =~= expansion_table_spec());
    r
}

/// The expansion table is 48 entries long and selects only valid positions
/// of a 32-bit half.
pub proof fn lemma_expansion_table_in_range()
    ensures
        expansion_table_spec().len() == 48,
        crate::ops::table_in_range(expansion_table_spec(), 32),
{
    assert forall|i: int| 0 <= i < 48 implies 1 <= #[trigger] expansion_table_spec()[i]
        && expansion_table_spec()[i] <= 32 by {
        assert(1 <= expansion_table_spec()[i] <= 32);
    }
}

/// The P-box: the 32-bit permutation applied after the S-boxes.
pub open spec fn pbox_table_spec() -> Seq<u8> {
    seq![
        16u8, 7, 20, 21,
        29, 12, 28, 17,
        1, 15, 23, 26,
        5, 18, 31, 10,
        2, 8, 24, 14,
        32, 27, 3, 9,
        19, 13, 30, 6,
        22, 11, 4, 25,
    ]
}

/// The P-box table as runtime data.
pub fn pbox_table() -> (r: Vec<u8>)
    ensures
        r@ == pbox_table_spec(),
{
    let r: Vec<u8> = vec![
        16u8, 7, 20, 21,
        29, 12, 28, 17,
        1, 15, 23, 26,
        5, 18, 31, 10,
        2, 8, 24, 14,
        32, 27, 3, 9,
        19, 13, 30, 6,
        22, 11, 4, 25,
    ];
    assert(r@ =~= pbox_table_spec());
    r
}

/// The P-box is 32 entries long and selects only valid positions of a
/// 32-bit half.
pub proof fn lemma_pbox_table_in_range()
    ensures
        pbox_table_spec().len() == 32,
        crate::ops::table_in_range(pbox_table_spec(), 32),
{
    assert forall|i: int| 0 <= i < 32 implies 1 <= #[trigger] pbox_table_spec()[i]
        && pbox_table_spec()[i] <= 32 by {
        assert(1 <= pbox_table_spec()[i] <= 32);
    }
}

/// The per-round left-rotation schedule: 1 bit for rounds 1, 2, 9 and 16,
/// 2 bits otherwise.
pub open spec fn shift_schedule_spec() -> Seq<u8> {
    seq![1u8, 1, 2, 2, 2, 2, 2, 2, 1, 2, 2, 2, 2, 2, 2, 1]
}

/// The rotation schedule as runtime data.
pub fn shift_schedule() -> (r: Vec<u8>)
    ensures
        r@ == shift_schedule_spec(),
{
    let r: Vec<u8> = vec![1u8, 1, 2, 2, 2, 2, 2, 2, 1, 2, 2, 2, 2, 2, 2, 1];
    assert(r@ =~= shift_schedule_spec());
    r
}

/// The schedule has one entry per round, each a rotation by 1 or 2.
pub proof fn lemma_shift_schedule_in_range()
    ensures
        shift_schedule_spec().len() == 16,
        forall|i: int|
            0 <= i < 16 ==> #[trigger] shift_schedule_spec()[i] == 1 || shift_schedule_spec()[i] == 2,
{
    assert forall|i: int| 0 <= i < 16 implies #[trigger] shift_schedule_spec()[i] == 1
        || shift_schedule_spec()[i] == 2 by {
        assert(shift_schedule_spec()[i] == 1 || shift_schedule_spec()[i] == 2);
    }
}

/// IP and FP are inverse tables: following FP and then IP (or IP and then
/// FP) from any position leads back to it.
pub proof fn lemma_ip_fp_inverse()
    ensures
        forall|i: int|
            0 <= i < 64 ==> initial_permutation_table_spec()[#[trigger] final_permutation_table_spec()[i] - 1] == i + 1,
        forall|i: int|
            0 <= i < 64 ==> final_permutation_table_spec()[#[trigger] initial_permutation_table_spec()[i] - 1] == i + 1,
{
    assert forall|i: int| 0 <= i < 64 implies initial_permutation_table_spec()[#[trigger] final_permutation_table_spec()[i] - 1] == i + 1 by {
        assert(initial_permutation_table_spec()[final_permutation_table_spec()[i] - 1] == i + 1);
    }
    assert forall|i: int| 0 <= i < 64 implies final_permutation_table_spec()[#[trigger] initial_permutation_table_spec()[i] - 1] == i + 1 by {
        assert(final_permutation_table_spec()[initial_permutation_table_spec()[i] - 1] == i + 1);
    }
}

/// S-box 1, its 4 rows of 16 columns flattened row by row.
pub open spec fn s_box_1_spec() -> Seq<u8> {
    seq![
        14u8, 4, 13, 1, 2, 15, 11, 8, 3, 10, 6, 12, 5, 9, 0, 7,
        0, 15, 7, 4, 14, 2, 13, 1, 10, 6, 12, 11, 9, 5, 3, 8,
        4, 1, 14, 8, 13, 6, 2, 11, 15, 12, 9, 7, 3, 10, 5, 0,
        15, 12, 8, 2, 4, 9, 1, 7, 5, 11, 3, 14, 10, 0, 6, 13,
    ]
}

/// S-box 2, flattened row by row.
pub open spec fn s_box_2_spec() -> Seq<u8> {
    seq![
        15u8, 1, 8, 14, 6, 11, 3, 4, 9, 7, 2, 13, 12, 0, 5, 10,
        3, 13, 4, 7, 15, 2, 8, 14, 12, 0, 1, 10, 6, 9, 11, 5,
        0, 14, 7, 11, 10, 4, 13, 1, 5, 8, 12, 6, 9, 3, 2, 15,
        13, 8, 10, 1, 3, 15, 4, 2, 11, 6, 7, 12, 0, 5, 14, 9,
    ]
}

/// S-box 3, flattened row by row.
pub open spec fn s_box_3_spec() -> Seq<u8> {
    seq![
        10u8, 0, 9, 14, 6, 3, 15, 5, 1, 13, 12, 7, 11, 4, 2, 8,
        13, 7, 0, 9, 3, 4, 6, 10, 2, 8, 5, 14, 12, 11, 15, 1,
        13, 6, 4, 9, 8, 15, 3, 0, 11, 1, 2, 12, 5, 10, 14, 7,
        1, 10, 13, 0, 6, 9, 8, 7, 4, 15, 14, 3, 11, 5, 2, 12,
    ]
}

/// S-box 4, flattened row by row.
pub open spec fn s_box_4_spec() -> Seq<u8> {
    seq![
        7u8, 13, 14, 3, 0, 6, 9, 10, 1, 2, 8, 5, 11, 12, 4, 15,
        13, 8, 11, 5, 6, 15, 0, 3, 4, 7, 2, 12, 1, 10, 14, 9,
        10, 6, 9, 0, 12, 11, 7, 13, 15, 1, 3, 14, 5, 2, 8, 4,
        3, 15, 0, 6, 10, 1, 13, 8, 9, 4, 5, 11, 12, 7, 2, 14,
    ]
}

/// S-box 5, flattened row by row.
pub open spec fn s_box_5_spec() -> Seq<u8> {
    seq![
        2u8, 12, 4, 1, 7, 10, 11, 6, 8, 5, 3, 15, 13, 0, 14, 9,
        14, 11, 2, 12, 4, 7, 13, 1, 5, 0, 15, 10, 3, 9, 8, 6,
        4, 2, 1, 11, 10, 13, 7, 8, 15, 9, 12, 5, 6, 3, 0, 14,
        11, 8, 12, 7, 1, 14, 2, 13, 6, 15, 0, 9, 10, 4, 5, 3,
    ]
}

/// S-box 6, flattened row by row.
pub open spec fn s_box_6_spec() -> Seq<u8> {
    seq![
        12u8, 1, 10, 15, 9, 2, 6, 8, 0, 13, 3, 4, 14, 7, 5, 11,
        10, 15, 4, 2, 7, 12, 9, 5, 6, 1, 13, 14, 0, 11, 3, 8,
        9, 14, 15, 5, 2, 8, 12, 3, 7, 0, 4, 10, 1, 13, 11, 6,
        4, 3, 2, 12, 9, 5, 15, 10, 11, 14, 1, 7, 6, 0, 8, 13,
    ]
}

/// S-box 7, flattened row by row.
pub open spec fn s_box_7_spec() -> Seq<u8> {
    seq![
        4u8, 11, 2, 14, 15, 0, 8, 13, 3, 12, 9, 7, 5, 10, 6, 1,
        13, 0, 11, 7, 4, 9, 1, 10, 14, 3, 5, 12, 2, 15, 8, 6,
        1, 4, 11, 13, 12, 3, 7, 14, 10, 15, 6, 8, 0, 5, 9, 2,
        6, 11, 13, 8, 1, 4, 10, 7, 9, 5, 0, 15, 14, 2, 3, 12,
    ]
}

/// S-box 8, flattened row by row.
pub open spec fn s_box_8_spec() -> Seq<u8> {
    seq![
        13u8, 2, 8, 4, 6, 15, 11, 1, 10, 9, 3, 14, 5, 0, 12, 7,
        1, 15, 13, 8, 10, 3, 7, 4, 12, 5, 6, 11, 0, 14, 9, 2,
        7, 11, 4, 1, 9, 12, 14, 2, 0, 6, 10, 13, 15, 3, 5, 8,
        2, 1, 14, 7, 4, 10, 8, 13, 15, 12, 9, 0, 3, 5, 6, 11,
    ]
}

/// S-box number `j` (0-based), flattened to 64 entries: the entry for row
/// `r` and column `c` stands at position `16 * r + c`.
pub open spec fn sbox_spec(j: int) -> Seq<u8>
    recommends
        0 <= j < 8,
{
    if j == 0 {
        s_box_1_spec()
    } else if j == 1 {
        s_box_2_spec()
    } else if j == 2 {
        s_box_3_spec()
    } else if j == 3 {
        s_box_4_spec()
    } else if j == 4 {
        s_box_5_spec()
    } else if j == 5 {
        s_box_6_spec()
    } else if j == 6 {
        s_box_7_spec()
    } else {
        s_box_8_spec()
    }
}

/// The eight S-boxes as runtime data, in order.
pub fn sbox_tables() -> (r: Vec<Vec<u8>>)
    ensures
        r@.len() == 8,
        forall|j: int| 0 <= j < 8 ==> #[trigger] r@[j]@ == sbox_spec(j),
{
    let s1: Vec<u8> = vec![
        14u8, 4, 13, 1, 2, 15, 11, 8, 3, 10, 6, 12, 5, 9, 0, 7,
        0, 15, 7, 4, 14, 2, 13, 1, 10, 6, 12, 11, 9, 5, 3, 8,
        4, 1, 14, 8, 13, 6, 2, 11, 15, 12, 9, 7, 3, 10, 5, 0,
        15, 12, 8, 2, 4, 9, 1, 7, 5, 11, 3, 14, 10, 0, 6, 13,
    ];
    assert(s1@ =~= s_box_1_spec());
    let s2: Vec<u8> = vec![
        15u8, 1, 8, 14, 6, 11, 3, 4, 9, 7, 2, 13, 12, 0, 5, 10,
        3, 13, 4, 7, 15, 2, 8, 14, 12, 0, 1, 10, 6, 9, 11, 5,
        0, 14, 7, 11, 10, 4, 13, 1, 5, 8, 12, 6, 9, 3, 2, 15,
        13, 8, 10, 1, 3, 15, 4, 2, 11, 6, 7, 12, 0, 5, 14, 9,
    ];
    assert(s2@ =~= s_box_2_spec());
    let s3: Vec<u8> = vec![
        10u8, 0, 9, 14, 6, 3, 15, 5, 1, 13, 12, 7, 11, 4, 2, 8,
        13, 7, 0, 9, 3, 4, 6, 10, 2, 8, 5, 14, 12, 11, 15, 1,
        13, 6, 4, 9, 8, 15, 3, 0, 11, 1, 2, 12, 5, 10, 14, 7,
        1, 10, 13, 0, 6, 9, 8, 7, 4, 15, 14, 3, 11, 5, 2, 12,
    ];
    assert(s3@ =~= s_box_3_spec());
    let s4: Vec<u8> = vec![
        7u8, 13, 14, 3, 0, 6, 9, 10, 1, 2, 8, 5, 11, 12, 4, 15,
        13, 8, 11, 5, 6, 15, 0, 3, 4, 7, 2, 12, 1, 10, 14, 9,
        10, 6, 9, 0, 12, 11, 7, 13, 15, 1, 3, 14, 5, 2, 8, 4,
        3, 15, 0, 6, 10, 1, 13, 8, 9, 4, 5, 11, 12, 7, 2, 14,
    ];
    assert(s4@ =~= s_box_4_spec());
    let s5: Vec<u8> = vec![
        2u8, 12, 4, 1, 7, 10, 11, 6, 8, 5, 3, 15, 13, 0, 14, 9,
        14, 11, 2, 12, 4, 7, 13, 1, 5, 0, 15, 10, 3, 9, 8, 6,
        4, 2, 1, 11, 10, 13, 7, 8, 15, 9, 12, 5, 6, 3, 0, 14,
        11, 8, 12, 7, 1, 14, 2, 13, 6, 15, 0, 9, 10, 4, 5, 3,
    ];
    assert(s5@ =~= s_box_5_spec());
    let s6: Vec<u8> = vec![
        12u8, 1, 10, 15, 9, 2, 6, 8, 0, 13, 3, 4, 14, 7, 5, 11,
        10, 15, 4, 2, 7, 12, 9, 5, 6, 1, 13, 14, 0, 11, 3, 8,
        9, 14, 15, 5, 2, 8, 12, 3, 7, 0, 4, 10, 1, 13, 11, 6,
        4, 3, 2, 12, 9, 5, 15, 10, 11, 14, 1, 7, 6, 0, 8, 13,
    ];
    assert(s6@ =~= s_box_6_spec());
    let s7: Vec<u8> = vec![
        4u8, 11, 2, 14, 15, 0, 8, 13, 3, 12, 9, 7, 5, 10, 6, 1,
        13, 0, 11, 7, 4, 9, 1, 10, 14, 3, 5, 12, 2, 15, 8, 6,
        1, 4, 11, 13, 12, 3, 7, 14, 10, 15, 6, 8, 0, 5, 9, 2,
        6, 11, 13, 8, 1, 4, 10, 7, 9, 5, 0, 15, 14, 2, 3, 12,
    ];
    assert(s7@ =~= s_box_7_spec());
    let s8: Vec<u8> = vec![
        13u8, 2, 8, 4, 6, 15, 11, 1, 10, 9, 3, 14, 5, 0, 12, 7,
        1, 15, 13, 8, 10, 3, 7, 4, 12, 5, 6, 11, 0, 14, 9, 2,
        7, 11, 4, 1, 9, 12, 14, 2, 0, 6, 10, 13, 15, 3, 5, 8,
        2, 1, 14, 7, 4, 10, 8, 13, 15, 12, 9, 0, 3, 5, 6, 11,
    ];
    assert(s8@ =~= s_box_8_spec());
    let mut r: Vec<Vec<u8>> = Vec::new();
    r.push(s1);
    r.push(s2);
    r.push(s3);
    r.push(s4);
    r.push(s5);
    r.push(s6);
    r.push(s7);
    r.push(s8);
    r
}

/// Every S-box entry is a single 4-bit value: for any box, row and column
/// the table holds a value between 0 and 15.
pub proof fn lemma_sbox_bounds()
    ensures
        forall|j: int| 0 <= j < 8 ==> sbox_spec(j).len() == 64,
        forall|j: int, i: int| 0 <= j < 8 && 0 <= i < 64 ==> #[trigger] sbox_spec(j)[i] <= 15,
{
    assert forall|j: int, i: int| 0 <= j < 8 && 0 <= i < 64 implies #[trigger] sbox_spec(j)[i]
        <= 15 by {
        assert(sbox_spec(j)[i] <= 15);
    }
}

} // verus!
