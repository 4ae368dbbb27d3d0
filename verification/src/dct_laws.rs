//! The inverse transform undoes the transform.
//!
//! The basis is orthonormal up to the rounding of its entries: the product
//! of the basis with its transpose is `2^32` on the diagonal, up to an error
//! whose magnitudes sum to at most 551008 in a row. The lemmas here carry that
//! error through the two passes of the transform and of its inverse, and find
//! it below half a unit of the result.

use crate::blocks::Du;
use crate::dct::basis;
use crate::dct::column_sum;
use crate::dct::dct_sum;
use crate::dct::dct_value;
use crate::dct::idct_sum;
use crate::dct::idct_value;
use crate::dct::is_dct_of;
use crate::dct::is_idct_of;
use crate::dct::row_sum;
use crate::dct::DctDu;
use crate::rounding::round_div;
use vstd::prelude::*;

verus! {

/// The entries of the basis.
pub proof fn lemma_basis_values()
    ensures
        basis(0, 0) == 23170,
        basis(0, 1) == 23170,
        basis(0, 2) == 23170,
        basis(0, 3) == 23170,
        basis(0, 4) == 23170,
        basis(0, 5) == 23170,
        basis(0, 6) == 23170,
        basis(0, 7) == 23170,
        basis(1, 0) == 32138,
        basis(1, 1) == 27246,
        basis(1, 2) == 18205,
        basis(1, 3) == 6393,
        basis(1, 4) == (-6393),
        basis(1, 5) == (-18205),
        basis(1, 6) == (-27246),
        basis(1, 7) == (-32138),
        basis(2, 0) == 30274,
        basis(2, 1) == 12540,
        basis(2, 2) == (-12540),
        basis(2, 3) == (-30274),
        basis(2, 4) == (-30274),
        basis(2, 5) == (-12540),
        basis(2, 6) == 12540,
        basis(2, 7) == 30274,
        basis(3, 0) == 27246,
        basis(3, 1) == (-6393),
        basis(3, 2) == (-32138),
        basis(3, 3) == (-18205),
        basis(3, 4) == 18205,
        basis(3, 5) == 32138,
        basis(3, 6) == 6393,
        basis(3, 7) == (-27246),
        basis(4, 0) == 23170,
        basis(4, 1) == (-23170),
        basis(4, 2) == (-23170),
        basis(4, 3) == 23170,
        basis(4, 4) == 23170,
        basis(4, 5) == (-23170),
        basis(4, 6) == (-23170),
        basis(4, 7) == 23170,
        basis(5, 0) == 18205,
        basis(5, 1) == (-32138),
        basis(5, 2) == 6393,
        basis(5, 3) == 27246,
        basis(5, 4) == (-27246),
        basis(5, 5) == (-6393),
        basis(5, 6) == 32138,
        basis(5, 7) == (-18205),
        basis(6, 0) == 12540,
        basis(6, 1) == (-30274),
        basis(6, 2) == 30274,
        basis(6, 3) == (-12540),
        basis(6, 4) == (-12540),
        basis(6, 5) == 30274,
        basis(6, 6) == (-30274),
        basis(6, 7) == 12540,
        basis(7, 0) == 6393,
        basis(7, 1) == (-18205),
        basis(7, 2) == 27246,
        basis(7, 3) == (-32138),
        basis(7, 4) == 32138,
        basis(7, 5) == (-27246),
        basis(7, 6) == 18205,
        basis(7, 7) == (-6393),
{
}

/// A row of samples, transformed with a row of the basis, stays below 2^25
/// in magnitude.
pub proof fn lemma_row_sum_bound(row: Seq<i8>, v: int)
    requires
        row.len() == 8,
        0 <= v < 8,
    ensures
        -0x200_0000 <= row_sum(row, v, 8) <= 0x200_0000,
{
    reveal_with_fuel(row_sum, 9);
    lemma_basis_values();
    if v == 0 {
        assert(row_sum(row, 0, 8) == row[0] * 23170 + row[1] * 23170 + row[2] * 23170 + row[3]
            * 23170 + row[4] * 23170 + row[5] * 23170 + row[6] * 23170 + row[7] * 23170);
    } else if v == 1 {
        assert(row_sum(row, 1, 8) == row[0] * 32138 + row[1] * 27246 + row[2] * 18205 + row[3]
            * 6393 + row[4] * (-6393) + row[5] * (-18205) + row[6] * (-27246) + row[7] * (-32138));
    } else if v == 2 {
        assert(row_sum(row, 2, 8) == row[0] * 30274 + row[1] * 12540 + row[2] * (-12540) + row[3]
            * (-30274) + row[4] * (-30274) + row[5] * (-12540) + row[6] * 12540 + row[7] * 30274);
    } else if v == 3 {
        assert(row_sum(row, 3, 8) == row[0] * 27246 + row[1] * (-6393) + row[2] * (-32138)
            + row[3] * (-18205) + row[4] * 18205 + row[5] * 32138 + row[6] * 6393 + row[7]
            * (-27246));
    } else if v == 4 {
        assert(row_sum(row, 4, 8) == row[0] * 23170 + row[1] * (-23170) + row[2] * (-23170)
            + row[3] * 23170 + row[4] * 23170 + row[5] * (-23170) + row[6] * (-23170) + row[7]
            * 23170);
    } else if v == 5 {
        assert(row_sum(row, 5, 8) == row[0] * 18205 + row[1] * (-32138) + row[2] * 6393 + row[3]
            * 27246 + row[4] * (-27246) + row[5] * (-6393) + row[6] * 32138 + row[7] * (-18205));
    } else if v == 6 {
        assert(row_sum(row, 6, 8) == row[0] * 12540 + row[1] * (-30274) + row[2] * 30274 + row[3]
            * (-12540) + row[4] * (-12540) + row[5] * 30274 + row[6] * (-30274) + row[7] * 12540);
    } else {
        assert(row_sum(row, 7, 8) == row[0] * 6393 + row[1] * (-18205) + row[2] * 27246 + row[3]
            * (-32138) + row[4] * 32138 + row[5] * (-27246) + row[6] * 18205 + row[7] * (-6393));
    }
}

/// A vector, transformed with every row of the basis and then with column
/// `x` of the basis.
pub open spec fn there_and_back(x: int, r0: int, r1: int, r2: int, r3: int, r4: int, r5: int,
    r6: int, r7: int) -> int {
    basis(0, x) * (basis(0, 0) * r0 + basis(0, 1) * r1 + basis(0, 2) * r2 + basis(0, 3) * r3
        + basis(0, 4) * r4 + basis(0, 5) * r5 + basis(0, 6) * r6 + basis(0, 7) * r7) + basis(1, x)
        * (basis(1, 0) * r0 + basis(1, 1) * r1 + basis(1, 2) * r2 + basis(1, 3) * r3 + basis(1, 4)
        * r4 + basis(1, 5) * r5 + basis(1, 6) * r6 + basis(1, 7) * r7) + basis(2, x) * (basis(2,
        0) * r0 + basis(2, 1) * r1 + basis(2, 2) * r2 + basis(2, 3) * r3 + basis(2, 4) * r4
        + basis(2, 5) * r5 + basis(2, 6) * r6 + basis(2, 7) * r7) + basis(3, x) * (basis(3, 0)
        * r0 + basis(3, 1) * r1 + basis(3, 2) * r2 + basis(3, 3) * r3 + basis(3, 4) * r4 + basis(3,
        5) * r5 + basis(3, 6) * r6 + basis(3, 7) * r7) + basis(4, x) * (basis(4, 0) * r0 + basis(4,
        1) * r1 + basis(4, 2) * r2 + basis(4, 3) * r3 + basis(4, 4) * r4 + basis(4, 5) * r5
        + basis(4, 6) * r6 + basis(4, 7) * r7) + basis(5, x) * (basis(5, 0) * r0 + basis(5, 1)
        * r1 + basis(5, 2) * r2 + basis(5, 3) * r3 + basis(5, 4) * r4 + basis(5, 5) * r5 + basis(5,
        6) * r6 + basis(5, 7) * r7) + basis(6, x) * (basis(6, 0) * r0 + basis(6, 1) * r1 + basis(6,
        2) * r2 + basis(6, 3) * r3 + basis(6, 4) * r4 + basis(6, 5) * r5 + basis(6, 6) * r6
        + basis(6, 7) * r7) + basis(7, x) * (basis(7, 0) * r0 + basis(7, 1) * r1 + basis(7, 2)
        * r2 + basis(7, 3) * r3 + basis(7, 4) * r4 + basis(7, 5) * r5 + basis(7, 6) * r6 + basis(7,
        7) * r7)
}

/// Entry `x` of a vector.
pub open spec fn entry(x: int, r0: int, r1: int, r2: int, r3: int, r4: int, r5: int, r6: int,
    r7: int) -> int {
    if x == 0 {
        r0
    } else if x == 1 {
        r1
    } else if x == 2 {
        r2
    } else if x == 3 {
        r3
    } else if x == 4 {
        r4
    } else if x == 5 {
        r5
    } else if x == 6 {
        r6
    } else {
        r7
    }
}

/// A vector whose entries are at most `m` in magnitude comes back from
/// [`there_and_back`] with entry `x` times `2^32`, up to 551008 times `m`.
pub proof fn lemma_there_and_back(x: int, r0: int, r1: int, r2: int, r3: int, r4: int, r5: int,
    r6: int, r7: int, m: int)
    requires
        0 <= x < 8,
        -m <= r0 <= m,
        -m <= r1 <= m,
        -m <= r2 <= m,
        -m <= r3 <= m,
        -m <= r4 <= m,
        -m <= r5 <= m,
        -m <= r6 <= m,
        -m <= r7 <= m,
    ensures
        -551008 * m <= there_and_back(x, r0, r1, r2, r3, r4, r5, r6, r7) - 0x1_0000_0000 * entry(x,
            r0, r1, r2, r3, r4, r5, r6, r7) <= 551008 * m,
{
    lemma_basis_values();
    if x == 0 {
        let t0 = 23170 * r0 + 23170 * r1 + 23170 * r2 + 23170 * r3 + 23170 * r4 + 23170 * r5
            + 23170 * r6 + 23170 * r7;
        assert(t0 == basis(0, 0) * r0 + basis(0, 1) * r1 + basis(0, 2) * r2 + basis(0, 3) * r3
            + basis(0, 4) * r4 + basis(0, 5) * r5 + basis(0, 6) * r6 + basis(0, 7) * r7);
        let t1 = 32138 * r0 + 27246 * r1 + 18205 * r2 + 6393 * r3 + (-6393) * r4 + (-18205) * r5
            + (-27246) * r6 + (-32138) * r7;
        assert(t1 == basis(1, 0) * r0 + basis(1, 1) * r1 + basis(1, 2) * r2 + basis(1, 3) * r3
            + basis(1, 4) * r4 + basis(1, 5) * r5 + basis(1, 6) * r6 + basis(1, 7) * r7);
        let t2 = 30274 * r0 + 12540 * r1 + (-12540) * r2 + (-30274) * r3 + (-30274) * r4
            + (-12540) * r5 + 12540 * r6 + 30274 * r7;
        assert(t2 == basis(2, 0) * r0 + basis(2, 1) * r1 + basis(2, 2) * r2 + basis(2, 3) * r3
            + basis(2, 4) * r4 + basis(2, 5) * r5 + basis(2, 6) * r6 + basis(2, 7) * r7);
        let t3 = 27246 * r0 + (-6393) * r1 + (-32138) * r2 + (-18205) * r3 + 18205 * r4 + 32138
            * r5 + 6393 * r6 + (-27246) * r7;
        assert(t3 == basis(3, 0) * r0 + basis(3, 1) * r1 + basis(3, 2) * r2 + basis(3, 3) * r3
            + basis(3, 4) * r4 + basis(3, 5) * r5 + basis(3, 6) * r6 + basis(3, 7) * r7);
        let t4 = 23170 * r0 + (-23170) * r1 + (-23170) * r2 + 23170 * r3 + 23170 * r4 + (-23170)
            * r5 + (-23170) * r6 + 23170 * r7;
        assert(t4 == basis(4, 0) * r0 + basis(4, 1) * r1 + basis(4, 2) * r2 + basis(4, 3) * r3
            + basis(4, 4) * r4 + basis(4, 5) * r5 + basis(4, 6) * r6 + basis(4, 7) * r7);
        let t5 = 18205 * r0 + (-32138) * r1 + 6393 * r2 + 27246 * r3 + (-27246) * r4 + (-6393)
            * r5 + 32138 * r6 + (-18205) * r7;
        assert(t5 == basis(5, 0) * r0 + basis(5, 1) * r1 + basis(5, 2) * r2 + basis(5, 3) * r3
            + basis(5, 4) * r4 + basis(5, 5) * r5 + basis(5, 6) * r6 + basis(5, 7) * r7);
        let t6 = 12540 * r0 + (-30274) * r1 + 30274 * r2 + (-12540) * r3 + (-12540) * r4 + 30274
            * r5 + (-30274) * r6 + 12540 * r7;
        assert(t6 == basis(6, 0) * r0 + basis(6, 1) * r1 + basis(6, 2) * r2 + basis(6, 3) * r3
            + basis(6, 4) * r4 + basis(6, 5) * r5 + basis(6, 6) * r6 + basis(6, 7) * r7);
        let t7 = 6393 * r0 + (-18205) * r1 + 27246 * r2 + (-32138) * r3 + 32138 * r4 + (-27246)
            * r5 + 18205 * r6 + (-6393) * r7;
        assert(t7 == basis(7, 0) * r0 + basis(7, 1) * r1 + basis(7, 2) * r2 + basis(7, 3) * r3
            + basis(7, 4) * r4 + basis(7, 5) * r5 + basis(7, 6) * r6 + basis(7, 7) * r7);
        assert(there_and_back(0, r0, r1, r2, r3, r4, r5, r6, r7) == 23170 * t0 + 32138 * t1
            + 30274 * t2 + 27246 * t3 + 23170 * t4 + 18205 * t5 + 12540 * t6 + 6393 * t7);
    } else if x == 1 {
        let t0 = 23170 * r0 + 23170 * r1 + 23170 * r2 + 23170 * r3 + 23170 * r4 + 23170 * r5
            + 23170 * r6 + 23170 * r7;
        assert(t0 == basis(0, 0) * r0 + basis(0, 1) * r1 + basis(0, 2) * r2 + basis(0, 3) * r3
            + basis(0, 4) * r4 + basis(0, 5) * r5 + basis(0, 6) * r6 + basis(0, 7) * r7);
        let t1 = 32138 * r0 + 27246 * r1 + 18205 * r2 + 6393 * r3 + (-6393) * r4 + (-18205) * r5
            + (-27246) * r6 + (-32138) * r7;
        assert(t1 == basis(1, 0) * r0 + basis(1, 1) * r1 + basis(1, 2) * r2 + basis(1, 3) * r3
            + basis(1, 4) * r4 + basis(1, 5) * r5 + basis(1, 6) * r6 + basis(1, 7) * r7);
        let t2 = 30274 * r0 + 12540 * r1 + (-12540) * r2 + (-30274) * r3 + (-30274) * r4
            + (-12540) * r5 + 12540 * r6 + 30274 * r7;
        assert(t2 == basis(2, 0) * r0 + basis(2, 1) * r1 + basis(2, 2) * r2 + basis(2, 3) * r3
            + basis(2, 4) * r4 + basis(2, 5) * r5 + basis(2, 6) * r6 + basis(2, 7) * r7);
        let t3 = 27246 * r0 + (-6393) * r1 + (-32138) * r2 + (-18205) * r3 + 18205 * r4 + 32138
            * r5 + 6393 * r6 + (-27246) * r7;
        assert(t3 == basis(3, 0) * r0 + basis(3, 1) * r1 + basis(3, 2) * r2 + basis(3, 3) * r3
            + basis(3, 4) * r4 + basis(3, 5) * r5 + basis(3, 6) * r6 + basis(3, 7) * r7);
        let t4 = 23170 * r0 + (-23170) * r1 + (-23170) * r2 + 23170 * r3 + 23170 * r4 + (-23170)
            * r5 + (-23170) * r6 + 23170 * r7;
        assert(t4 == basis(4, 0) * r0 + basis(4, 1) * r1 + basis(4, 2) * r2 + basis(4, 3) * r3
            + basis(4, 4) * r4 + basis(4, 5) * r5 + basis(4, 6) * r6 + basis(4, 7) * r7);
        let t5 = 18205 * r0 + (-32138) * r1 + 6393 * r2 + 27246 * r3 + (-27246) * r4 + (-6393)
            * r5 + 32138 * r6 + (-18205) * r7;
        assert(t5 == basis(5, 0) * r0 + basis(5, 1) * r1 + basis(5, 2) * r2 + basis(5, 3) * r3
            + basis(5, 4) * r4 + basis(5, 5) * r5 + basis(5, 6) * r6 + basis(5, 7) * r7);
        let t6 = 12540 * r0 + (-30274) * r1 + 30274 * r2 + (-12540) * r3 + (-12540) * r4 + 30274
            * r5 + (-30274) * r6 + 12540 * r7;
        assert(t6 == basis(6, 0) * r0 + basis(6, 1) * r1 + basis(6, 2) * r2 + basis(6, 3) * r3
            + basis(6, 4) * r4 + basis(6, 5) * r5 + basis(6, 6) * r6 + basis(6, 7) * r7);
        let t7 = 6393 * r0 + (-18205) * r1 + 27246 * r2 + (-32138) * r3 + 32138 * r4 + (-27246)
            * r5 + 18205 * r6 + (-6393) * r7;
        assert(t7 == basis(7, 0) * r0 + basis(7, 1) * r1 + basis(7, 2) * r2 + basis(7, 3) * r3
            + basis(7, 4) * r4 + basis(7, 5) * r5 + basis(7, 6) * r6 + basis(7, 7) * r7);
        assert(there_and_back(1, r0, r1, r2, r3, r4, r5, r6, r7) == 23170 * t0 + 27246 * t1
            + 12540 * t2 + (-6393) * t3 + (-23170) * t4 + (-32138) * t5 + (-30274) * t6 + (-18205)
            * t7);
    } else if x == 2 {
        let t0 = 23170 * r0 + 23170 * r1 + 23170 * r2 + 23170 * r3 + 23170 * r4 + 23170 * r5
            + 23170 * r6 + 23170 * r7;
        assert(t0 == basis(0, 0) * r0 + basis(0, 1) * r1 + basis(0, 2) * r2 + basis(0, 3) * r3
            + basis(0, 4) * r4 + basis(0, 5) * r5 + basis(0, 6) * r6 + basis(0, 7) * r7);
        let t1 = 32138 * r0 + 27246 * r1 + 18205 * r2 + 6393 * r3 + (-6393) * r4 + (-18205) * r5
            + (-27246) * r6 + (-32138) * r7;
        assert(t1 == basis(1, 0) * r0 + basis(1, 1) * r1 + basis(1, 2) * r2 + basis(1, 3) * r3
            + basis(1, 4) * r4 + basis(1, 5) * r5 + basis(1, 6) * r6 + basis(1, 7) * r7);
        let t2 = 30274 * r0 + 12540 * r1 + (-12540) * r2 + (-30274) * r3 + (-30274) * r4
            + (-12540) * r5 + 12540 * r6 + 30274 * r7;
        assert(t2 == basis(2, 0) * r0 + basis(2, 1) * r1 + basis(2, 2) * r2 + basis(2, 3) * r3
            + basis(2, 4) * r4 + basis(2, 5) * r5 + basis(2, 6) * r6 + basis(2, 7) * r7);
        let t3 = 27246 * r0 + (-6393) * r1 + (-32138) * r2 + (-18205) * r3 + 18205 * r4 + 32138
            * r5 + 6393 * r6 + (-27246) * r7;
        assert(t3 == basis(3, 0) * r0 + basis(3, 1) * r1 + basis(3, 2) * r2 + basis(3, 3) * r3
            + basis(3, 4) * r4 + basis(3, 5) * r5 + basis(3, 6) * r6 + basis(3, 7) * r7);
        let t4 = 23170 * r0 + (-23170) * r1 + (-23170) * r2 + 23170 * r3 + 23170 * r4 + (-23170)
            * r5 + (-23170) * r6 + 23170 * r7;
        assert(t4 == basis(4, 0) * r0 + basis(4, 1) * r1 + basis(4, 2) * r2 + basis(4, 3) * r3
            + basis(4, 4) * r4 + basis(4, 5) * r5 + basis(4, 6) * r6 + basis(4, 7) * r7);
        let t5 = 18205 * r0 + (-32138) * r1 + 6393 * r2 + 27246 * r3 + (-27246) * r4 + (-6393)
            * r5 + 32138 * r6 + (-18205) * r7;
        assert(t5 == basis(5, 0) * r0 + basis(5, 1) * r1 + basis(5, 2) * r2 + basis(5, 3) * r3
            + basis(5, 4) * r4 + basis(5, 5) * r5 + basis(5, 6) * r6 + basis(5, 7) * r7);
        let t6 = 12540 * r0 + (-30274) * r1 + 30274 * r2 + (-12540) * r3 + (-12540) * r4 + 30274
            * r5 + (-30274) * r6 + 12540 * r7;
        assert(t6 == basis(6, 0) * r0 + basis(6, 1) * r1 + basis(6, 2) * r2 + basis(6, 3) * r3
            + basis(6, 4) * r4 + basis(6, 5) * r5 + basis(6, 6) * r6 + basis(6, 7) * r7);
        let t7 = 6393 * r0 + (-18205) * r1 + 27246 * r2 + (-32138) * r3 + 32138 * r4 + (-27246)
            * r5 + 18205 * r6 + (-6393) * r7;
        assert(t7 == basis(7, 0) * r0 + basis(7, 1) * r1 + basis(7, 2) * r2 + basis(7, 3) * r3
            + basis(7, 4) * r4 + basis(7, 5) * r5 + basis(7, 6) * r6 + basis(7, 7) * r7);
        assert(there_and_back(2, r0, r1, r2, r3, r4, r5, r6, r7) == 23170 * t0 + 18205 * t1
            + (-12540) * t2 + (-32138) * t3 + (-23170) * t4 + 6393 * t5 + 30274 * t6 + 27246 * t7);
    } else if x == 3 {
        let t0 = 23170 * r0 + 23170 * r1 + 23170 * r2 + 23170 * r3 + 23170 * r4 + 23170 * r5
            + 23170 * r6 + 23170 * r7;
        assert(t0 == basis(0, 0) * r0 + basis(0, 1) * r1 + basis(0, 2) * r2 + basis(0, 3) * r3
            + basis(0, 4) * r4 + basis(0, 5) * r5 + basis(0, 6) * r6 + basis(0, 7) * r7);
        let t1 = 32138 * r0 + 27246 * r1 + 18205 * r2 + 6393 * r3 + (-6393) * r4 + (-18205) * r5
            + (-27246) * r6 + (-32138) * r7;
        assert(t1 == basis(1, 0) * r0 + basis(1, 1) * r1 + basis(1, 2) * r2 + basis(1, 3) * r3
            + basis(1, 4) * r4 + basis(1, 5) * r5 + basis(1, 6) * r6 + basis(1, 7) * r7);
        let t2 = 30274 * r0 + 12540 * r1 + (-12540) * r2 + (-30274) * r3 + (-30274) * r4
            + (-12540) * r5 + 12540 * r6 + 30274 * r7;
        assert(t2 == basis(2, 0) * r0 + basis(2, 1) * r1 + basis(2, 2) * r2 + basis(2, 3) * r3
            + basis(2, 4) * r4 + basis(2, 5) * r5 + basis(2, 6) * r6 + basis(2, 7) * r7);
        let t3 = 27246 * r0 + (-6393) * r1 + (-32138) * r2 + (-18205) * r3 + 18205 * r4 + 32138
            * r5 + 6393 * r6 + (-27246) * r7;
        assert(t3 == basis(3, 0) * r0 + basis(3, 1) * r1 + basis(3, 2) * r2 + basis(3, 3) * r3
            + basis(3, 4) * r4 + basis(3, 5) * r5 + basis(3, 6) * r6 + basis(3, 7) * r7);
        let t4 = 23170 * r0 + (-23170) * r1 + (-23170) * r2 + 23170 * r3 + 23170 * r4 + (-23170)
            * r5 + (-23170) * r6 + 23170 * r7;
        assert(t4 == basis(4, 0) * r0 + basis(4, 1) * r1 + basis(4, 2) * r2 + basis(4, 3) * r3
            + basis(4, 4) * r4 + basis(4, 5) * r5 + basis(4, 6) * r6 + basis(4, 7) * r7);
        let t5 = 18205 * r0 + (-32138) * r1 + 6393 * r2 + 27246 * r3 + (-27246) * r4 + (-6393)
            * r5 + 32138 * r6 + (-18205) * r7;
        assert(t5 == basis(5, 0) * r0 + basis(5, 1) * r1 + basis(5, 2) * r2 + basis(5, 3) * r3
            + basis(5, 4) * r4 + basis(5, 5) * r5 + basis(5, 6) * r6 + basis(5, 7) * r7);
        let t6 = 12540 * r0 + (-30274) * r1 + 30274 * r2 + (-12540) * r3 + (-12540) * r4 + 30274
            * r5 + (-30274) * r6 + 12540 * r7;
        assert(t6 == basis(6, 0) * r0 + basis(6, 1) * r1 + basis(6, 2) * r2 + basis(6, 3) * r3
            + basis(6, 4) * r4 + basis(6, 5) * r5 + basis(6, 6) * r6 + basis(6, 7) * r7);
        let t7 = 6393 * r0 + (-18205) * r1 + 27246 * r2 + (-32138) * r3 + 32138 * r4 + (-27246)
            * r5 + 18205 * r6 + (-6393) * r7;
        assert(t7 == basis(7, 0) * r0 + basis(7, 1) * r1 + basis(7, 2) * r2 + basis(7, 3) * r3
            + basis(7, 4) * r4 + basis(7, 5) * r5 + basis(7, 6) * r6 + basis(7, 7) * r7);
        assert(there_and_back(3, r0, r1, r2, r3, r4, r5, r6, r7) == 23170 * t0 + 6393 * t1
            + (-30274) * t2 + (-18205) * t3 + 23170 * t4 + 27246 * t5 + (-12540) * t6 + (-32138)
            * t7);
    } else if x == 4 {
        let t0 = 23170 * r0 + 23170 * r1 + 23170 * r2 + 23170 * r3 + 23170 * r4 + 23170 * r5
            + 23170 * r6 + 23170 * r7;
        assert(t0 == basis(0, 0) * r0 + basis(0, 1) * r1 + basis(0, 2) * r2 + basis(0, 3) * r3
            + basis(0, 4) * r4 + basis(0, 5) * r5 + basis(0, 6) * r6 + basis(0, 7) * r7);
        let t1 = 32138 * r0 + 27246 * r1 + 18205 * r2 + 6393 * r3 + (-6393) * r4 + (-18205) * r5
            + (-27246) * r6 + (-32138) * r7;
        assert(t1 == basis(1, 0) * r0 + basis(1, 1) * r1 + basis(1, 2) * r2 + basis(1, 3) * r3
            + basis(1, 4) * r4 + basis(1, 5) * r5 + basis(1, 6) * r6 + basis(1, 7) * r7);
        let t2 = 30274 * r0 + 12540 * r1 + (-12540) * r2 + (-30274) * r3 + (-30274) * r4
            + (-12540) * r5 + 12540 * r6 + 30274 * r7;
        assert(t2 == basis(2, 0) * r0 + basis(2, 1) * r1 + basis(2, 2) * r2 + basis(2, 3) * r3
            + basis(2, 4) * r4 + basis(2, 5) * r5 + basis(2, 6) * r6 + basis(2, 7) * r7);
        let t3 = 27246 * r0 + (-6393) * r1 + (-32138) * r2 + (-18205) * r3 + 18205 * r4 + 32138
            * r5 + 6393 * r6 + (-27246) * r7;
        assert(t3 == basis(3, 0) * r0 + basis(3, 1) * r1 + basis(3, 2) * r2 + basis(3, 3) * r3
            + basis(3, 4) * r4 + basis(3, 5) * r5 + basis(3, 6) * r6 + basis(3, 7) * r7);
        let t4 = 23170 * r0 + (-23170) * r1 + (-23170) * r2 + 23170 * r3 + 23170 * r4 + (-23170)
            * r5 + (-23170) * r6 + 23170 * r7;
        assert(t4 == basis(4, 0) * r0 + basis(4, 1) * r1 + basis(4, 2) * r2 + basis(4, 3) * r3
            + basis(4, 4) * r4 + basis(4, 5) * r5 + basis(4, 6) * r6 + basis(4, 7) * r7);
        let t5 = 18205 * r0 + (-32138) * r1 + 6393 * r2 + 27246 * r3 + (-27246) * r4 + (-6393)
            * r5 + 32138 * r6 + (-18205) * r7;
        assert(t5 == basis(5, 0) * r0 + basis(5, 1) * r1 + basis(5, 2) * r2 + basis(5, 3) * r3
            + basis(5, 4) * r4 + basis(5, 5) * r5 + basis(5, 6) * r6 + basis(5, 7) * r7);
        let t6 = 12540 * r0 + (-30274) * r1 + 30274 * r2 + (-12540) * r3 + (-12540) * r4 + 30274
            * r5 + (-30274) * r6 + 12540 * r7;
        assert(t6 == basis(6, 0) * r0 + basis(6, 1) * r1 + basis(6, 2) * r2 + basis(6, 3) * r3
            + basis(6, 4) * r4 + basis(6, 5) * r5 + basis(6, 6) * r6 + basis(6, 7) * r7);
        let t7 = 6393 * r0 + (-18205) * r1 + 27246 * r2 + (-32138) * r3 + 32138 * r4 + (-27246)
            * r5 + 18205 * r6 + (-6393) * r7;
        assert(t7 == basis(7, 0) * r0 + basis(7, 1) * r1 + basis(7, 2) * r2 + basis(7, 3) * r3
            + basis(7, 4) * r4 + basis(7, 5) * r5 + basis(7, 6) * r6 + basis(7, 7) * r7);
        assert(there_and_back(4, r0, r1, r2, r3, r4, r5, r6, r7) == 23170 * t0 + (-6393) * t1
            + (-30274) * t2 + 18205 * t3 + 23170 * t4 + (-27246) * t5 + (-12540) * t6 + 32138 * t7);
    } else if x == 5 {
        let t0 = 23170 * r0 + 23170 * r1 + 23170 * r2 + 23170 * r3 + 23170 * r4 + 23170 * r5
            + 23170 * r6 + 23170 * r7;
        assert(t0 == basis(0, 0) * r0 + basis(0, 1) * r1 + basis(0, 2) * r2 + basis(0, 3) * r3
            + basis(0, 4) * r4 + basis(0, 5) * r5 + basis(0, 6) * r6 + basis(0, 7) * r7);
        let t1 = 32138 * r0 + 27246 * r1 + 18205 * r2 + 6393 * r3 + (-6393) * r4 + (-18205) * r5
            + (-27246) * r6 + (-32138) * r7;
        assert(t1 == basis(1, 0) * r0 + basis(1, 1) * r1 + basis(1, 2) * r2 + basis(1, 3) * r3
            + basis(1, 4) * r4 + basis(1, 5) * r5 + basis(1, 6) * r6 + basis(1, 7) * r7);
        let t2 = 30274 * r0 + 12540 * r1 + (-12540) * r2 + (-30274) * r3 + (-30274) * r4
            + (-12540) * r5 + 12540 * r6 + 30274 * r7;
        assert(t2 == basis(2, 0) * r0 + basis(2, 1) * r1 + basis(2, 2) * r2 + basis(2, 3) * r3
            + basis(2, 4) * r4 + basis(2, 5) * r5 + basis(2, 6) * r6 + basis(2, 7) * r7);
        let t3 = 27246 * r0 + (-6393) * r1 + (-32138) * r2 + (-18205) * r3 + 18205 * r4 + 32138
            * r5 + 6393 * r6 + (-27246) * r7;
        assert(t3 == basis(3, 0) * r0 + basis(3, 1) * r1 + basis(3, 2) * r2 + basis(3, 3) * r3
            + basis(3, 4) * r4 + basis(3, 5) * r5 + basis(3, 6) * r6 + basis(3, 7) * r7);
        let t4 = 23170 * r0 + (-23170) * r1 + (-23170) * r2 + 23170 * r3 + 23170 * r4 + (-23170)
            * r5 + (-23170) * r6 + 23170 * r7;
        assert(t4 == basis(4, 0) * r0 + basis(4, 1) * r1 + basis(4, 2) * r2 + basis(4, 3) * r3
            + basis(4, 4) * r4 + basis(4, 5) * r5 + basis(4, 6) * r6 + basis(4, 7) * r7);
        let t5 = 18205 * r0 + (-32138) * r1 + 6393 * r2 + 27246 * r3 + (-27246) * r4 + (-6393)
            * r5 + 32138 * r6 + (-18205) * r7;
        assert(t5 == basis(5, 0) * r0 + basis(5, 1) * r1 + basis(5, 2) * r2 + basis(5, 3) * r3
            + basis(5, 4) * r4 + basis(5, 5) * r5 + basis(5, 6) * r6 + basis(5, 7) * r7);
        let t6 = 12540 * r0 + (-30274) * r1 + 30274 * r2 + (-12540) * r3 + (-12540) * r4 + 30274
            * r5 + (-30274) * r6 + 12540 * r7;
        assert(t6 == basis(6, 0) * r0 + basis(6, 1) * r1 + basis(6, 2) * r2 + basis(6, 3) * r3
            + basis(6, 4) * r4 + basis(6, 5) * r5 + basis(6, 6) * r6 + basis(6, 7) * r7);
        let t7 = 6393 * r0 + (-18205) * r1 + 27246 * r2 + (-32138) * r3 + 32138 * r4 + (-27246)
            * r5 + 18205 * r6 + (-6393) * r7;
        assert(t7 == basis(7, 0) * r0 + basis(7, 1) * r1 + basis(7, 2) * r2 + basis(7, 3) * r3
            + basis(7, 4) * r4 + basis(7, 5) * r5 + basis(7, 6) * r6 + basis(7, 7) * r7);
        assert(there_and_back(5, r0, r1, r2, r3, r4, r5, r6, r7) == 23170 * t0 + (-18205) * t1
            + (-12540) * t2 + 32138 * t3 + (-23170) * t4 + (-6393) * t5 + 30274 * t6 + (-27246)
            * t7);
    } else if x == 6 {
        let t0 = 23170 * r0 + 23170 * r1 + 23170 * r2 + 23170 * r3 + 23170 * r4 + 23170 * r5
            + 23170 * r6 + 23170 * r7;
        assert(t0 == basis(0, 0) * r0 + basis(0, 1) * r1 + basis(0, 2) * r2 + basis(0, 3) * r3
            + basis(0, 4) * r4 + basis(0, 5) * r5 + basis(0, 6) * r6 + basis(0, 7) * r7);
        let t1 = 32138 * r0 + 27246 * r1 + 18205 * r2 + 6393 * r3 + (-6393) * r4 + (-18205) * r5
            + (-27246) * r6 + (-32138) * r7;
        assert(t1 == basis(1, 0) * r0 + basis(1, 1) * r1 + basis(1, 2) * r2 + basis(1, 3) * r3
            + basis(1, 4) * r4 + basis(1, 5) * r5 + basis(1, 6) * r6 + basis(1, 7) * r7);
        let t2 = 30274 * r0 + 12540 * r1 + (-12540) * r2 + (-30274) * r3 + (-30274) * r4
            + (-12540) * r5 + 12540 * r6 + 30274 * r7;
        assert(t2 == basis(2, 0) * r0 + basis(2, 1) * r1 + basis(2, 2) * r2 + basis(2, 3) * r3
            + basis(2, 4) * r4 + basis(2, 5) * r5 + basis(2, 6) * r6 + basis(2, 7) * r7);
        let t3 = 27246 * r0 + (-6393) * r1 + (-32138) * r2 + (-18205) * r3 + 18205 * r4 + 32138
            * r5 + 6393 * r6 + (-27246) * r7;
        assert(t3 == basis(3, 0) * r0 + basis(3, 1) * r1 + basis(3, 2) * r2 + basis(3, 3) * r3
            + basis(3, 4) * r4 + basis(3, 5) * r5 + basis(3, 6) * r6 + basis(3, 7) * r7);
        let t4 = 23170 * r0 + (-23170) * r1 + (-23170) * r2 + 23170 * r3 + 23170 * r4 + (-23170)
            * r5 + (-23170) * r6 + 23170 * r7;
        assert(t4 == basis(4, 0) * r0 + basis(4, 1) * r1 + basis(4, 2) * r2 + basis(4, 3) * r3
            + basis(4, 4) * r4 + basis(4, 5) * r5 + basis(4, 6) * r6 + basis(4, 7) * r7);
        let t5 = 18205 * r0 + (-32138) * r1 + 6393 * r2 + 27246 * r3 + (-27246) * r4 + (-6393)
            * r5 + 32138 * r6 + (-18205) * r7;
        assert(t5 == basis(5, 0) * r0 + basis(5, 1) * r1 + basis(5, 2) * r2 + basis(5, 3) * r3
            + basis(5, 4) * r4 + basis(5, 5) * r5 + basis(5, 6) * r6 + basis(5, 7) * r7);
        let t6 = 12540 * r0 + (-30274) * r1 + 30274 * r2 + (-12540) * r3 + (-12540) * r4 + 30274
            * r5 + (-30274) * r6 + 12540 * r7;
        assert(t6 == basis(6, 0) * r0 + basis(6, 1) * r1 + basis(6, 2) * r2 + basis(6, 3) * r3
            + basis(6, 4) * r4 + basis(6, 5) * r5 + basis(6, 6) * r6 + basis(6, 7) * r7);
        let t7 = 6393 * r0 + (-18205) * r1 + 27246 * r2 + (-32138) * r3 + 32138 * r4 + (-27246)
            * r5 + 18205 * r6 + (-6393) * r7;
        assert(t7 == basis(7, 0) * r0 + basis(7, 1) * r1 + basis(7, 2) * r2 + basis(7, 3) * r3
            + basis(7, 4) * r4 + basis(7, 5) * r5 + basis(7, 6) * r6 + basis(7, 7) * r7);
        assert(there_and_back(6, r0, r1, r2, r3, r4, r5, r6, r7) == 23170 * t0 + (-27246) * t1
            + 12540 * t2 + 6393 * t3 + (-23170) * t4 + 32138 * t5 + (-30274) * t6 + 18205 * t7);
    } else {
        let t0 = 23170 * r0 + 23170 * r1 + 23170 * r2 + 23170 * r3 + 23170 * r4 + 23170 * r5
            + 23170 * r6 + 23170 * r7;
        assert(t0 == basis(0, 0) * r0 + basis(0, 1) * r1 + basis(0, 2) * r2 + basis(0, 3) * r3
            + basis(0, 4) * r4 + basis(0, 5) * r5 + basis(0, 6) * r6 + basis(0, 7) * r7);
        let t1 = 32138 * r0 + 27246 * r1 + 18205 * r2 + 6393 * r3 + (-6393) * r4 + (-18205) * r5
            + (-27246) * r6 + (-32138) * r7;
        assert(t1 == basis(1, 0) * r0 + basis(1, 1) * r1 + basis(1, 2) * r2 + basis(1, 3) * r3
            + basis(1, 4) * r4 + basis(1, 5) * r5 + basis(1, 6) * r6 + basis(1, 7) * r7);
        let t2 = 30274 * r0 + 12540 * r1 + (-12540) * r2 + (-30274) * r3 + (-30274) * r4
            + (-12540) * r5 + 12540 * r6 + 30274 * r7;
        assert(t2 == basis(2, 0) * r0 + basis(2, 1) * r1 + basis(2, 2) * r2 + basis(2, 3) * r3
            + basis(2, 4) * r4 + basis(2, 5) * r5 + basis(2, 6) * r6 + basis(2, 7) * r7);
        let t3 = 27246 * r0 + (-6393) * r1 + (-32138) * r2 + (-18205) * r3 + 18205 * r4 + 32138
            * r5 + 6393 * r6 + (-27246) * r7;
        assert(t3 == basis(3, 0) * r0 + basis(3, 1) * r1 + basis(3, 2) * r2 + basis(3, 3) * r3
            + basis(3, 4) * r4 + basis(3, 5) * r5 + basis(3, 6) * r6 + basis(3, 7) * r7);
        let t4 = 23170 * r0 + (-23170) * r1 + (-23170) * r2 + 23170 * r3 + 23170 * r4 + (-23170)
            * r5 + (-23170) * r6 + 23170 * r7;
        assert(t4 == basis(4, 0) * r0 + basis(4, 1) * r1 + basis(4, 2) * r2 + basis(4, 3) * r3
            + basis(4, 4) * r4 + basis(4, 5) * r5 + basis(4, 6) * r6 + basis(4, 7) * r7);
        let t5 = 18205 * r0 + (-32138) * r1 + 6393 * r2 + 27246 * r3 + (-27246) * r4 + (-6393)
            * r5 + 32138 * r6 + (-18205) * r7;
        assert(t5 == basis(5, 0) * r0 + basis(5, 1) * r1 + basis(5, 2) * r2 + basis(5, 3) * r3
            + basis(5, 4) * r4 + basis(5, 5) * r5 + basis(5, 6) * r6 + basis(5, 7) * r7);
        let t6 = 12540 * r0 + (-30274) * r1 + 30274 * r2 + (-12540) * r3 + (-12540) * r4 + 30274
            * r5 + (-30274) * r6 + 12540 * r7;
        assert(t6 == basis(6, 0) * r0 + basis(6, 1) * r1 + basis(6, 2) * r2 + basis(6, 3) * r3
            + basis(6, 4) * r4 + basis(6, 5) * r5 + basis(6, 6) * r6 + basis(6, 7) * r7);
        let t7 = 6393 * r0 + (-18205) * r1 + 27246 * r2 + (-32138) * r3 + 32138 * r4 + (-27246)
            * r5 + 18205 * r6 + (-6393) * r7;
        assert(t7 == basis(7, 0) * r0 + basis(7, 1) * r1 + basis(7, 2) * r2 + basis(7, 3) * r3
            + basis(7, 4) * r4 + basis(7, 5) * r5 + basis(7, 6) * r6 + basis(7, 7) * r7);
        assert(there_and_back(7, r0, r1, r2, r3, r4, r5, r6, r7) == 23170 * t0 + (-32138) * t1
            + 30274 * t2 + (-27246) * t3 + 23170 * t4 + (-18205) * t5 + 12540 * t6 + (-6393) * t7);
    }
}

/// Eight numbers, transformed with column `y` of the basis.
pub open spec fn with_column(y: int, r0: int, r1: int, r2: int, r3: int, r4: int, r5: int, r6: int,
    r7: int) -> int {
    r0 * basis(0, y) + r1 * basis(1, y) + r2 * basis(2, y) + r3 * basis(3, y) + r4 * basis(4, y)
        + r5 * basis(5, y) + r6 * basis(6, y) + r7 * basis(7, y)
}

/// Where eight numbers are `2^32` times eight others up to `b`, their
/// transforms with a column of the basis are so up to 185360 times `b`.
pub proof fn lemma_with_column_near(y: int, c0: int, c1: int, c2: int, c3: int, c4: int, c5: int,
    c6: int, c7: int, r0: int, r1: int, r2: int, r3: int, r4: int, r5: int, r6: int, r7: int,
    b: int)
    requires
        0 <= y < 8,
        -b <= c0 - 0x1_0000_0000 * r0 <= b,
        -b <= c1 - 0x1_0000_0000 * r1 <= b,
        -b <= c2 - 0x1_0000_0000 * r2 <= b,
        -b <= c3 - 0x1_0000_0000 * r3 <= b,
        -b <= c4 - 0x1_0000_0000 * r4 <= b,
        -b <= c5 - 0x1_0000_0000 * r5 <= b,
        -b <= c6 - 0x1_0000_0000 * r6 <= b,
        -b <= c7 - 0x1_0000_0000 * r7 <= b,
    ensures
        -185360 * b <= with_column(y, c0, c1, c2, c3, c4, c5, c6, c7) - 0x1_0000_0000
            * with_column(y, r0, r1, r2, r3, r4, r5, r6, r7) <= 185360 * b,
{
    lemma_basis_values();
    if y == 0 {
        assert(with_column(0, c0, c1, c2, c3, c4, c5, c6, c7) == c0 * 23170 + c1 * 32138 + c2
            * 30274 + c3 * 27246 + c4 * 23170 + c5 * 18205 + c6 * 12540 + c7 * 6393);
        assert(with_column(0, r0, r1, r2, r3, r4, r5, r6, r7) == r0 * 23170 + r1 * 32138 + r2
            * 30274 + r3 * 27246 + r4 * 23170 + r5 * 18205 + r6 * 12540 + r7 * 6393);
    } else if y == 1 {
        assert(with_column(1, c0, c1, c2, c3, c4, c5, c6, c7) == c0 * 23170 + c1 * 27246 + c2
            * 12540 + c3 * (-6393) + c4 * (-23170) + c5 * (-32138) + c6 * (-30274) + c7 * (-18205));
        assert(with_column(1, r0, r1, r2, r3, r4, r5, r6, r7) == r0 * 23170 + r1 * 27246 + r2
            * 12540 + r3 * (-6393) + r4 * (-23170) + r5 * (-32138) + r6 * (-30274) + r7 * (-18205));
    } else if y == 2 {
        assert(with_column(2, c0, c1, c2, c3, c4, c5, c6, c7) == c0 * 23170 + c1 * 18205 + c2
            * (-12540) + c3 * (-32138) + c4 * (-23170) + c5 * 6393 + c6 * 30274 + c7 * 27246);
        assert(with_column(2, r0, r1, r2, r3, r4, r5, r6, r7) == r0 * 23170 + r1 * 18205 + r2
            * (-12540) + r3 * (-32138) + r4 * (-23170) + r5 * 6393 + r6 * 30274 + r7 * 27246);
    } else if y == 3 {
        assert(with_column(3, c0, c1, c2, c3, c4, c5, c6, c7) == c0 * 23170 + c1 * 6393 + c2
            * (-30274) + c3 * (-18205) + c4 * 23170 + c5 * 27246 + c6 * (-12540) + c7 * (-32138));
        assert(with_column(3, r0, r1, r2, r3, r4, r5, r6, r7) == r0 * 23170 + r1 * 6393 + r2
            * (-30274) + r3 * (-18205) + r4 * 23170 + r5 * 27246 + r6 * (-12540) + r7 * (-32138));
    } else if y == 4 {
        assert(with_column(4, c0, c1, c2, c3, c4, c5, c6, c7) == c0 * 23170 + c1 * (-6393) + c2
            * (-30274) + c3 * 18205 + c4 * 23170 + c5 * (-27246) + c6 * (-12540) + c7 * 32138);
        assert(with_column(4, r0, r1, r2, r3, r4, r5, r6, r7) == r0 * 23170 + r1 * (-6393) + r2
            * (-30274) + r3 * 18205 + r4 * 23170 + r5 * (-27246) + r6 * (-12540) + r7 * 32138);
    } else if y == 5 {
        assert(with_column(5, c0, c1, c2, c3, c4, c5, c6, c7) == c0 * 23170 + c1 * (-18205) + c2
            * (-12540) + c3 * 32138 + c4 * (-23170) + c5 * (-6393) + c6 * 30274 + c7 * (-27246));
        assert(with_column(5, r0, r1, r2, r3, r4, r5, r6, r7) == r0 * 23170 + r1 * (-18205) + r2
            * (-12540) + r3 * 32138 + r4 * (-23170) + r5 * (-6393) + r6 * 30274 + r7 * (-27246));
    } else if y == 6 {
        assert(with_column(6, c0, c1, c2, c3, c4, c5, c6, c7) == c0 * 23170 + c1 * (-27246) + c2
            * 12540 + c3 * 6393 + c4 * (-23170) + c5 * 32138 + c6 * (-30274) + c7 * 18205);
        assert(with_column(6, r0, r1, r2, r3, r4, r5, r6, r7) == r0 * 23170 + r1 * (-27246) + r2
            * 12540 + r3 * 6393 + r4 * (-23170) + r5 * 32138 + r6 * (-30274) + r7 * 18205);
    } else {
        assert(with_column(7, c0, c1, c2, c3, c4, c5, c6, c7) == c0 * 23170 + c1 * (-32138) + c2
            * 30274 + c3 * (-27246) + c4 * 23170 + c5 * (-18205) + c6 * 12540 + c7 * (-6393));
        assert(with_column(7, r0, r1, r2, r3, r4, r5, r6, r7) == r0 * 23170 + r1 * (-32138) + r2
            * 30274 + r3 * (-27246) + r4 * 23170 + r5 * (-18205) + r6 * 12540 + r7 * (-6393));
    }
}

/// A row of samples, transformed with every row of the basis and then with
/// column `y` of the basis.
pub open spec fn row_there_and_back(y: int, r0: int, r1: int, r2: int, r3: int, r4: int, r5: int,
    r6: int, r7: int) -> int {
    (r0 * basis(0, 0) + r1 * basis(0, 1) + r2 * basis(0, 2) + r3 * basis(0, 3) + r4 * basis(0, 4)
        + r5 * basis(0, 5) + r6 * basis(0, 6) + r7 * basis(0, 7)) * basis(0, y) + (r0 * basis(1,
        0) + r1 * basis(1, 1) + r2 * basis(1, 2) + r3 * basis(1, 3) + r4 * basis(1, 4) + r5
        * basis(1, 5) + r6 * basis(1, 6) + r7 * basis(1, 7)) * basis(1, y) + (r0 * basis(2, 0)
        + r1 * basis(2, 1) + r2 * basis(2, 2) + r3 * basis(2, 3) + r4 * basis(2, 4) + r5 * basis(2,
        5) + r6 * basis(2, 6) + r7 * basis(2, 7)) * basis(2, y) + (r0 * basis(3, 0) + r1 * basis(3,
        1) + r2 * basis(3, 2) + r3 * basis(3, 3) + r4 * basis(3, 4) + r5 * basis(3, 5) + r6
        * basis(3, 6) + r7 * basis(3, 7)) * basis(3, y) + (r0 * basis(4, 0) + r1 * basis(4, 1)
        + r2 * basis(4, 2) + r3 * basis(4, 3) + r4 * basis(4, 4) + r5 * basis(4, 5) + r6 * basis(4,
        6) + r7 * basis(4, 7)) * basis(4, y) + (r0 * basis(5, 0) + r1 * basis(5, 1) + r2 * basis(5,
        2) + r3 * basis(5, 3) + r4 * basis(5, 4) + r5 * basis(5, 5) + r6 * basis(5, 6) + r7
        * basis(5, 7)) * basis(5, y) + (r0 * basis(6, 0) + r1 * basis(6, 1) + r2 * basis(6, 2)
        + r3 * basis(6, 3) + r4 * basis(6, 4) + r5 * basis(6, 5) + r6 * basis(6, 6) + r7 * basis(6,
        7)) * basis(6, y) + (r0 * basis(7, 0) + r1 * basis(7, 1) + r2 * basis(7, 2) + r3 * basis(7,
        3) + r4 * basis(7, 4) + r5 * basis(7, 5) + r6 * basis(7, 6) + r7 * basis(7, 7)) * basis(7,
        y)
}

/// [`row_there_and_back`] is [`there_and_back`] with the factors of each
/// product in the other order.
pub proof fn lemma_row_there_and_back(y: int, r0: int, r1: int, r2: int, r3: int, r4: int, r5: int,
    r6: int, r7: int)
    ensures
        row_there_and_back(y, r0, r1, r2, r3, r4, r5, r6, r7) == there_and_back(y, r0, r1, r2, r3,
            r4, r5, r6, r7),
{
    let a0 = r0 * basis(0, 0) + r1 * basis(0, 1) + r2 * basis(0, 2) + r3 * basis(0, 3) + r4
        * basis(0, 4) + r5 * basis(0, 5) + r6 * basis(0, 6) + r7 * basis(0, 7);
    let b0 = basis(0, 0) * r0 + basis(0, 1) * r1 + basis(0, 2) * r2 + basis(0, 3) * r3 + basis(0,
        4) * r4 + basis(0, 5) * r5 + basis(0, 6) * r6 + basis(0, 7) * r7;
    assert(r0 * basis(0, 0) == basis(0, 0) * r0) by (nonlinear_arith);
    assert(r1 * basis(0, 1) == basis(0, 1) * r1) by (nonlinear_arith);
    assert(r2 * basis(0, 2) == basis(0, 2) * r2) by (nonlinear_arith);
    assert(r3 * basis(0, 3) == basis(0, 3) * r3) by (nonlinear_arith);
    assert(r4 * basis(0, 4) == basis(0, 4) * r4) by (nonlinear_arith);
    assert(r5 * basis(0, 5) == basis(0, 5) * r5) by (nonlinear_arith);
    assert(r6 * basis(0, 6) == basis(0, 6) * r6) by (nonlinear_arith);
    assert(r7 * basis(0, 7) == basis(0, 7) * r7) by (nonlinear_arith);
    assert(a0 == b0);
    assert(a0 * basis(0, y) == basis(0, y) * b0) by (nonlinear_arith)
        requires
            a0 == b0,
    ;
    let a1 = r0 * basis(1, 0) + r1 * basis(1, 1) + r2 * basis(1, 2) + r3 * basis(1, 3) + r4
        * basis(1, 4) + r5 * basis(1, 5) + r6 * basis(1, 6) + r7 * basis(1, 7);
    let b1 = basis(1, 0) * r0 + basis(1, 1) * r1 + basis(1, 2) * r2 + basis(1, 3) * r3 + basis(1,
        4) * r4 + basis(1, 5) * r5 + basis(1, 6) * r6 + basis(1, 7) * r7;
    assert(r0 * basis(1, 0) == basis(1, 0) * r0) by (nonlinear_arith);
    assert(r1 * basis(1, 1) == basis(1, 1) * r1) by (nonlinear_arith);
    assert(r2 * basis(1, 2) == basis(1, 2) * r2) by (nonlinear_arith);
    assert(r3 * basis(1, 3) == basis(1, 3) * r3) by (nonlinear_arith);
    assert(r4 * basis(1, 4) == basis(1, 4) * r4) by (nonlinear_arith);
    assert(r5 * basis(1, 5) == basis(1, 5) * r5) by (nonlinear_arith);
    assert(r6 * basis(1, 6) == basis(1, 6) * r6) by (nonlinear_arith);
    assert(r7 * basis(1, 7) == basis(1, 7) * r7) by (nonlinear_arith);
    assert(a1 == b1);
    assert(a1 * basis(1, y) == basis(1, y) * b1) by (nonlinear_arith)
        requires
            a1 == b1,
    ;
    let a2 = r0 * basis(2, 0) + r1 * basis(2, 1) + r2 * basis(2, 2) + r3 * basis(2, 3) + r4
        * basis(2, 4) + r5 * basis(2, 5) + r6 * basis(2, 6) + r7 * basis(2, 7);
    let b2 = basis(2, 0) * r0 + basis(2, 1) * r1 + basis(2, 2) * r2 + basis(2, 3) * r3 + basis(2,
        4) * r4 + basis(2, 5) * r5 + basis(2, 6) * r6 + basis(2, 7) * r7;
    assert(r0 * basis(2, 0) == basis(2, 0) * r0) by (nonlinear_arith);
    assert(r1 * basis(2, 1) == basis(2, 1) * r1) by (nonlinear_arith);
    assert(r2 * basis(2, 2) == basis(2, 2) * r2) by (nonlinear_arith);
    assert(r3 * basis(2, 3) == basis(2, 3) * r3) by (nonlinear_arith);
    assert(r4 * basis(2, 4) == basis(2, 4) * r4) by (nonlinear_arith);
    assert(r5 * basis(2, 5) == basis(2, 5) * r5) by (nonlinear_arith);
    assert(r6 * basis(2, 6) == basis(2, 6) * r6) by (nonlinear_arith);
    assert(r7 * basis(2, 7) == basis(2, 7) * r7) by (nonlinear_arith);
    assert(a2 == b2);
    assert(a2 * basis(2, y) == basis(2, y) * b2) by (nonlinear_arith)
        requires
            a2 == b2,
    ;
    let a3 = r0 * basis(3, 0) + r1 * basis(3, 1) + r2 * basis(3, 2) + r3 * basis(3, 3) + r4
        * basis(3, 4) + r5 * basis(3, 5) + r6 * basis(3, 6) + r7 * basis(3, 7);
    let b3 = basis(3, 0) * r0 + basis(3, 1) * r1 + basis(3, 2) * r2 + basis(3, 3) * r3 + basis(3,
        4) * r4 + basis(3, 5) * r5 + basis(3, 6) * r6 + basis(3, 7) * r7;
    assert(r0 * basis(3, 0) == basis(3, 0) * r0) by (nonlinear_arith);
    assert(r1 * basis(3, 1) == basis(3, 1) * r1) by (nonlinear_arith);
    assert(r2 * basis(3, 2) == basis(3, 2) * r2) by (nonlinear_arith);
    assert(r3 * basis(3, 3) == basis(3, 3) * r3) by (nonlinear_arith);
    assert(r4 * basis(3, 4) == basis(3, 4) * r4) by (nonlinear_arith);
    assert(r5 * basis(3, 5) == basis(3, 5) * r5) by (nonlinear_arith);
    assert(r6 * basis(3, 6) == basis(3, 6) * r6) by (nonlinear_arith);
    assert(r7 * basis(3, 7) == basis(3, 7) * r7) by (nonlinear_arith);
    assert(a3 == b3);
    assert(a3 * basis(3, y) == basis(3, y) * b3) by (nonlinear_arith)
        requires
            a3 == b3,
    ;
    let a4 = r0 * basis(4, 0) + r1 * basis(4, 1) + r2 * basis(4, 2) + r3 * basis(4, 3) + r4
        * basis(4, 4) + r5 * basis(4, 5) + r6 * basis(4, 6) + r7 * basis(4, 7);
    let b4 = basis(4, 0) * r0 + basis(4, 1) * r1 + basis(4, 2) * r2 + basis(4, 3) * r3 + basis(4,
        4) * r4 + basis(4, 5) * r5 + basis(4, 6) * r6 + basis(4, 7) * r7;
    assert(r0 * basis(4, 0) == basis(4, 0) * r0) by (nonlinear_arith);
    assert(r1 * basis(4, 1) == basis(4, 1) * r1) by (nonlinear_arith);
    assert(r2 * basis(4, 2) == basis(4, 2) * r2) by (nonlinear_arith);
    assert(r3 * basis(4, 3) == basis(4, 3) * r3) by (nonlinear_arith);
    assert(r4 * basis(4, 4) == basis(4, 4) * r4) by (nonlinear_arith);
    assert(r5 * basis(4, 5) == basis(4, 5) * r5) by (nonlinear_arith);
    assert(r6 * basis(4, 6) == basis(4, 6) * r6) by (nonlinear_arith);
    assert(r7 * basis(4, 7) == basis(4, 7) * r7) by (nonlinear_arith);
    assert(a4 == b4);
    assert(a4 * basis(4, y) == basis(4, y) * b4) by (nonlinear_arith)
        requires
            a4 == b4,
    ;
    let a5 = r0 * basis(5, 0) + r1 * basis(5, 1) + r2 * basis(5, 2) + r3 * basis(5, 3) + r4
        * basis(5, 4) + r5 * basis(5, 5) + r6 * basis(5, 6) + r7 * basis(5, 7);
    let b5 = basis(5, 0) * r0 + basis(5, 1) * r1 + basis(5, 2) * r2 + basis(5, 3) * r3 + basis(5,
        4) * r4 + basis(5, 5) * r5 + basis(5, 6) * r6 + basis(5, 7) * r7;
    assert(r0 * basis(5, 0) == basis(5, 0) * r0) by (nonlinear_arith);
    assert(r1 * basis(5, 1) == basis(5, 1) * r1) by (nonlinear_arith);
    assert(r2 * basis(5, 2) == basis(5, 2) * r2) by (nonlinear_arith);
    assert(r3 * basis(5, 3) == basis(5, 3) * r3) by (nonlinear_arith);
    assert(r4 * basis(5, 4) == basis(5, 4) * r4) by (nonlinear_arith);
    assert(r5 * basis(5, 5) == basis(5, 5) * r5) by (nonlinear_arith);
    assert(r6 * basis(5, 6) == basis(5, 6) * r6) by (nonlinear_arith);
    assert(r7 * basis(5, 7) == basis(5, 7) * r7) by (nonlinear_arith);
    assert(a5 == b5);
    assert(a5 * basis(5, y) == basis(5, y) * b5) by (nonlinear_arith)
        requires
            a5 == b5,
    ;
    let a6 = r0 * basis(6, 0) + r1 * basis(6, 1) + r2 * basis(6, 2) + r3 * basis(6, 3) + r4
        * basis(6, 4) + r5 * basis(6, 5) + r6 * basis(6, 6) + r7 * basis(6, 7);
    let b6 = basis(6, 0) * r0 + basis(6, 1) * r1 + basis(6, 2) * r2 + basis(6, 3) * r3 + basis(6,
        4) * r4 + basis(6, 5) * r5 + basis(6, 6) * r6 + basis(6, 7) * r7;
    assert(r0 * basis(6, 0) == basis(6, 0) * r0) by (nonlinear_arith);
    assert(r1 * basis(6, 1) == basis(6, 1) * r1) by (nonlinear_arith);
    assert(r2 * basis(6, 2) == basis(6, 2) * r2) by (nonlinear_arith);
    assert(r3 * basis(6, 3) == basis(6, 3) * r3) by (nonlinear_arith);
    assert(r4 * basis(6, 4) == basis(6, 4) * r4) by (nonlinear_arith);
    assert(r5 * basis(6, 5) == basis(6, 5) * r5) by (nonlinear_arith);
    assert(r6 * basis(6, 6) == basis(6, 6) * r6) by (nonlinear_arith);
    assert(r7 * basis(6, 7) == basis(6, 7) * r7) by (nonlinear_arith);
    assert(a6 == b6);
    assert(a6 * basis(6, y) == basis(6, y) * b6) by (nonlinear_arith)
        requires
            a6 == b6,
    ;
    let a7 = r0 * basis(7, 0) + r1 * basis(7, 1) + r2 * basis(7, 2) + r3 * basis(7, 3) + r4
        * basis(7, 4) + r5 * basis(7, 5) + r6 * basis(7, 6) + r7 * basis(7, 7);
    let b7 = basis(7, 0) * r0 + basis(7, 1) * r1 + basis(7, 2) * r2 + basis(7, 3) * r3 + basis(7,
        4) * r4 + basis(7, 5) * r5 + basis(7, 6) * r6 + basis(7, 7) * r7;
    assert(r0 * basis(7, 0) == basis(7, 0) * r0) by (nonlinear_arith);
    assert(r1 * basis(7, 1) == basis(7, 1) * r1) by (nonlinear_arith);
    assert(r2 * basis(7, 2) == basis(7, 2) * r2) by (nonlinear_arith);
    assert(r3 * basis(7, 3) == basis(7, 3) * r3) by (nonlinear_arith);
    assert(r4 * basis(7, 4) == basis(7, 4) * r4) by (nonlinear_arith);
    assert(r5 * basis(7, 5) == basis(7, 5) * r5) by (nonlinear_arith);
    assert(r6 * basis(7, 6) == basis(7, 6) * r6) by (nonlinear_arith);
    assert(r7 * basis(7, 7) == basis(7, 7) * r7) by (nonlinear_arith);
    assert(a7 == b7);
    assert(a7 * basis(7, y) == basis(7, y) * b7) by (nonlinear_arith)
        requires
            a7 == b7,
    ;
}

/// A number within half of `2^64` of a multiple of `2^64`, divided by `2^64`
/// and rounded, is the multiplier.
pub proof fn lemma_round_near(n: int, q: int)
    requires
        -0x8000_0000_0000_0000 < n - q * 0x1_0000_0000_0000_0000 < 0x8000_0000_0000_0000,
    ensures
        round_div(n, 0x1_0000_0000_0000_0000) == q,
{
    let d = 0x1_0000_0000_0000_0000int;
    if n >= 0 {
        let a = n / d;
        let r = n % d;
        assert(n == a * d + r && 0 <= r < d);
        if 2 * r < d {
            assert(a == q);
        } else {
            assert(a + 1 == q);
        }
    } else {
        let a = (-n) / d;
        let r = (-n) % d;
        assert(-n == a * d + r && 0 <= r < d);
        if 2 * r < d {
            assert(a == -q);
        } else {
            assert(a + 1 == -q);
        }
    }
}

/// Column `v` of the transform of a block, transformed back with column `x`
/// of the basis, is `2^32` times the transform of row `x` of the block with
/// row `v` of the basis, up to 551008 times `2^25`.
pub proof fn lemma_column_near(block: Seq<[i8; 8]>, cells: Seq<[i64; 8]>, x: int, v: int)
    requires
        block.len() == 8,
        cells.len() == 8,
        0 <= x < 8,
        0 <= v < 8,
        forall|u: int, w: int| 0 <= u < 8 && 0 <= w < 8 ==> cells[u]@[w] == dct_value(block, u, w),
    ensures
        -18488760467456 <= column_sum(cells, x, v, 8) - 0x1_0000_0000 * row_sum(block[x]@, v, 8)
            <= 18488760467456,
{
    reveal_with_fuel(dct_sum, 9);
    reveal_with_fuel(column_sum, 9);
    let r0 = row_sum(block[0]@, v, 8);
    lemma_row_sum_bound(block[0]@, v);
    let r1 = row_sum(block[1]@, v, 8);
    lemma_row_sum_bound(block[1]@, v);
    let r2 = row_sum(block[2]@, v, 8);
    lemma_row_sum_bound(block[2]@, v);
    let r3 = row_sum(block[3]@, v, 8);
    lemma_row_sum_bound(block[3]@, v);
    let r4 = row_sum(block[4]@, v, 8);
    lemma_row_sum_bound(block[4]@, v);
    let r5 = row_sum(block[5]@, v, 8);
    lemma_row_sum_bound(block[5]@, v);
    let r6 = row_sum(block[6]@, v, 8);
    lemma_row_sum_bound(block[6]@, v);
    let r7 = row_sum(block[7]@, v, 8);
    lemma_row_sum_bound(block[7]@, v);
    assert(cells[0]@[v] == dct_value(block, 0, v));
    assert(cells[1]@[v] == dct_value(block, 1, v));
    assert(cells[2]@[v] == dct_value(block, 2, v));
    assert(cells[3]@[v] == dct_value(block, 3, v));
    assert(cells[4]@[v] == dct_value(block, 4, v));
    assert(cells[5]@[v] == dct_value(block, 5, v));
    assert(cells[6]@[v] == dct_value(block, 6, v));
    assert(cells[7]@[v] == dct_value(block, 7, v));
    assert(column_sum(cells, x, v, 8) == there_and_back(x, r0, r1, r2, r3, r4, r5, r6, r7));
    lemma_there_and_back(x, r0, r1, r2, r3, r4, r5, r6, r7, 0x200_0000);
    assert(entry(x, r0, r1, r2, r3, r4, r5, r6, r7) == row_sum(block[x]@, v, 8));
}

/// The transform of a row of samples with every row of the basis, transformed
/// back with column `y` of the basis, is `2^32` times sample `y` of the row, up
/// to 551008 times 128.
pub proof fn lemma_row_near(row: Seq<i8>, y: int)
    requires
        row.len() == 8,
        0 <= y < 8,
    ensures
        -70529024 <= with_column(
            y,
            row_sum(row, 0, 8),
            row_sum(row, 1, 8),
            row_sum(row, 2, 8),
            row_sum(row, 3, 8),
            row_sum(row, 4, 8),
            row_sum(row, 5, 8),
            row_sum(row, 6, 8),
            row_sum(row, 7, 8),
        ) - 0x1_0000_0000 * row[y] <= 70529024,
{
    reveal_with_fuel(row_sum, 9);
    assert(with_column(y, row_sum(row, 0, 8), row_sum(row, 1, 8), row_sum(row, 2, 8), row_sum(row,
        3, 8), row_sum(row, 4, 8), row_sum(row, 5, 8), row_sum(row, 6, 8), row_sum(row, 7, 8))
        == row_there_and_back(y, row[0] as int, row[1] as int, row[2] as int, row[3] as int,
        row[4] as int, row[5] as int, row[6] as int, row[7] as int));
    lemma_row_there_and_back(y, row[0] as int, row[1] as int, row[2] as int, row[3] as int,
        row[4] as int, row[5] as int, row[6] as int, row[7] as int);
    lemma_there_and_back(y, row[0] as int, row[1] as int, row[2] as int, row[3] as int,
        row[4] as int, row[5] as int, row[6] as int, row[7] as int, 128);
    assert(entry(y, row[0] as int, row[1] as int, row[2] as int, row[3] as int, row[4] as int,
        row[5] as int, row[6] as int, row[7] as int) == row[y]);
}

/// The sum that the inverse transform of the transform of a block has in row
/// `x` and column `y` is the sample of the block times `2^64`, up to less than
/// half of `2^64`.
pub proof fn lemma_idct_sum_near(block: Seq<[i8; 8]>, cells: Seq<[i64; 8]>, x: int, y: int)
    requires
        block.len() == 8,
        cells.len() == 8,
        0 <= x < 8,
        0 <= y < 8,
        forall|u: int, v: int| 0 <= u < 8 && 0 <= v < 8 ==> cells[u]@[v] == dct_value(block, u, v),
    ensures
        -0x8000_0000_0000_0000 < idct_sum(cells, x, y, 8) - block[x]@[y] * 0x1_0000_0000_0000_0000
            < 0x8000_0000_0000_0000,
{
    reveal_with_fuel(idct_sum, 9);
    let c0 = column_sum(cells, x, 0, 8);
    let e0 = row_sum(block[x]@, 0, 8);
    lemma_column_near(block, cells, x, 0);
    let c1 = column_sum(cells, x, 1, 8);
    let e1 = row_sum(block[x]@, 1, 8);
    lemma_column_near(block, cells, x, 1);
    let c2 = column_sum(cells, x, 2, 8);
    let e2 = row_sum(block[x]@, 2, 8);
    lemma_column_near(block, cells, x, 2);
    let c3 = column_sum(cells, x, 3, 8);
    let e3 = row_sum(block[x]@, 3, 8);
    lemma_column_near(block, cells, x, 3);
    let c4 = column_sum(cells, x, 4, 8);
    let e4 = row_sum(block[x]@, 4, 8);
    lemma_column_near(block, cells, x, 4);
    let c5 = column_sum(cells, x, 5, 8);
    let e5 = row_sum(block[x]@, 5, 8);
    lemma_column_near(block, cells, x, 5);
    let c6 = column_sum(cells, x, 6, 8);
    let e6 = row_sum(block[x]@, 6, 8);
    lemma_column_near(block, cells, x, 6);
    let c7 = column_sum(cells, x, 7, 8);
    let e7 = row_sum(block[x]@, 7, 8);
    lemma_column_near(block, cells, x, 7);
    assert(idct_sum(cells, x, y, 8) == with_column(y, c0, c1, c2, c3, c4, c5, c6, c7));
    lemma_with_column_near(y, c0, c1, c2, c3, c4, c5, c6, c7, e0, e1, e2, e3, e4, e5, e6, e7,
        18488760467456);
    lemma_row_near(block[x]@, y);
}

/// The inverse transform of the transform of a block of samples is the
/// block.
pub proof fn lemma_dct_round_trip(block: Du, transformed: DctDu, back: Du)
    requires
        is_dct_of(transformed, block),
        is_idct_of(back, transformed),
    ensures
        forall|x: int, y: int| 0 <= x < 8 && 0 <= y < 8 ==> back.0@[x]@[y] == block.0@[x]@[y],
{
    assert forall|x: int, y: int| 0 <= x < 8 && 0 <= y < 8 implies back.0@[x]@[y]
        == block.0@[x]@[y] by {
        lemma_idct_sum_near(block.0@, transformed.0@, x, y);
        lemma_round_near(idct_sum(transformed.0@, x, y, 8), block.0@[x]@[y] as int);
        assert(back.0@[x]@[y] == idct_value(transformed.0@, x, y));
    }
}

} // verus!
