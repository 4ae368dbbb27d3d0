//! The discrete cosine transform of a block and its inverse, in fixed-point
//! arithmetic.
//!
//! The basis of the transform is held as integers: each entry is the
//! orthonormal basis value times 2^16, rounded. A transformed coefficient so
//! carries 32 fraction bits, and all sums are exact.

use crate::blocks::Du;
use crate::blocks::McuCollection;
use crate::error::EncodeError;
use crate::rounding::clamp;
use crate::rounding::round_div;
use crate::rounding::rounded_quotient;
use vstd::prelude::*;

verus! {

/// The basis of the transform, times 2^16: row `k` holds
/// `a(k) * cos((2n + 1) * k * pi / 16)` for `n` from 0 to 7, where `a(0)` is
/// the square root of 1/8 and every other `a(k)` the square root of 2/8.
pub const DCT_MATRIX: [[i16; 8]; 8] = [
    [23170, 23170, 23170, 23170, 23170, 23170, 23170, 23170],
    [32138, 27246, 18205, 6393, -6393, -18205, -27246, -32138],
    [30274, 12540, -12540, -30274, -30274, -12540, 12540, 30274],
    [27246, -6393, -32138, -18205, 18205, 32138, 6393, -27246],
    [23170, -23170, -23170, 23170, 23170, -23170, -23170, 23170],
    [18205, -32138, 6393, 27246, -27246, -6393, 32138, -18205],
    [12540, -30274, 30274, -12540, -12540, 30274, -30274, 12540],
    [6393, -18205, 27246, -32138, 32138, -27246, 18205, -6393],
];

/// A transformed block: 8×8 coefficients, each with 32 fraction bits.
#[derive(Debug)]
pub struct DctDu(pub [[i64; 8]; 8]);

/// The transformed blocks of one MCU of a 4:2:2 image.
#[derive(Debug)]
pub struct DctMcu {
    pub y0: DctDu,
    pub y1: DctDu,
    pub cb: DctDu,
    pub cr: DctDu,
}

/// The transformed MCUs of an image, row by row, with the image's own size.
#[derive(Debug)]
pub struct DctMcuCollection {
    pub original_width: usize,
    pub original_height: usize,
    pub dct_mcus: Vec<DctMcu>,
}

/// Entry `n` of row `k` of the basis.
pub open spec fn basis(k: int, n: int) -> int {
    DCT_MATRIX@[k]@[n] as int
}

/// The first `n` terms of the transform of a row of samples with row `v` of
/// the basis.
pub open spec fn row_sum(row: Seq<i8>, v: int, n: int) -> int
    decreases n,
{
    if n <= 0 {
        0
    } else {
        row_sum(row, v, n - 1) + row[n - 1] * basis(v, n - 1)
    }
}

/// The first `n` terms of the coefficient in row `u` and column `v` of the
/// transform of a block: the rows of the block, each transformed with row `v`
/// of the basis, are transformed with row `u` of the basis.
pub open spec fn dct_sum(block: Seq<[i8; 8]>, u: int, v: int, n: int) -> int
    decreases n,
{
    if n <= 0 {
        0
    } else {
        dct_sum(block, u, v, n - 1) + basis(u, n - 1) * row_sum(block[n - 1]@, v, 8)
    }
}

/// The coefficient in row `u` and column `v` of the transform of a block, with
/// 32 fraction bits.
pub open spec fn dct_value(block: Seq<[i8; 8]>, u: int, v: int) -> int {
    dct_sum(block, u, v, 8)
}

impl DctDu {
    /// Every coefficient lies between `-bound` and `bound`.
    pub open spec fn within(&self, bound: int) -> bool {
        forall|u: int, v: int|
            0 <= u < 8 && 0 <= v < 8 ==> -bound <= self.0@[u]@[v] && self.0@[u]@[v] <= bound
    }
}

/// `dct` holds the transform of `du`.
pub open spec fn is_dct_of(dct: DctDu, du: Du) -> bool {
    forall|u: int, v: int|
        0 <= u < 8 && 0 <= v < 8 ==> dct.0@[u]@[v] == dct_value(du.0@, u, v)
}

/// A product is bounded by the product of the bounds of its factors.
pub proof fn lemma_product_bound(a: int, b: int, bound_a: int, bound_b: int)
    requires
        -bound_a <= a <= bound_a,
        -bound_b <= b <= bound_b,
    ensures
        -(bound_a * bound_b) <= a * b <= bound_a * bound_b,
{
    assert(-(bound_a * bound_b) <= a * b <= bound_a * bound_b) by (nonlinear_arith)
        requires
            -bound_a <= a <= bound_a,
            -bound_b <= b <= bound_b,
    ;
}

/// The transform of a row of samples with row `v` of the basis.
fn transform_row(row: &[i8; 8], v: usize) -> (r: i64)
    requires
        v < 8,
    ensures
        r == row_sum(row@, v as int, 8),
        -0x200_0000 <= r <= 0x200_0000,
{
    let mut acc: i64 = 0;
    let mut y: usize = 0;
    while y < 8
        invariant
            y <= 8,
            v < 8,
            acc == row_sum(row@, v as int, y as int),
            -0x40_0000 * y <= acc <= 0x40_0000 * y,
        decreases 8 - y,
    {
        proof {
            lemma_product_bound(row@[y as int] as int, basis(v as int, y as int), 128, 32768);
        }
        acc = acc + (row[y] as i64) * (DCT_MATRIX[v][y] as i64);
        y += 1;
    }
    acc
}

/// The transform of a block.
pub fn dct(du: &Du) -> (r: DctDu)
    ensures
        is_dct_of(r, *du),
        r.within(0x800_0000_0000),
{
    let input = &du.0;
    let mut one = [[0i64;8];8];
    let mut x: usize = 0;
    while x < 8
        invariant
            x <= 8,
            input == &du.0,
            forall|a: int, b: int|
                0 <= a < x && 0 <= b < 8 ==> one@[a]@[b] == row_sum(input@[a]@, b, 8)
                    && -0x200_0000 <= one@[a]@[b] <= 0x200_0000,
        decreases 8 - x,
    {
        let mut line = [0i64;8];
        let mut v: usize = 0;
        while v < 8
            invariant
                v <= 8,
                x < 8,
                forall|b: int|
                    0 <= b < v ==> line@[b] == row_sum(input@[x as int]@, b, 8) && -0x200_0000
                        <= line@[b] <= 0x200_0000,
            decreases 8 - v,
        {
            line[v] = transform_row(&input[x], v);
            v += 1;
        }
        let ghost before = one;
        one[x] = line;
        assert forall|a: int, b: int| 0 <= a < x + 1 && 0 <= b < 8 implies one@[a]@[b] == row_sum(
            input@[a]@,
            b,
            8,
        ) && -0x200_0000 <= one@[a]@[b] <= 0x200_0000 by {
            if a < x {
                assert(one@[a] == before@[a]);
            }
        }
        x += 1;
    }
    let mut ret = [[0i64;8];8];
    let mut u: usize = 0;
    while u < 8
        invariant
            u <= 8,
            input == &du.0,
            forall|a: int, b: int|
                0 <= a < 8 && 0 <= b < 8 ==> one@[a]@[b] == row_sum(input@[a]@, b, 8)
                    && -0x200_0000 <= one@[a]@[b] <= 0x200_0000,
            forall|a: int, b: int|
                0 <= a < u && 0 <= b < 8 ==> ret@[a]@[b] == dct_value(input@, a, b)
                    && -0x800_0000_0000 <= ret@[a]@[b] <= 0x800_0000_0000,
        decreases 8 - u,
    {
        let mut line = [0i64;8];
        let mut v: usize = 0;
        while v < 8
            invariant
                v <= 8,
                u < 8,
                forall|a: int, b: int|
                    0 <= a < 8 && 0 <= b < 8 ==> one@[a]@[b] == row_sum(input@[a]@, b, 8)
                        && -0x200_0000 <= one@[a]@[b] <= 0x200_0000,
                forall|b: int|
                    0 <= b < v ==> line@[b] == dct_value(input@, u as int, b)
                        && -0x800_0000_0000 <= line@[b] <= 0x800_0000_0000,
            decreases 8 - v,
        {
            let mut acc: i64 = 0;
            let mut x: usize = 0;
            while x < 8
                invariant
                    x <= 8,
                    u < 8,
                    v < 8,
                    forall|a: int, b: int|
                        0 <= a < 8 && 0 <= b < 8 ==> one@[a]@[b] == row_sum(input@[a]@, b, 8)
                            && -0x200_0000 <= one@[a]@[b] <= 0x200_0000,
                    acc == dct_sum(input@, u as int, v as int, x as int),
                    -0x100_0000_0000 * x <= acc <= 0x100_0000_0000 * x,
                decreases 8 - x,
            {
                proof {
                    lemma_product_bound(
                        basis(u as int, x as int),
                        one@[x as int]@[v as int] as int,
                        32768,
                        0x200_0000,
                    );
                }
                acc = acc + (DCT_MATRIX[u][x] as i64) * one[x][v];
                x += 1;
            }
            line[v] = acc;
            v += 1;
        }
        let ghost before = ret;
        ret[u] = line;
        assert forall|a: int, b: int| 0 <= a < u + 1 && 0 <= b < 8 implies ret@[a]@[b] == dct_value(
            input@,
            a,
            b,
        ) && -0x800_0000_0000 <= ret@[a]@[b] <= 0x800_0000_0000 by {
            if a < u {
                assert(ret@[a] == before@[a]);
            }
        }
        u += 1;
    }
    assert forall|a: int, b: int| 0 <= a < 8 && 0 <= b < 8 implies -0x800_0000_0000 <= ret@[a]@[b]
        && ret@[a]@[b] <= 0x800_0000_0000 by {
        assert(ret@[a]@[b] == dct_value(input@, a, b));
    }
    DctDu(ret)
}

/// The first `n` terms of the inverse transform of column `y` of a block of
/// coefficients with column `x` of the basis.
pub open spec fn column_sum(cells: Seq<[i64; 8]>, x: int, y: int, n: int) -> int
    decreases n,
{
    if n <= 0 {
        0
    } else {
        column_sum(cells, x, y, n - 1) + basis(n - 1, x) * cells[n - 1]@[y]
    }
}

/// The first `n` terms of the sample in row `x` and column `y` of the inverse
/// transform of a block of coefficients: the columns of the block, each
/// transformed with column `x` of the basis, are transformed with column `y` of
/// the basis.
pub open spec fn idct_sum(cells: Seq<[i64; 8]>, x: int, y: int, n: int) -> int
    decreases n,
{
    if n <= 0 {
        0
    } else {
        idct_sum(cells, x, y, n - 1) + column_sum(cells, x, n - 1, 8) * basis(n - 1, y)
    }
}

/// The sample in row `x` and column `y` of the inverse transform of a block
/// of coefficients: the sum, which has 64 fraction bits, rounded to the nearest
/// integer with ties to the even one, and kept within the range of a sample.
pub open spec fn idct_value(cells: Seq<[i64; 8]>, x: int, y: int) -> int {
    clamp(round_div(idct_sum(cells, x, y, 8), 0x1_0000_0000_0000_0000), -128, 127)
}

/// `du` holds the inverse transform of `dct`.
pub open spec fn is_idct_of(du: Du, dct: DctDu) -> bool {
    forall|x: int, y: int| 0 <= x < 8 && 0 <= y < 8 ==> du.0@[x]@[y] == idct_value(dct.0@, x, y)
}

/// The cell in row `a` and column `b` of `one` holds the inverse transform of
/// column `b` of the coefficients with column `a` of the basis.
pub open spec fn column_done(one: Seq<[i128; 8]>, cells: Seq<[i64; 8]>, a: int, b: int) -> bool {
    one[a]@[b] == column_sum(cells, a, b, 8) && -0x2_0000_0000_0000_0000_0000 <= one[a]@[b]
        && one[a]@[b] <= 0x2_0000_0000_0000_0000_0000
}

/// The first `n` rows of `one` are done.
pub open spec fn columns_done(one: Seq<[i128; 8]>, cells: Seq<[i64; 8]>, n: int) -> bool {
    forall|a: int, b: int| 0 <= a < n && 0 <= b < 8 ==> #[trigger] column_done(one, cells, a, b)
}

/// A sum with 64 fraction bits as a sample.
fn round_sample(sum: i128) -> (r: i8)
    ensures
        r == clamp(round_div(sum as int, 0x1_0000_0000_0000_0000), -128, 127),
{
    if sum >= 0 {
        let rounded = rounded_quotient(sum as u128, 0x1_0000_0000_0000_0000u128);
        if rounded > 127 {
            127
        } else {
            rounded as i8
        }
    } else {
        let magnitude: u128 = if sum == i128::MIN {
            0x8000_0000_0000_0000_0000_0000_0000_0000u128
        } else {
            (-sum) as u128
        };
        let rounded = rounded_quotient(magnitude, 0x1_0000_0000_0000_0000u128);
        if rounded > 128 {
            -128
        } else {
            (-(rounded as i16)) as i8
        }
    }
}

impl DctDu {
    /// The inverse transform of the block, as samples.
    pub fn idct(&self) -> (r: Du)
        ensures
            is_idct_of(r, *self),
    {
        let input = &self.0;
        let mut one = [[0i128;8];8];
        let mut x: usize = 0;
        while x < 8
            invariant
                x <= 8,
                input == &self.0,
                columns_done(one@, input@, x as int),
            decreases 8 - x,
        {
            let mut line = [0i128;8];
            let mut y: usize = 0;
            while y < 8
                invariant
                    y <= 8,
                    x < 8,
                    forall|b: int|
                        0 <= b < y ==> line@[b] == column_sum(input@, x as int, b, 8)
                            && -0x2_0000_0000_0000_0000_0000 <= #[trigger] line@[b] && line@[b]
                            <= 0x2_0000_0000_0000_0000_0000,
                decreases 8 - y,
            {
                let mut acc: i128 = 0;
                let mut u: usize = 0;
                while u < 8
                    invariant
                        u <= 8,
                        x < 8,
                        y < 8,
                        acc == column_sum(input@, x as int, y as int, u as int),
                        -0x4000_0000_0000_0000_0000 * u <= acc <= 0x4000_0000_0000_0000_0000 * u,
                    decreases 8 - u,
                {
                    proof {
                        lemma_product_bound(
                            basis(u as int, x as int),
                            input@[u as int]@[y as int] as int,
                            32768,
                            0x8000_0000_0000_0000,
                        );
                    }
                    acc = acc + (DCT_MATRIX[u][x] as i128) * (input[u][y] as i128);
                    u += 1;
                }
                line[y] = acc;
                y += 1;
            }
            let ghost before = one;
            one[x] = line;
            assert forall|a: int, b: int| 0 <= a < x + 1 && 0 <= b < 8 implies column_done(
                one@,
                input@,
                a,
                b,
            ) by {
                if a < x {
                    assert(one@[a] == before@[a]);
                    assert(column_done(before@, input@, a, b));
                }
            }
            x += 1;
        }
        let mut ret = [[0i8;8];8];
        let mut x: usize = 0;
        while x < 8
            invariant
                x <= 8,
                input == &self.0,
                columns_done(one@, input@, 8),
                forall|a: int, b: int|
                    0 <= a < x && 0 <= b < 8 ==> ret@[a]@[b] == idct_value(input@, a, b),
            decreases 8 - x,
        {
            let mut line = [0i8;8];
            let mut y: usize = 0;
            while y < 8
                invariant
                    y <= 8,
                    x < 8,
                    columns_done(one@, input@, 8),
                    forall|b: int| 0 <= b < y ==> line@[b] == idct_value(input@, x as int, b),
                decreases 8 - y,
            {
                let mut acc: i128 = 0;
                let mut v: usize = 0;
                while v < 8
                    invariant
                        v <= 8,
                        x < 8,
                        y < 8,
                        columns_done(one@, input@, 8),
                        acc == idct_sum(input@, x as int, y as int, v as int),
                        -0x1_0000_0000_0000_0000_0000_0000 * v <= acc
                            <= 0x1_0000_0000_0000_0000_0000_0000 * v,
                    decreases 8 - v,
                {
                    proof {
                        assert(column_done(one@, input@, x as int, v as int));
                        lemma_product_bound(
                            one@[x as int]@[v as int] as int,
                            basis(v as int, y as int),
                            0x2_0000_0000_0000_0000_0000,
                            32768,
                        );
                    }
                    acc = acc + one[x][v] * (DCT_MATRIX[v][y] as i128);
                    v += 1;
                }
                line[y] = round_sample(acc);
                y += 1;
            }
            let ghost before = ret;
            ret[x] = line;
            assert forall|a: int, b: int| 0 <= a < x + 1 && 0 <= b < 8 implies ret@[a]@[b]
                == idct_value(input@, a, b) by {
                if a < x {
                    assert(ret@[a] == before@[a]);
                }
            }
            x += 1;
        }
        Du(ret)
    }
}

/// `d` holds the transforms of the four blocks of `mcu`.
pub open spec fn is_dct_mcu_of(d: DctMcu, mcu: crate::blocks::Mcu) -> bool {
    &&& is_dct_of(d.y0, mcu.y0) && d.y0.within(0x800_0000_0000)
    &&& is_dct_of(d.y1, mcu.y1) && d.y1.within(0x800_0000_0000)
    &&& is_dct_of(d.cb, mcu.cb) && d.cb.within(0x800_0000_0000)
    &&& is_dct_of(d.cr, mcu.cr) && d.cr.within(0x800_0000_0000)
}

/// Transforms every block of every MCU. It never fails.
pub fn encode_step3(yuv_image: &McuCollection) -> (r: Result<DctMcuCollection, EncodeError>)
    ensures
        r is Ok,
        r->Ok_0.original_width == yuv_image.original_width,
        r->Ok_0.original_height == yuv_image.original_height,
        r->Ok_0.dct_mcus@.len() == yuv_image.mcus@.len(),
        forall|i: int|
            0 <= i < yuv_image.mcus@.len() ==> is_dct_mcu_of(
                #[trigger] r->Ok_0.dct_mcus@[i],
                yuv_image.mcus@[i],
            ),
{
    let mut dct_mcus: Vec<DctMcu> = Vec::new();
    let n = yuv_image.mcus.len();
    let mut i: usize = 0;
    while i < n
        invariant
            i <= n,
            n == yuv_image.mcus@.len(),
            dct_mcus@.len() == i,
            forall|k: int|
                0 <= k < i ==> is_dct_mcu_of(#[trigger] dct_mcus@[k], yuv_image.mcus@[k]),
        decreases n - i,
    {
        let mcu = &yuv_image.mcus[i];
        dct_mcus.push(
            DctMcu { y0: dct(&mcu.y0), y1: dct(&mcu.y1), cb: dct(&mcu.cb), cr: dct(&mcu.cr) },
        );
        i += 1;
    }
    Ok(
        DctMcuCollection {
            original_width: yuv_image.original_width,
            original_height: yuv_image.original_height,
            dct_mcus,
        },
    )
}

} // verus!
