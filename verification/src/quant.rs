//! Quantized blocks and the tables that quantize them.

use crate::dct::DctDu;
use crate::dct::DctMcuCollection;
use crate::error::EncodeError;
use crate::rounding::clamp;
use crate::rounding::lemma_round_div_monotone;
use crate::rounding::round_div;
use crate::rounding::rounded_quotient;
use vstd::prelude::*;

verus! {

/// A block after quantization: 8×8 signed 16-bit coefficients, row by row.
#[derive(Debug)]
pub struct QuantizedDu(pub [[i16; 8]; 8]);

/// A quantization table: 8×8 unsigned 16-bit divisors, row by row.
#[derive(Debug)]
pub struct QuantizationTable(pub [[u16; 8]; 8]);

/// The divisors for the luminance component.
pub const LUMINANCE_QUANTIZATION_CELLS: [[u16; 8]; 8] = [
        [16, 11, 10, 16, 24, 40, 51, 61],
        [12, 12, 14, 19, 26, 58, 60, 55],
        [14, 13, 16, 24, 40, 57, 69, 56],
        [14, 17, 22, 29, 51, 87, 80, 62],
        [18, 22, 37, 56, 68, 109, 103, 77],
        [24, 35, 55, 64, 81, 104, 113, 92],
        [49, 64, 78, 87, 103, 121, 120, 101],
        [72, 92, 95, 98, 112, 100, 103, 99],
];

/// The divisors for the two chrominance components.
pub const CHROMINANCE_QUANTIZATION_CELLS: [[u16; 8]; 8] = [
        [17, 18, 24, 47, 99, 99, 99, 99],
        [18, 21, 26, 66, 99, 99, 99, 99],
        [24, 26, 56, 99, 99, 99, 99, 99],
        [47, 66, 99, 99, 99, 99, 99, 99],
        [99, 99, 99, 99, 99, 99, 99, 99],
        [99, 99, 99, 99, 99, 99, 99, 99],
        [99, 99, 99, 99, 99, 99, 99, 99],
        [99, 99, 99, 99, 99, 99, 99, 99],
];

/// The table for the luminance component.
pub fn luminance_quantization_table() -> (t: QuantizationTable)
    ensures
        t.0 == LUMINANCE_QUANTIZATION_CELLS,
{
    QuantizationTable(LUMINANCE_QUANTIZATION_CELLS)
}

/// The table for the two chrominance components.
pub fn chrominance_quantization_table() -> (t: QuantizationTable)
    ensures
        t.0 == CHROMINANCE_QUANTIZATION_CELLS,
{
    QuantizationTable(CHROMINANCE_QUANTIZATION_CELLS)
}

/// The quantized blocks of one MCU of a 4:2:2 image.
#[derive(Debug)]
pub struct QuantizedMcu {
    pub y0: QuantizedDu,
    pub y1: QuantizedDu,
    pub cb: QuantizedDu,
    pub cr: QuantizedDu,
}

/// The quantized MCUs of an image, row by row, with the image's own size.
#[derive(Debug)]
pub struct QuantizedMcuCollection {
    pub original_width: usize,
    pub original_height: usize,
    pub quantized_mcus: Vec<QuantizedMcu>,
}

/// The quantized value of a coefficient with 32 fraction bits: the
/// coefficient divided by the table's entry, rounded to the nearest integer
/// with ties to the even one, and kept within 16 bits. Division by an entry of
/// zero gives the end of the range on the coefficient's side.
pub open spec fn quantized(coefficient: int, entry: int) -> int {
    if entry == 0 {
        if coefficient > 0 {
            32767
        } else if coefficient < 0 {
            -32768
        } else {
            0
        }
    } else {
        clamp(round_div(coefficient, entry * 0x1_0000_0000), -32768, 32767)
    }
}

/// `q` holds the block `dct`, quantized with `table`.
pub open spec fn is_quantized_of(q: QuantizedDu, dct: DctDu, table: QuantizationTable) -> bool {
    forall|i: int, j: int|
        0 <= i < 8 && 0 <= j < 8 ==> q.0@[i]@[j] == quantized(
            dct.0@[i]@[j] as int,
            table.0@[i]@[j] as int,
        )
}

/// Quantizes one coefficient.
pub fn quantize_coefficient(coefficient: i64, entry: u16) -> (r: i16)
    ensures
        r == quantized(coefficient as int, entry as int),
{
    if entry == 0 {
        return if coefficient > 0 {
            32767
        } else if coefficient < 0 {
            -32768
        } else {
            0
        };
    }
    let d = (entry as u128) * 0x1_0000_0000u128;
    if coefficient >= 0 {
        let rounded = rounded_quotient(coefficient as u128, d);
        if rounded > 32767 {
            32767
        } else {
            rounded as i16
        }
    } else {
        let rounded = rounded_quotient((-(coefficient as i128)) as u128, d);
        if rounded > 32768 {
            -32768
        } else {
            (-(rounded as i32)) as i16
        }
    }
}

impl DctDu {
    /// The block quantized with `table`.
    pub fn quantize(&self, table: &QuantizationTable) -> (r: QuantizedDu)
        ensures
            is_quantized_of(r, *self, *table),
    {
        let mut ret = [[0i16;8];8];
        let mut i: usize = 0;
        while i < 8
            invariant
                i <= 8,
                forall|a: int, b: int|
                    0 <= a < i && 0 <= b < 8 ==> ret@[a]@[b] == quantized(
                        self.0@[a]@[b] as int,
                        table.0@[a]@[b] as int,
                    ),
            decreases 8 - i,
        {
            let mut line = [0i16;8];
            let mut j: usize = 0;
            while j < 8
                invariant
                    j <= 8,
                    i < 8,
                    forall|b: int|
                        0 <= b < j ==> line@[b] == quantized(
                            self.0@[i as int]@[b] as int,
                            table.0@[i as int]@[b] as int,
                        ),
                decreases 8 - j,
            {
                line[j] = quantize_coefficient(self.0[i][j], table.0[i][j]);
                j += 1;
            }
            let ghost before = ret;
            ret[i] = line;
            assert forall|a: int, b: int| 0 <= a < i + 1 && 0 <= b < 8 implies ret@[a]@[b]
                == quantized(self.0@[a]@[b] as int, table.0@[a]@[b] as int) by {
                if a < i {
                    assert(ret@[a] == before@[a]);
                }
            }
            i += 1;
        }
        QuantizedDu(ret)
    }
}

/// The coefficient that a quantized value stands for, with 32 fraction bits:
/// the value times the table's entry.
pub open spec fn dequantized(value: int, entry: int) -> int {
    value * entry * 0x1_0000_0000
}

/// `dct` holds the coefficients that the block `q` stands for under `table`.
pub open spec fn is_dequantized_of(dct: DctDu, q: QuantizedDu, table: QuantizationTable) -> bool {
    forall|i: int, j: int|
        0 <= i < 8 && 0 <= j < 8 ==> dct.0@[i]@[j] == dequantized(
            q.0@[i]@[j] as int,
            table.0@[i]@[j] as int,
        )
}

impl QuantizedDu {
    /// The coefficients that the block stands for under `quantization_table`.
    pub fn to_dct_du(&self, quantization_table: &QuantizationTable) -> (r: DctDu)
        ensures
            is_dequantized_of(r, *self, *quantization_table),
    {
        let input = &self.0;
        let qt = &quantization_table.0;
        let mut ret = [[0i64;8];8];
        let mut x: usize = 0;
        while x < 8
            invariant
                x <= 8,
                input == &self.0,
                qt == &quantization_table.0,
                forall|a: int, b: int|
                    0 <= a < x && 0 <= b < 8 ==> ret@[a]@[b] == dequantized(
                        input@[a]@[b] as int,
                        qt@[a]@[b] as int,
                    ),
            decreases 8 - x,
        {
            let mut line = [0i64;8];
            let mut y: usize = 0;
            while y < 8
                invariant
                    y <= 8,
                    x < 8,
                    forall|b: int|
                        0 <= b < y ==> line@[b] == dequantized(
                            input@[x as int]@[b] as int,
                            qt@[x as int]@[b] as int,
                        ),
                decreases 8 - y,
            {
                let value = input[x][y] as i64;
                let entry = qt[x][y] as i64;
                proof {
                    crate::dct::lemma_product_bound(value as int, entry as int, 32768, 65535);
                }
                line[y] = value * entry * 0x1_0000_0000;
                y += 1;
            }
            let ghost before = ret;
            ret[x] = line;
            assert forall|a: int, b: int| 0 <= a < x + 1 && 0 <= b < 8 implies ret@[a]@[b]
                == dequantized(input@[a]@[b] as int, qt@[a]@[b] as int) by {
                if a < x {
                    assert(ret@[a] == before@[a]);
                }
            }
            x += 1;
        }
        DctDu(ret)
    }
}

/// Of two coefficients of one sign, the one of the larger magnitude has the
/// quantized value of the larger magnitude.
pub proof fn lemma_quantized_monotone(a: int, b: int, entry: int)
    requires
        entry >= 0,
        (0 <= a <= b) || (b <= a <= 0),
    ensures
        (0 <= quantized(a, entry) <= quantized(b, entry)) || (quantized(b, entry) <= quantized(
            a,
            entry,
        ) <= 0),
{
    if entry > 0 {
        lemma_round_div_monotone(a, b, entry * 0x1_0000_0000);
    }
}

/// `q` holds the four blocks of `dct`, the luminance blocks quantized with the
/// luminance table and the chrominance blocks with the chrominance table.
pub open spec fn is_quantized_mcu_of(q: QuantizedMcu, dct: crate::dct::DctMcu) -> bool {
    &&& is_quantized_of(q.y0, dct.y0, QuantizationTable(LUMINANCE_QUANTIZATION_CELLS))
    &&& is_quantized_of(q.y1, dct.y1, QuantizationTable(LUMINANCE_QUANTIZATION_CELLS))
    &&& is_quantized_of(q.cb, dct.cb, QuantizationTable(CHROMINANCE_QUANTIZATION_CELLS))
    &&& is_quantized_of(q.cr, dct.cr, QuantizationTable(CHROMINANCE_QUANTIZATION_CELLS))
}

/// Quantizes every block of every MCU with the table of its component. It
/// never fails.
pub fn encode_step4(dct_mcu_collection: &DctMcuCollection) -> (r: Result<
    QuantizedMcuCollection,
    EncodeError,
>)
    ensures
        r is Ok,
        r->Ok_0.original_width == dct_mcu_collection.original_width,
        r->Ok_0.original_height == dct_mcu_collection.original_height,
        r->Ok_0.quantized_mcus@.len() == dct_mcu_collection.dct_mcus@.len(),
        forall|i: int|
            0 <= i < dct_mcu_collection.dct_mcus@.len() ==> is_quantized_mcu_of(
                #[trigger] r->Ok_0.quantized_mcus@[i],
                dct_mcu_collection.dct_mcus@[i],
            ),
{
    let luminance = luminance_quantization_table();
    let chrominance = chrominance_quantization_table();
    let mut quantized_mcus: Vec<QuantizedMcu> = Vec::new();
    let n = dct_mcu_collection.dct_mcus.len();
    let mut i: usize = 0;
    while i < n
        invariant
            i <= n,
            n == dct_mcu_collection.dct_mcus@.len(),
            luminance.0 == LUMINANCE_QUANTIZATION_CELLS,
            chrominance.0 == CHROMINANCE_QUANTIZATION_CELLS,
            quantized_mcus@.len() == i,
            forall|k: int|
                0 <= k < i ==> is_quantized_mcu_of(
                    #[trigger] quantized_mcus@[k],
                    dct_mcu_collection.dct_mcus@[k],
                ),
        decreases n - i,
    {
        let mcu = &dct_mcu_collection.dct_mcus[i];
        quantized_mcus.push(
            QuantizedMcu {
                y0: mcu.y0.quantize(&luminance),
                y1: mcu.y1.quantize(&luminance),
                cb: mcu.cb.quantize(&chrominance),
                cr: mcu.cr.quantize(&chrominance),
            },
        );
        i += 1;
    }
    Ok(
        QuantizedMcuCollection {
            original_width: dct_mcu_collection.original_width,
            original_height: dct_mcu_collection.original_height,
            quantized_mcus,
        },
    )
}

} // verus!
