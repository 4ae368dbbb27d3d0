use jpeglab::blocks::Du;
use jpeglab::dct::dct;
use jpeglab::dct::DctDu;
use jpeglab::quant::luminance_quantization_table;
use jpeglab::quant::quantize_coefficient;
use jpeglab::quant::QuantizationTable;
use jpeglab::quant::QuantizedDu;

const DU_TABLE: [[i8; 8]; 8] = [
    [-76, -73, -67, -62, -58, -67, -64, -55],
    [-65, -69, -73, -38, -19, -43, -59, -56],
    [-66, -69, -60, -15, 16, -24, -62, -55],
    [-65, -70, -57, -6, 26, -22, -58, -59],
    [-61, -67, -60, -24, -2, -40, -60, -58],
    [-49, -63, -68, -58, -51, -60, -70, -53],
    [-43, -57, -64, -69, -73, -67, -63, -45],
    [-41, -49, -59, -60, -63, -52, -50, -34],
];

const QUANTIZED_DU_TABLE: [[i16; 8]; 8] = [
    [-26, -3, -6, 2, 2, -1, 0, 0],
    [0, -2, -4, 1, 1, 0, 0, 0],
    [-3, 1, 5, -1, -1, 0, 0, 0],
    [-3, 1, 2, -1, 0, 0, 0, 0],
    [1, 0, 0, 0, 0, 0, 0, 0],
    [0, 0, 0, 0, 0, 0, 0, 0],
    [0, 0, 0, 0, 0, 0, 0, 0],
    [0, 0, 0, 0, 0, 0, 0, 0],
];

const ONE: f64 = 4294967296.0;

#[test]
fn test_dct() {
    const DCT_DU_TABLE: [[i32; 8]; 8] = [
        [-415, -30, -61, 27, 56, -20, -2, 0],
        [4, -22, -61, 10, 13, -7, -9, 5],
        [-47, 7, 77, -25, -29, 10, 5, -6],
        [-49, 12, 34, -15, -10, 6, 2, 2],
        [12, -7, -13, -4, -2, 2, -3, 3],
        [-8, 3, 2, -6, -2, 1, 4, 2],
        [-1, 0, 0, -2, -1, -3, 4, -1],
        [0, 0, -1, -4, -1, 0, 1, 2],
    ];

    let dct_du = dct(&Du(DU_TABLE));
    let mut output = [[0i32; 8]; 8];
    for i in 0..8 {
        for j in 0..8 {
            output[i][j] = (dct_du.0[i][j] as f64 / ONE).round() as i32;
        }
    }

    assert_eq!(output, DCT_DU_TABLE);
}

#[test]
fn encode_step4_test_quantize() {
    let dct_du = dct(&Du(DU_TABLE));
    let quantized_du = dct_du.quantize(&luminance_quantization_table());

    assert_eq!(quantized_du.0, QUANTIZED_DU_TABLE);
}

#[test]
fn decode_step3_test_quantize() {
    const DCT_DU_TABLE: [[f64; 8]; 8] = [
        [-416.0, -33.0, -60.0, 32.0, 48.0, -40.0, 0.0, 0.0],
        [0.0, -24.0, -56.0, 19.0, 26.0, 0.0, 0.0, 0.0],
        [-42.0, 13.0, 80.0, -24.0, -40.0, 0.0, 0.0, 0.0],
        [-42.0, 17.0, 44.0, -29.0, 0.0, 0.0, 0.0, 0.0],
        [18.0, 0.0, 0.0, 0.0, 0.0, 0.0, 0.0, 0.0],
        [0.0, 0.0, 0.0, 0.0, 0.0, 0.0, 0.0, 0.0],
        [0.0, 0.0, 0.0, 0.0, 0.0, 0.0, 0.0, 0.0],
        [0.0, 0.0, 0.0, 0.0, 0.0, 0.0, 0.0, 0.0],
    ];

    let quantized_du = QuantizedDu(QUANTIZED_DU_TABLE);
    let dct_du = quantized_du.to_dct_du(&luminance_quantization_table());
    let mut output = [[0f64; 8]; 8];
    for i in 0..8 {
        for j in 0..8 {
            output[i][j] = dct_du.0[i][j] as f64 / ONE;
        }
    }

    assert_eq!(output, DCT_DU_TABLE);
}

#[test]
fn test_idct() {
    let dct_du_table = dct(&Du(DU_TABLE));
    let idct = dct_du_table.idct();

    assert_eq!(idct.0, DU_TABLE);
}

#[test]
fn dct_of_a_flat_block_is_its_dc_alone() {
    let block = dct(&Du([[100; 8]; 8]));
    assert_eq!((block.0[0][0] as f64 / ONE).round() as i32, 800);
    assert_eq!(block.0[0][0], 100 * 64 * 23170i64 * 23170i64);
    for i in 0..8 {
        for j in 0..8 {
            if i != 0 || j != 0 {
                assert_eq!((block.0[i][j] as f64 / ONE).round() as i32, 0);
            }
        }
    }
}

#[test]
fn idct_gives_back_extreme_blocks() {
    let mut alternating = [[0i8; 8]; 8];
    for i in 0..8 {
        for j in 0..8 {
            alternating[i][j] = if (i + j) % 2 == 0 { -128 } else { 127 };
        }
    }
    for block in [[[-128i8; 8]; 8], [[127i8; 8]; 8], alternating] {
        assert_eq!(dct(&Du(block)).idct().0, block);
    }
}

#[test]
fn idct_keeps_samples_within_their_range() {
    let mut cells = [[0i64; 8]; 8];
    cells[0][0] = i64::MAX;
    assert_eq!(DctDu(cells).idct().0, [[127i8; 8]; 8]);
    cells[0][0] = i64::MIN;
    assert_eq!(DctDu(cells).idct().0, [[-128i8; 8]; 8]);
}

#[test]
fn quantization_rounds_ties_to_even() {
    let one: i64 = 1 << 32;
    assert_eq!(quantize_coefficient(5 * one, 10), 0);
    assert_eq!(quantize_coefficient(15 * one, 10), 2);
    assert_eq!(quantize_coefficient(25 * one, 10), 2);
    assert_eq!(quantize_coefficient(-5 * one, 10), 0);
    assert_eq!(quantize_coefficient(-15 * one, 10), -2);
    assert_eq!(quantize_coefficient(15 * one + 1, 10), 2);
    assert_eq!(quantize_coefficient(5 * one + 1, 10), 1);
    assert_eq!(quantize_coefficient(-5 * one - 1, 10), -1);
    assert_eq!(quantize_coefficient(-415 * one, 16), -26);
}

#[test]
fn quantization_keeps_within_sixteen_bits() {
    assert_eq!(quantize_coefficient(i64::MAX, 1), 32767);
    assert_eq!(quantize_coefficient(i64::MIN, 1), -32768);
    assert_eq!(quantize_coefficient(1, 0), 32767);
    assert_eq!(quantize_coefficient(-1, 0), -32768);
    assert_eq!(quantize_coefficient(0, 0), 0);
}

#[test]
fn quantization_grows_with_the_magnitude() {
    let one: i64 = 1 << 32;
    let mut last = 0;
    for k in 0..2000 {
        let q = quantize_coefficient(k * one / 7, 13);
        assert!(q >= last);
        assert_eq!(quantize_coefficient(-(k * one / 7), 13), -q);
        last = q;
    }
}

#[test]
fn dequantization_multiplies_exactly() {
    let mut cells = [[0i16; 8]; 8];
    cells[0][0] = -32768;
    cells[7][7] = 32767;
    let table = QuantizationTable([[65535; 8]; 8]);
    let d = QuantizedDu(cells).to_dct_du(&table);
    assert_eq!(d.0[0][0], -32768i64 * 65535 * (1i64 << 32));
    assert_eq!(d.0[7][7], 32767i64 * 65535 * (1i64 << 32));
    assert_eq!(d.0[3][3], 0);
}
