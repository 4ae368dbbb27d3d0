use jpeglab::quant::QuantizedDu;
use jpeglab::zigzag::ZigzagDu;

const DU_TABLE: [[i16; 8]; 8] = [
    [0, 1, 5, 6, 14, 15, 27, 28],
    [2, 4, 7, 13, 16, 26, 29, 42],
    [3, 8, 12, 17, 25, 30, 41, 43],
    [9, 11, 18, 24, 31, 40, 44, 53],
    [10, 19, 23, 32, 39, 45, 52, 54],
    [20, 22, 33, 38, 46, 51, 55, 60],
    [21, 34, 37, 47, 50, 56, 59, 61],
    [35, 36, 48, 49, 57, 58, 62, 63],
];

const ZIGZAG_DU_TABLE: [i16; 64] = [
    0, 1, 2, 3, 4, 5, 6, 7, //
    8, 9, 10, 11, 12, 13, 14, 15, //
    16, 17, 18, 19, 20, 21, 22, 23, //
    24, 25, 26, 27, 28, 29, 30, 31, //
    32, 33, 34, 35, 36, 37, 38, 39, //
    40, 41, 42, 43, 44, 45, 46, 47, //
    48, 49, 50, 51, 52, 53, 54, 55, //
    56, 57, 58, 59, 60, 61, 62, 63, //
];

#[test]
fn decode_step3_test_zigzag() {
    let zigzag_du = ZigzagDu(ZIGZAG_DU_TABLE);
    let quantized_du = zigzag_du.to_quantized_du();

    assert_eq!(quantized_du.0, DU_TABLE);
}

#[test]
fn encode_step5_test_zigzag() {
    let quantized_du = QuantizedDu(DU_TABLE);
    let zigzag_du = quantized_du.zigzag();

    assert_eq!(zigzag_du.0, ZIGZAG_DU_TABLE);
}

#[test]
fn zigzag_and_back_is_the_block() {
    let mut block = [[0i16; 8]; 8];
    let mut n = -300;
    for i in 0..8 {
        for j in 0..8 {
            block[i][j] = n;
            n += 11;
        }
    }
    let there = QuantizedDu(block).zigzag();
    assert_eq!(there.to_quantized_du().0, block);
    let back = ZigzagDu(there.0).to_quantized_du().zigzag();
    assert_eq!(back.0, there.0);
}

#[test]
fn zigzag_successor_walks_all_cells_once() {
    let mut seen = [[false; 8]; 8];
    let (mut r, mut c) = (0usize, 0usize);
    for k in 0..64 {
        assert!(!seen[r][c]);
        seen[r][c] = true;
        assert_eq!(DU_TABLE[r][c], k as i16);
        if k < 63 {
            let next = jpeglab::zigzag::zigzag_successor(r, c);
            r = next.0;
            c = next.1;
        }
    }
    assert_eq!((r, c), (7, 7));
}
