use std::rc::Rc;

use jpeglab::bits::BitString;
use jpeglab::color::decode_step4;
use jpeglab::entropy::encode_du;
use jpeglab::entropy::DcEncoder;
use jpeglab::entropy_decode::entropy_decode_category;
use jpeglab::entropy_decode::AcDecoder;
use jpeglab::entropy_decode::DcDecoder;
use jpeglab::entropy_decode::DecodeZigzagMcuCollection;
use jpeglab::error::DecodeError;
use jpeglab::parser::Component;
use jpeglab::planes::decode_step3;
use jpeglab::planes::DecodedYuvImage;
use jpeglab::planes::YuvComponent;
use jpeglab::quant::QuantizationTable;
use jpeglab::tables::default_chroma_ac_huffman_table;
use jpeglab::tables::default_chroma_dc_huffman_table;
use jpeglab::tables::default_luminance_ac_huffman_table;
use jpeglab::tables::default_luminance_dc_huffman_table;
use jpeglab::zigzag::ZigzagDu;

fn bools(bits: &[u8]) -> Vec<bool> {
    bits.iter().map(|&b| b != 0).collect()
}

fn components(factors: [(u8, u8); 3]) -> Vec<Component> {
    let ones = Rc::new(QuantizationTable([[1; 8]; 8]));
    let dc = Rc::new(default_luminance_dc_huffman_table().to_cached());
    let ac = Rc::new(default_luminance_ac_huffman_table().to_cached());
    factors
        .iter()
        .map(|&(h, v)| Component {
            horizontal_sampling_factor: h,
            vertical_sampling_factor: v,
            quatization_table: ones.clone(),
            dc_huffman_table: dc.clone(),
            ac_huffman_table: ac.clone(),
        })
        .collect()
}

fn flat(sample: i16) -> ZigzagDu {
    let mut du = [0i16; 64];
    du[0] = 8 * sample;
    ZigzagDu(du)
}

#[test]
fn a_symbol_is_found_by_the_length_and_value_of_its_codeword() {
    let table = default_luminance_dc_huffman_table().to_cached();
    // 00 | 010 | 110 | 111111110 | 1110
    let scan = BitString::from_bools(&bools(&[
        0, 0, 0, 1, 0, 1, 1, 0, 1, 1, 1, 1, 1, 1, 1, 1, 0, 1, 1, 1, 0,
    ]));
    let mut offset = 0;
    let mut symbols = vec![];
    for _ in 0..5 {
        symbols.push(entropy_decode_category(&scan, &mut offset, &table).unwrap());
    }
    assert_eq!(symbols, [0, 1, 5, 11, 6]);
    assert_eq!(offset, 21);
    assert_eq!(
        entropy_decode_category(&scan, &mut offset, &table),
        Err(DecodeError::TruncatedInput)
    );
    assert_eq!(offset, 21);
    let ones = BitString::from_bools(&[true; 16]);
    let mut offset = 0;
    assert_eq!(
        entropy_decode_category(&ones, &mut offset, &table),
        Err(DecodeError::HuffmanDecodeFail)
    );
    assert_eq!(offset, 0);
    let short = BitString::from_bools(&[true; 15]);
    assert_eq!(
        entropy_decode_category(&short, &mut offset, &table),
        Err(DecodeError::TruncatedInput)
    );
}

#[test]
fn a_block_is_read_back_as_it_was_written() {
    let dc_table = default_chroma_dc_huffman_table().to_cached();
    let ac_table = default_chroma_ac_huffman_table().to_cached();
    let mut blocks = vec![];
    // Zeros only; a lone coefficient at the end; runs of more than sixteen
    // zeros; no zero at all.
    blocks.push([0i16; 64]);
    let mut last = [0i16; 64];
    last[0] = -7;
    last[63] = 1;
    blocks.push(last);
    let mut runs = [0i16; 64];
    runs[0] = 1023;
    runs[1] = -1023;
    runs[18] = 3;
    runs[51] = -2;
    runs[52] = 512;
    blocks.push(runs);
    let mut full = [0i16; 64];
    for (i, c) in full.iter_mut().enumerate() {
        *c = if i % 2 == 0 { 1 + i as i16 } else { -1 - 16 * i as i16 };
    }
    blocks.push(full);

    let mut encoder = DcEncoder::new(&dc_table);
    let mut scan: Vec<bool> = vec![];
    for block in &blocks {
        scan.extend(encode_du(&ZigzagDu(*block), &mut encoder, &ac_table).to_bools());
    }
    assert_eq!(encoder.pred, 1);
    scan.extend([true; 5]);
    let scan = BitString::from_bools(&scan);

    let mut dc_decoder = DcDecoder::new(&dc_table);
    let ac_decoder = AcDecoder::new(&ac_table);
    let mut offset = 0;
    for block in &blocks {
        let mut du = [77i16; 64];
        du[0] = dc_decoder.decode(&scan, &mut offset).unwrap();
        ac_decoder.decode(&scan, &mut offset, &mut du).unwrap();
        assert_eq!(du, *block);
    }
    assert_eq!(dc_decoder.sum, 1);
    assert_eq!(offset + 5, scan.to_bools().len());
}

#[test]
fn a_dc_coefficient_beyond_sixteen_bits_is_refused() {
    let table = default_luminance_dc_huffman_table().to_cached();
    // Category 11 (111111110) with the value 2047, twenty times.
    let mut bits = vec![];
    for _ in 0..20 {
        bits.extend(bools(&[1, 1, 1, 1, 1, 1, 1, 1, 0]));
        bits.extend([true; 11]);
    }
    let scan = BitString::from_bools(&bits);
    let mut decoder = DcDecoder::new(&table);
    let mut offset = 0;
    for k in 1..=16 {
        assert_eq!(decoder.decode(&scan, &mut offset), Ok(if k < 16 { 2047 * k } else { 32752 }));
    }
    assert_eq!(decoder.decode(&scan, &mut offset), Err(DecodeError::UnsupportedFeature));
}

#[test]
fn planes_are_put_together_mcu_by_mcu() {
    // 20 x 10 pixels with 4:2:2 sampling: two MCUs in a row, two rows.
    let mut dus = vec![];
    for mcu in 0..4 {
        dus.push(flat(10 * mcu));
        dus.push(flat(10 * mcu + 1));
        dus.push(flat(-10 * mcu - 2));
        dus.push(flat(-10 * mcu - 3));
    }
    let collection = DecodeZigzagMcuCollection {
        width: 20,
        height: 10,
        components: components([(2, 1), (1, 1), (1, 1)]),
        zigzag_dus: dus,
    };
    let image = decode_step3(&collection).unwrap();
    assert_eq!((image.width, image.height), (20, 10));
    assert_eq!((image.padded_width, image.padded_height), (32, 16));
    assert_eq!(image.y.values.len(), 32 * 16);
    assert_eq!(image.u.values.len(), 16 * 16);
    assert_eq!(image.v.values.len(), 16 * 16);
    assert_eq!(image.y.absolute_horizontal_sampling_factor, 1);
    assert_eq!(image.y.absolute_vertical_sampling_factor, 1);
    assert_eq!(image.u.absolute_horizontal_sampling_factor, 2);
    assert_eq!(image.v.absolute_vertical_sampling_factor, 1);
    for py in 0..16 {
        for px in 0..32 {
            let mcu = (py / 8) * 2 + px / 16;
            let block = (px / 8) % 2;
            assert_eq!(image.y.values[py * 32 + px] as usize, 128 + 10 * mcu + block);
        }
        for px in 0..16 {
            let mcu = (py / 8) * 2 + px / 8;
            assert_eq!(image.u.values[py * 16 + px] as usize, 128 - 10 * mcu - 2);
            assert_eq!(image.v.values[py * 16 + px] as usize, 128 - 10 * mcu - 3);
        }
    }
}

#[test]
fn planes_of_other_sampling_are_put_together() {
    // 4:2:0 sampling: an MCU of 16 x 16 pixels with four luminance blocks.
    let mut dus = vec![];
    for k in 0..4 {
        dus.push(flat(20 + k));
    }
    dus.push(flat(-5));
    dus.push(flat(7));
    let collection = DecodeZigzagMcuCollection {
        width: 9,
        height: 9,
        components: components([(2, 2), (1, 1), (1, 1)]),
        zigzag_dus: dus,
    };
    let image = decode_step3(&collection).unwrap();
    assert_eq!((image.padded_width, image.padded_height), (16, 16));
    assert_eq!(image.y.values.len(), 256);
    assert_eq!(image.u.values.len(), 64);
    assert_eq!(image.u.absolute_horizontal_sampling_factor, 2);
    assert_eq!(image.u.absolute_vertical_sampling_factor, 2);
    for py in 0..16 {
        for px in 0..16 {
            let block = (py / 8) * 2 + px / 8;
            assert_eq!(image.y.values[py * 16 + px] as usize, 128 + 20 + block);
        }
    }
    assert!(image.u.values.iter().all(|&u| u == 123));
    assert!(image.v.values.iter().all(|&v| v == 135));
    let raster = decode_step4(&image).unwrap();
    assert_eq!((raster.width, raster.height), (9, 9));
    assert_eq!(raster.data.len(), 9 * 9 * 3);
}

#[test]
fn planes_need_the_blocks_that_the_size_calls_for() {
    let mut collection = DecodeZigzagMcuCollection {
        width: 16,
        height: 8,
        components: components([(2, 1), (1, 1), (1, 1)]),
        zigzag_dus: vec![flat(0), flat(0), flat(0)],
    };
    assert_eq!(decode_step3(&collection).err(), Some(DecodeError::TruncatedInput));
    collection.zigzag_dus.push(flat(0));
    assert!(decode_step3(&collection).is_ok());
    collection.components = components([(2, 1), (1, 1), (3, 1)]);
    assert_eq!(decode_step3(&collection).err(), Some(DecodeError::UnsupportedFeature));
    collection.components = components([(2, 1), (1, 1), (1, 1)]);
    collection.components.pop();
    assert_eq!(decode_step3(&collection).err(), Some(DecodeError::UnsupportedFeature));
    collection.components = components([(2, 1), (1, 1), (1, 1)]);
    collection.width = 65536;
    assert_eq!(decode_step3(&collection).err(), Some(DecodeError::UnsupportedFeature));
}

#[test]
fn a_sample_of_a_smaller_plane_serves_the_pixels_it_covers() {
    let y: Vec<u8> = (0..32).map(|i| 100 + 2 * i as u8).collect();
    let u: Vec<u8> = vec![128, 138, 148, 158, 128, 138, 148, 158];
    let v: Vec<u8> = vec![128; 8];
    let image = DecodedYuvImage {
        width: 7,
        height: 3,
        padded_width: 8,
        padded_height: 4,
        y: YuvComponent {
            absolute_horizontal_sampling_factor: 1,
            absolute_vertical_sampling_factor: 1,
            values: y,
        },
        u: YuvComponent {
            absolute_horizontal_sampling_factor: 2,
            absolute_vertical_sampling_factor: 2,
            values: u,
        },
        v: YuvComponent {
            absolute_horizontal_sampling_factor: 2,
            absolute_vertical_sampling_factor: 2,
            values: v,
        },
    };
    let raster = decode_step4(&image).unwrap();
    assert_eq!((raster.width, raster.height), (7, 3));
    assert_eq!(raster.data.len(), 7 * 3 * 3);
    for py in 0..3usize {
        for px in 0..7usize {
            let luminance = 100 + 2 * (py * 8 + px) as i64;
            let blue = 128 + 10 * (px / 2) as i64;
            let at = (py * 7 + px) * 3;
            // With the red chrominance at rest the red is the luminance.
            assert_eq!(raster.data[at] as i64, luminance);
            let expected_blue = (1000000 * luminance + 1772000 * (blue - 128) + 500000) / 1000000;
            assert_eq!(raster.data[at + 2] as i64, expected_blue.min(255));
            let expected_green = (1000000 * luminance - 344136 * (blue - 128) + 500000) / 1000000;
            assert_eq!(raster.data[at + 1] as i64, expected_green);
        }
    }
}
