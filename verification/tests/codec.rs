use jpeglab::bits::BitString;
use jpeglab::codec::decode;
use jpeglab::codec::encode;
use jpeglab::color::Raster;
use jpeglab::entropy::JpegOutputData;
use jpeglab::entropy_decode::decode_step2;
use jpeglab::error::DecodeError;
use jpeglab::error::EncodeError;
use jpeglab::parser::decode_step1;
use jpeglab::planes::decode_step3;
use jpeglab::writer::encode_step7;

fn grey(width: usize, height: usize, value: u8) -> Raster {
    Raster { width, height, data: vec![value; width * height * 3] }
}

fn gradient(width: usize, height: usize) -> Raster {
    let mut data = Vec::new();
    for y in 0..height {
        for x in 0..width {
            data.push((40 + 3 * x + y) as u8);
            data.push((130 - 3 * x + 2 * y) as u8);
            data.push((60 + x + 3 * y) as u8);
        }
    }
    Raster { width, height, data }
}

fn place_of(bytes: &[u8], marker: u8) -> usize {
    (0..bytes.len() - 1).find(|&i| bytes[i] == 0xFF && bytes[i + 1] == marker).unwrap()
}

fn with_scan(bits: &[bool]) -> Vec<u8> {
    let data = JpegOutputData {
        original_width: 16,
        original_height: 8,
        scan: BitString::from_bools(bits),
    };
    encode_step7(&data).unwrap()
}

#[test]
fn a_grey_image_comes_back_grey() {
    let image = grey(16, 8, 100);
    let file = encode(&image).unwrap();
    assert_eq!(&file[..4], &[0xFF, 0xD8, 0xFF, 0xE0]);
    assert_eq!(&file[file.len() - 2..], &[0xFF, 0xD9]);
    let back = decode(&file).unwrap();
    assert_eq!(back.width, 16);
    assert_eq!(back.height, 8);
    assert_eq!(back.data.len(), 16 * 8 * 3);
    for &v in &back.data {
        assert!((v as i32 - 100).abs() <= 4);
    }
}

#[test]
fn the_file_has_its_segments_in_order() {
    let file = encode(&grey(16, 8, 100)).unwrap();
    let mut at = 2;
    let mut markers = vec![];
    while file[at + 1] != 0xDA {
        assert_eq!(file[at], 0xFF);
        markers.push(file[at + 1]);
        at += 2 + ((file[at + 2] as usize) << 8 | file[at + 3] as usize);
    }
    assert_eq!(markers, [0xE0, 0xDB, 0xDB, 0xC0, 0xC4, 0xC4, 0xC4, 0xC4]);
    let sof0 = place_of(&file, 0xC0);
    assert_eq!(&file[sof0 + 4..sof0 + 9], &[8, 0, 8, 0, 16]);
    let first = place_of(&file, 0xC4);
    assert_eq!(file[first + 4], 0x00);
    let second = first + 2 + 31;
    assert_eq!(&file[second..second + 5], &[0xFF, 0xC4, 0x00, 0xB5, 0x10]);
    let third = second + 2 + 181;
    assert_eq!(&file[third..third + 5], &[0xFF, 0xC4, 0x00, 0x1F, 0x01]);
    let fourth = third + 2 + 31;
    assert_eq!(&file[fourth..fourth + 5], &[0xFF, 0xC4, 0x00, 0xB5, 0x11]);
    assert_eq!(
        &file[at..at + 14],
        &[0xFF, 0xDA, 0x00, 0x0C, 0x03, 0x01, 0x00, 0x02, 0x11, 0x03, 0x11, 0x00, 0x3F, 0x00]
    );
    // One MCU of flat grey: the luminance DC is 8 * (100 - 128) / 16 = -14, of
    // category 4, then end of block; the second luminance block and both
    // chrominance blocks have a difference of 0.
    // 101 0001 1010 | 00 1010 | 00 00 | 00 00, filled up with ones.
    assert_eq!(
        &file[at + 14..file.len() - 2],
        &[0b1010_0011, 0b0100_0101, 0b0000_0000, 0b0111_1111]
    );
}

#[test]
fn an_image_keeps_its_size_and_nearly_its_colours() {
    for (width, height) in [(1, 1), (16, 8), (17, 9), (40, 30), (33, 40)] {
        let image = gradient(width, height);
        let file = encode(&image).unwrap();
        let back = decode(&file).unwrap();
        assert_eq!(back.width, width);
        assert_eq!(back.height, height);
        assert_eq!(back.data.len(), width * height * 3);
        let peak = image
            .data
            .iter()
            .zip(back.data.iter())
            .map(|(&a, &b)| (a as i32 - b as i32).abs())
            .max()
            .unwrap();
        assert!(peak <= 40, "peak difference {} at {}x{}", peak, width, height);
    }
}

#[test]
fn encoding_twice_gives_the_same_file() {
    let image = gradient(24, 24);
    assert_eq!(encode(&image).unwrap(), encode(&image).unwrap());
}

#[test]
fn the_encoder_refuses_images_without_pixels() {
    assert_eq!(encode(&grey(0, 8, 1)).err(), Some(EncodeError::EmptyImage));
    assert_eq!(encode(&grey(8, 0, 1)).err(), Some(EncodeError::EmptyImage));
    let short = Raster { width: 8, height: 8, data: vec![0; 8 * 8 * 3 - 1] };
    assert_eq!(encode(&short).err(), Some(EncodeError::InvalidDimensions));
    let data = JpegOutputData { original_width: 0, original_height: 1, scan: BitString::from_bools(&[]) };
    assert_eq!(encode_step7(&data).err(), Some(EncodeError::EmptyImage));
    let data = JpegOutputData { original_width: 1, original_height: 65536, scan: BitString::from_bools(&[]) };
    assert_eq!(encode_step7(&data).err(), Some(EncodeError::InvalidDimensions));
}

#[test]
fn a_file_that_ends_early_is_truncated() {
    let file = encode(&grey(16, 8, 100)).unwrap();
    assert_eq!(decode(&[]).err(), Some(DecodeError::TruncatedInput));
    assert_eq!(decode(&file[..1]).err(), Some(DecodeError::TruncatedInput));
    assert_eq!(decode(&file[..2]).err(), Some(DecodeError::TruncatedInput));
    assert_eq!(decode(&file[..30]).err(), Some(DecodeError::TruncatedInput));
    assert_eq!(decode(&file[..file.len() - 2]).err(), Some(DecodeError::TruncatedInput));
    assert_eq!(decode(&file[..file.len() - 1]).err(), Some(DecodeError::TruncatedInput));
    // A scan that ends before its last block.
    assert_eq!(decode(&with_scan(&[false, true])).err(), Some(DecodeError::TruncatedInput));
}

#[test]
fn a_file_must_start_with_the_start_of_image() {
    let mut file = encode(&grey(16, 8, 100)).unwrap();
    file[1] = 0xD9;
    assert_eq!(decode(&file).err(), Some(DecodeError::BadMarker));
    let mut file = encode(&grey(16, 8, 100)).unwrap();
    file[2] = 0x00;
    assert_eq!(decode(&file).err(), Some(DecodeError::BadMarker));
}

#[test]
fn segments_must_come_in_order() {
    let file = encode(&grey(16, 8, 100)).unwrap();
    let sof0 = place_of(&file, 0xC0);
    let sos = place_of(&file, 0xDA);
    // No frame header before the scan header.
    let mut no_frame = file[..sof0].to_vec();
    no_frame.extend(&file[sof0 + 19..]);
    assert_eq!(decode(&no_frame).err(), Some(DecodeError::BadMarker));
    // Two frame headers.
    let mut two_frames = file[..sof0 + 19].to_vec();
    two_frames.extend(&file[sof0..]);
    assert_eq!(decode(&two_frames).err(), Some(DecodeError::BadMarker));
    // A second start of image among the segments.
    let mut file2 = file.clone();
    file2[sos + 1] = 0xD8;
    assert_eq!(decode(&file2).err(), Some(DecodeError::BadMarker));
    // A restart marker in the scan.
    let mut restart = file[..file.len() - 2].to_vec();
    restart.extend([0xFF, 0xD0, 0xFF, 0xD9]);
    assert_eq!(decode(&restart).err(), Some(DecodeError::BadMarker));
}

#[test]
fn what_is_outside_the_profile_is_unsupported() {
    let file = encode(&grey(16, 8, 100)).unwrap();
    let sof0 = place_of(&file, 0xC0);
    let sos = place_of(&file, 0xDA);
    let mut progressive = file.clone();
    progressive[sof0 + 1] = 0xC2;
    assert_eq!(decode(&progressive).err(), Some(DecodeError::UnsupportedFeature));
    let mut restart_interval = file.clone();
    restart_interval[sof0 + 1] = 0xDD;
    assert_eq!(decode(&restart_interval).err(), Some(DecodeError::UnsupportedFeature));
    let mut twelve_bits = file.clone();
    twelve_bits[sof0 + 4] = 12;
    assert_eq!(decode(&twelve_bits).err(), Some(DecodeError::UnsupportedFeature));
    let mut four_components = file.clone();
    four_components[sof0 + 9] = 4;
    assert_eq!(decode(&four_components).err(), Some(DecodeError::UnsupportedFeature));
    let mut sampled_thrice = file.clone();
    sampled_thrice[sof0 + 11] = 0x31;
    assert_eq!(decode(&sampled_thrice).err(), Some(DecodeError::UnsupportedFeature));
    let mut partial_scan = file.clone();
    partial_scan[sos + 12] = 62;
    assert_eq!(decode(&partial_scan).err(), Some(DecodeError::UnsupportedFeature));
    let mut two_in_scan = file.clone();
    two_in_scan[sos + 4] = 2;
    assert_eq!(decode(&two_in_scan).err(), Some(DecodeError::UnsupportedFeature));
}

#[test]
fn a_length_must_agree_with_its_segment() {
    let file = encode(&grey(16, 8, 100)).unwrap();
    let mut short = file.clone();
    short[5] = 1;
    assert_eq!(decode(&short).err(), Some(DecodeError::BadLength));
    // A JFIF segment of fewer than fourteen bytes.
    let mut jfif = vec![0xFF, 0xD8, 0xFF, 0xE0, 0x00, 0x0F];
    jfif.extend(&file[6..19]);
    jfif.extend(&file[20..]);
    assert_eq!(decode(&jfif).err(), Some(DecodeError::BadLength));
    // A quantization table with an entry too few.
    let dqt = place_of(&file, 0xDB);
    let mut table = file[..dqt + 2].to_vec();
    table.extend([0x00, 0x82]);
    table.extend(&file[dqt + 4..dqt + 132]);
    table.extend(&file[dqt + 133..]);
    assert_eq!(decode(&table).err(), Some(DecodeError::BadLength));
    // A Huffman table with a symbol too many.
    let dht = place_of(&file, 0xC4);
    let mut symbols = file[..dht + 2].to_vec();
    symbols.extend([0x00, 0x20]);
    symbols.extend(&file[dht + 4..dht + 33]);
    symbols.push(12);
    symbols.extend(&file[dht + 33..]);
    assert_eq!(decode(&symbols).err(), Some(DecodeError::BadLength));
    // A frame header with a byte too many.
    let sof0 = place_of(&file, 0xC0);
    let mut frame = file[..sof0 + 2].to_vec();
    frame.extend([0x00, 0x12]);
    frame.extend(&file[sof0 + 4..sof0 + 19]);
    frame.push(0);
    frame.extend(&file[sof0 + 19..]);
    assert_eq!(decode(&frame).err(), Some(DecodeError::BadLength));
}

#[test]
fn a_component_must_find_its_tables() {
    let file = encode(&grey(16, 8, 100)).unwrap();
    let sof0 = place_of(&file, 0xC0);
    let sos = place_of(&file, 0xDA);
    let mut no_quantization = file.clone();
    no_quantization[sof0 + 12] = 3;
    assert_eq!(decode(&no_quantization).err(), Some(DecodeError::QuantizationTableMissing));
    let mut no_dc = file.clone();
    no_dc[sos + 6] = 0x20;
    assert_eq!(decode(&no_dc).err(), Some(DecodeError::HuffmanTableMissing));
    let mut no_ac = file.clone();
    no_ac[sos + 10] = 0x13;
    assert_eq!(decode(&no_ac).err(), Some(DecodeError::HuffmanTableMissing));
    // The quantization table is looked up before the Huffman tables.
    let mut neither = no_quantization.clone();
    neither[sos + 6] = 0x20;
    assert_eq!(decode(&neither).err(), Some(DecodeError::QuantizationTableMissing));
}

#[test]
fn sixteen_bits_without_a_codeword_fail() {
    assert_eq!(decode(&with_scan(&[true; 24])).err(), Some(DecodeError::HuffmanDecodeFail));
}

#[test]
fn a_run_beyond_the_block_overflows() {
    let mut bits = vec![false, false];
    for _ in 0..4 {
        bits.extend([true, true, true, true, true, true, true, true, false, false, true]);
    }
    assert_eq!(decode(&with_scan(&bits)).err(), Some(DecodeError::ScanOverflow));
}

#[test]
fn later_tables_replace_earlier_ones_and_comments_are_skipped() {
    let file = encode(&gradient(16, 8)).unwrap();
    let expected = decode(&file).unwrap();
    let dqt = place_of(&file, 0xDB);
    // A table of ones under the number 0, before the real table 0, and an
    // application segment of another kind.
    let mut longer = file[..dqt].to_vec();
    longer.extend([0xFF, 0xE5, 0x00, 0x04, 0xAB, 0xCD]);
    longer.extend([0xFF, 0xDB, 0x00, 0x43, 0x00]);
    longer.extend([1u8; 64]);
    longer.extend(&file[dqt..]);
    assert_eq!(decode(&longer).unwrap().data, expected.data);
    // The same table behind the real one changes the picture.
    let sof0 = place_of(&file, 0xC0);
    let mut other = file[..sof0].to_vec();
    other.extend([0xFF, 0xDB, 0x00, 0x43, 0x00]);
    other.extend([1u8; 64]);
    other.extend(&file[sof0..]);
    assert_ne!(decode(&other).unwrap().data, expected.data);
}

#[test]
fn the_steps_of_decoding_agree_with_the_file() {
    let file = encode(&gradient(20, 10)).unwrap();
    let data = decode_step1(&file).unwrap();
    assert_eq!(data.width, 20);
    assert_eq!(data.height, 10);
    assert_eq!(data.components.len(), 3);
    assert_eq!(data.components[0].horizontal_sampling_factor, 2);
    assert_eq!(data.components[0].vertical_sampling_factor, 1);
    assert_eq!(data.components[1].horizontal_sampling_factor, 1);
    assert_eq!(data.components[0].quatization_table.0[0][0], 16);
    assert_eq!(data.components[0].quatization_table.0[0][1], 11);
    assert_eq!(data.components[0].quatization_table.0[1][0], 12);
    assert_eq!(data.components[2].quatization_table.0[7][7], 99);
    assert_eq!(data.components[0].dc_huffman_table.1.values.len(), 12);
    assert_eq!(data.components[2].ac_huffman_table.1.values.len(), 162);
    let units = decode_step2(&data).unwrap();
    // 32 x 16 padded: two MCUs in a row, two rows, four blocks each.
    assert_eq!(units.zigzag_dus.len(), 16);
    let image = decode_step3(&units).unwrap();
    assert_eq!(image.padded_width, 32);
    assert_eq!(image.padded_height, 16);
    assert_eq!(image.y.values.len(), 32 * 16);
    assert_eq!(image.u.values.len(), 16 * 16);
    assert_eq!(image.y.absolute_horizontal_sampling_factor, 1);
    assert_eq!(image.u.absolute_horizontal_sampling_factor, 2);
    assert_eq!(image.v.absolute_vertical_sampling_factor, 1);
}

#[test]
fn dc_coefficients_are_coded_as_differences() {
    // Three MCUs of flat grey, each brighter than the one before.
    let mut data = Vec::new();
    for _y in 0..8 {
        for x in 0..48 {
            let v = [40u8, 120, 200][x / 16];
            data.extend([v, v, v]);
        }
    }
    let file = encode(&Raster { width: 48, height: 8, data }).unwrap();
    let units = decode_step2(&decode_step1(&file).unwrap()).unwrap();
    let dcs: Vec<i16> = units.zigzag_dus.iter().map(|du| du.0[0]).collect();
    // Luminance DC: (v - 128) * 8 / 16, rounded to even on a tie.
    assert_eq!(dcs, [-44, -44, 0, 0, -4, -4, 0, 0, 36, 36, 0, 0]);
    for du in &units.zigzag_dus {
        assert!(du.0[1..].iter().all(|&c| c == 0));
    }
}
