use jpeglab::bits::BitString;
use jpeglab::vli::abs_i16;
use jpeglab::vli::encode_value;
use jpeglab::vli::entropy_decode_value;
use jpeglab::vli::get_category;
use jpeglab::error::DecodeError;

fn bools(bits: &[u8]) -> Vec<bool> {
    bits.iter().map(|&b| b != 0).collect()
}

#[test]
fn bit_strings_keep_their_bits() {
    let bits = bools(&[1, 0, 0, 1, 1, 1, 0, 1, 0, 1]);
    assert_eq!(BitString::from_bools(&bits).to_bools(), bits);
    assert!(BitString::from_bools(&[]).to_bools().is_empty());
}

#[test]
fn a_value_is_spelled_most_significant_bit_first() {
    assert_eq!(BitString::from_value(0b101, 5).to_bools(), bools(&[0, 0, 1, 0, 1]));
    assert_eq!(BitString::from_value(0b101, 2).to_bools(), bools(&[0, 1]));
    assert_eq!(BitString::from_value(6, 3).to_bools(), bools(&[1, 1, 0]));
    assert!(BitString::from_value(6, 0).to_bools().is_empty());
    let wide = BitString::from_value(1, 70).to_bools();
    assert_eq!(wide.len(), 70);
    assert!(wide[69]);
    assert!(wide[..69].iter().all(|b| !b));
}

#[test]
fn category_is_the_number_of_significant_bits() {
    assert_eq!(get_category(0), 0);
    assert_eq!(get_category(1), 1);
    assert_eq!(get_category(2), 2);
    assert_eq!(get_category(3), 2);
    assert_eq!(get_category(4), 3);
    assert_eq!(get_category(1023), 10);
    assert_eq!(get_category(1024), 11);
    assert_eq!(get_category(32767), 15);
    assert_eq!(get_category(32768), 16);
    assert_eq!(get_category(65535), 16);
    assert_eq!(abs_i16(-32768), 32768);
    assert_eq!(abs_i16(-5), 5);
    assert_eq!(abs_i16(5), 5);
}

#[test]
fn value_bits_of_negatives_are_inverted() {
    assert_eq!(encode_value(5).to_bools(), bools(&[1, 0, 1]));
    assert_eq!(encode_value(-5).to_bools(), bools(&[0, 1, 0]));
    assert_eq!(encode_value(1).to_bools(), bools(&[1]));
    assert_eq!(encode_value(-1).to_bools(), bools(&[0]));
    assert!(encode_value(0).to_bools().is_empty());
    assert_eq!(encode_value(-628).to_bools(), bools(&[0, 1, 1, 0, 0, 0, 1, 0, 1, 1]));
}

#[test]
fn every_value_comes_back_from_its_bits() {
    for v in -32767i16..=32767 {
        let bits = encode_value(v);
        let category = get_category(abs_i16(v));
        assert_eq!(bits.to_bools().len(), category as usize);
        assert_eq!(category == 0, v == 0);
        let mut offset = 0usize;
        assert_eq!(entropy_decode_value(&bits, &mut offset, category), Ok(v));
        assert_eq!(offset, category as usize);
    }
}

#[test]
fn value_bits_are_read_from_the_offset() {
    let scan = BitString::from_bools(&bools(&[1, 1, 0, 1, 0, 0, 1]));
    let mut offset = 2usize;
    assert_eq!(entropy_decode_value(&scan, &mut offset, 3), Ok(-5));
    assert_eq!(offset, 5);
    assert_eq!(entropy_decode_value(&scan, &mut offset, 0), Ok(0));
    assert_eq!(offset, 5);
    assert_eq!(entropy_decode_value(&scan, &mut offset, 3), Err(DecodeError::TruncatedInput));
    assert_eq!(offset, 5);
    assert_eq!(entropy_decode_value(&scan, &mut offset, 16), Err(DecodeError::UnsupportedFeature));
    assert_eq!(entropy_decode_value(&scan, &mut offset, 2), Ok(-2));
    assert_eq!(offset, 7);
}
