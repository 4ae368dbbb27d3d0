use bytebuffer::ByteBuffer;
use jpeglab::bits::BitString;
use jpeglab::entropy::JpegOutputData;
use jpeglab::error::DecodeError;
use jpeglab::parser::parse_image_data;
use jpeglab::segments::read_block;

fn bools(bits: &[u8]) -> Vec<bool> {
    bits.iter().map(|&b| b != 0).collect()
}

fn image_data(bits: &[bool]) -> Vec<u8> {
    let data = JpegOutputData {
        original_width: 1,
        original_height: 1,
        scan: BitString::from_bools(bits),
    };
    data.to_image_data().0
}

fn stuffed(bytes: &[u8]) -> Vec<u8> {
    let mut bits = Vec::new();
    for &byte in bytes {
        for k in (0..8).rev() {
            bits.push(byte >> k & 1 == 1);
        }
    }
    image_data(&bits)
}

#[test]
fn the_scan_is_packed_most_significant_bit_first() {
    assert_eq!(image_data(&bools(&[1, 0, 0, 0, 0, 0, 0, 1])), [0x81]);
    assert_eq!(image_data(&bools(&[0, 0, 0, 0, 0, 0, 1, 1, 0, 1, 0, 0, 0, 0, 0, 0])), [0x03, 0x40]);
    assert!(image_data(&[]).is_empty());
}

#[test]
fn the_last_byte_is_filled_up_with_ones() {
    assert_eq!(image_data(&bools(&[1, 0, 1])), [0b1011_1111]);
    assert_eq!(image_data(&bools(&[0])), [0b0111_1111]);
    assert_eq!(image_data(&bools(&[0, 0, 0, 0, 0, 0, 0, 0, 0])), [0x00, 0x7F]);
}

#[test]
fn a_zero_follows_every_ff() {
    assert_eq!(image_data(&[true; 8]), [0xFF, 0x00]);
    assert_eq!(image_data(&[true; 3]), [0xFF, 0x00]);
    assert_eq!(stuffed(&[0xFF, 0xFF, 0x01, 0xFF]), [0xFF, 0, 0xFF, 0, 0x01, 0xFF, 0]);
    assert_eq!(stuffed(&[0xFF, 0xD9]), [0xFF, 0, 0xD9]);
}

#[test]
fn stuffed_bytes_are_read_back_as_they_were() {
    let mut state = 12345u32;
    for round in 0..50 {
        let mut bytes = Vec::new();
        for _ in 0..round * 3 {
            state = state.wrapping_mul(1103515245).wrapping_add(12345);
            let byte = (state >> 16) as u8;
            bytes.push(if byte % 5 == 0 { 0xFF } else { byte });
        }
        let wire = stuffed(&bytes);
        for i in 0..wire.len() {
            if wire[i] == 0xFF {
                assert_eq!(wire[i + 1], 0x00);
            }
        }
        let mut file = wire.clone();
        file.extend([0xFF, 0xD9, 0x12, 0x34]);
        let mut buf = ByteBuffer::from_bytes(&file);
        let bits = parse_image_data(&mut buf).unwrap();
        assert_eq!(buf.get_rpos(), wire.len() + 2);
        assert_eq!(image_data(&bits.to_bools()), wire);
        let mut expected = Vec::new();
        for &byte in &bytes {
            for k in (0..8).rev() {
                expected.push(byte >> k & 1 == 1);
            }
        }
        assert_eq!(bits.to_bools(), expected);
    }
}

#[test]
fn a_scan_must_end_with_the_end_of_image() {
    let mut buf = ByteBuffer::from_bytes(&[0x12, 0x34]);
    assert_eq!(parse_image_data(&mut buf).err(), Some(DecodeError::TruncatedInput));
    let mut buf = ByteBuffer::from_bytes(&[0x12, 0xFF]);
    assert_eq!(parse_image_data(&mut buf).err(), Some(DecodeError::TruncatedInput));
    let mut buf = ByteBuffer::from_bytes(&[]);
    assert_eq!(parse_image_data(&mut buf).err(), Some(DecodeError::TruncatedInput));
    let mut buf = ByteBuffer::from_bytes(&[0x12, 0xFF, 0xD0, 0xFF, 0xD9]);
    assert_eq!(parse_image_data(&mut buf).err(), Some(DecodeError::BadMarker));
    let mut buf = ByteBuffer::from_bytes(&[0xFF, 0xFF, 0xD9]);
    assert_eq!(parse_image_data(&mut buf).err(), Some(DecodeError::BadMarker));
    let mut buf = ByteBuffer::from_bytes(&[0xFF, 0xD9]);
    assert!(parse_image_data(&mut buf).unwrap().to_bools().is_empty());
}

#[test]
fn a_block_is_as_long_as_its_length_says() {
    let mut buf = ByteBuffer::from_bytes(&[0x00, 0x05, 1, 2, 3, 4]);
    assert_eq!(read_block(&mut buf), Ok(vec![1, 2, 3]));
    assert_eq!(buf.get_rpos(), 5);
    let mut buf = ByteBuffer::from_bytes(&[0x00, 0x02]);
    assert_eq!(read_block(&mut buf), Ok(vec![]));
    let mut buf = ByteBuffer::from_bytes(&[0x00, 0x01, 9]);
    assert_eq!(read_block(&mut buf), Err(DecodeError::BadLength));
    let mut buf = ByteBuffer::from_bytes(&[0x00, 0x00]);
    assert_eq!(read_block(&mut buf), Err(DecodeError::BadLength));
    let mut buf = ByteBuffer::from_bytes(&[0x00, 0x05, 1, 2]);
    assert_eq!(read_block(&mut buf), Err(DecodeError::TruncatedInput));
    let mut buf = ByteBuffer::from_bytes(&[0x00]);
    assert_eq!(read_block(&mut buf), Err(DecodeError::TruncatedInput));
    let mut buf = ByteBuffer::from_bytes(&[0x01, 0x02, 7]);
    assert_eq!(read_block(&mut buf), Err(DecodeError::TruncatedInput));
}
