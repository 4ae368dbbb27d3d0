use jpeglab::blocks::encode_step2;
use jpeglab::color::encode_step1;
use jpeglab::color::rgb_to_chroma_blue;
use jpeglab::color::rgb_to_chroma_red;
use jpeglab::color::rgb_to_luma;
use jpeglab::color::yuv_to_rgb;
use jpeglab::color::Raster;
use jpeglab::error::EncodeError;

#[test]
fn colours_follow_the_jfif_weights() {
    assert_eq!(rgb_to_luma(255, 0, 0), 76);
    assert_eq!(rgb_to_chroma_blue(255, 0, 0), 85);
    assert_eq!(rgb_to_chroma_red(255, 0, 0), 255);
    assert_eq!(rgb_to_luma(0, 255, 0), 150);
    assert_eq!(rgb_to_chroma_blue(0, 255, 0), 44);
    assert_eq!(rgb_to_chroma_red(0, 255, 0), 21);
    assert_eq!(rgb_to_luma(0, 0, 255), 29);
    assert_eq!(rgb_to_chroma_blue(0, 0, 255), 255);
    assert_eq!(rgb_to_chroma_red(0, 0, 255), 107);
    assert_eq!(rgb_to_luma(12, 200, 77), 130);
    assert_eq!(rgb_to_chroma_blue(12, 200, 77), 98);
    assert_eq!(rgb_to_chroma_red(12, 200, 77), 44);
}

#[test]
fn grey_has_no_chrominance() {
    for v in 0..=255u8 {
        assert_eq!(rgb_to_luma(v, v, v), v);
        assert_eq!(rgb_to_chroma_blue(v, v, v), 128);
        assert_eq!(rgb_to_chroma_red(v, v, v), 128);
        assert_eq!(yuv_to_rgb(v, 128, 128), (v, v, v));
    }
}

#[test]
fn colours_come_back_within_the_range_of_a_byte() {
    assert_eq!(yuv_to_rgb(0, 0, 0), (0, 135, 0));
    assert_eq!(yuv_to_rgb(255, 255, 255), (255, 121, 255));
    assert_eq!(yuv_to_rgb(76, 85, 255), (254, 0, 0));
    assert_eq!(yuv_to_rgb(130, 98, 44), (12, 200, 77));
    assert_eq!(yuv_to_rgb(29, 255, 107), (0, 0, 254));
}

#[test]
fn planes_are_padded_with_the_last_sample() {
    // 17 x 9 pixels, the luminance of each its column plus its row.
    let (width, height) = (17usize, 9usize);
    let mut data = Vec::new();
    for y in 0..height {
        for x in 0..width {
            let v = (x + y) as u8 * 3;
            data.extend([v, v, v]);
        }
    }
    let yuv = encode_step1(&Raster { width, height, data }).unwrap();
    assert_eq!(yuv.original_width, 17);
    assert_eq!(yuv.original_height, 9);
    assert_eq!(yuv.padded_width(), 32);
    assert_eq!(yuv.padded_height(), 16);
    assert_eq!(yuv.y.len(), 32 * 16);
    assert_eq!(yuv.u.len(), 16 * 16);
    assert_eq!(yuv.v.len(), 16 * 16);
    for py in 0..16 {
        for px in 0..32 {
            let expected = (px.min(16) + py.min(8)) as u8 * 3;
            assert_eq!(yuv.y[py * 32 + px], expected);
        }
    }
    assert!(yuv.u.iter().all(|&u| u == 128));
    assert!(yuv.v.iter().all(|&v| v == 128));
}

#[test]
fn chrominance_is_the_average_of_two_neighbours() {
    // Two pixels in a row: pure red and pure blue.
    let mut data = Vec::new();
    data.extend([255, 0, 0]);
    data.extend([0, 0, 255]);
    let yuv = encode_step1(&Raster { width: 2, height: 1, data }).unwrap();
    assert_eq!(yuv.y[0], 76);
    assert_eq!(yuv.y[1], 29);
    assert_eq!(yuv.y[2], 29);
    // (85 + 255 + 1) / 2 and (255 + 107 + 1) / 2.
    assert_eq!(yuv.u[0], 170);
    assert_eq!(yuv.v[0], 181);
    // Beyond the image the last pixel stands for both neighbours.
    assert_eq!(yuv.u[1], 255);
    assert_eq!(yuv.v[1], 107);
    assert_eq!(yuv.u[8], 170);
}

#[test]
fn images_that_cannot_be_encoded_are_refused() {
    let empty = Raster { width: 0, height: 4, data: vec![] };
    assert_eq!(encode_step1(&empty).err(), Some(EncodeError::EmptyImage));
    let empty = Raster { width: 4, height: 0, data: vec![] };
    assert_eq!(encode_step1(&empty).err(), Some(EncodeError::EmptyImage));
    let short = Raster { width: 2, height: 2, data: vec![0; 11] };
    assert_eq!(encode_step1(&short).err(), Some(EncodeError::InvalidDimensions));
    let wide = Raster { width: 65536, height: 1, data: vec![0; 65536 * 3] };
    assert_eq!(encode_step1(&wide).err(), Some(EncodeError::InvalidDimensions));
    let widest = Raster { width: 65535, height: 1, data: vec![0; 65535 * 3] };
    assert!(encode_step1(&widest).is_ok());
}

#[test]
fn mcus_are_cut_row_by_row() {
    let (width, height) = (32usize, 16usize);
    let mut data = Vec::new();
    for y in 0..height {
        for x in 0..width {
            let v = (4 * x + 8 * y) as u8;
            data.extend([v, v, v]);
        }
    }
    let yuv = encode_step1(&Raster { width, height, data }).unwrap();
    let mcus = encode_step2(&yuv).unwrap();
    assert_eq!(mcus.original_width, 32);
    assert_eq!(mcus.original_height, 16);
    assert_eq!(mcus.mcus.len(), 4);
    for (n, mcu) in mcus.mcus.iter().enumerate() {
        let (mx, my) = (n % 2, n / 2);
        for row in 0..8 {
            for col in 0..8 {
                let left = (4 * (16 * mx + col) + 8 * (8 * my + row)) as i32 - 128;
                assert_eq!(mcu.y0.0[row][col] as i32, left);
                assert_eq!(mcu.y1.0[row][col] as i32, left + 32);
                assert_eq!(mcu.cb.0[row][col], 0);
                assert_eq!(mcu.cr.0[row][col], 0);
            }
        }
    }
}

#[test]
fn samples_lose_128() {
    let yuv = encode_step1(&Raster { width: 1, height: 1, data: vec![255, 255, 255] }).unwrap();
    let mcus = encode_step2(&yuv).unwrap();
    assert_eq!(mcus.mcus.len(), 1);
    assert_eq!(mcus.mcus[0].y0.0, [[127i8; 8]; 8]);
    let yuv = encode_step1(&Raster { width: 1, height: 1, data: vec![0, 0, 0] }).unwrap();
    let mcus = encode_step2(&yuv).unwrap();
    assert_eq!(mcus.mcus[0].y1.0, [[-128i8; 8]; 8]);
    assert_eq!(mcus.mcus[0].cb.0, [[0i8; 8]; 8]);
}
