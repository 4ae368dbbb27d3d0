//! The codec as a whole: an image to the bytes of a file, and back.

use crate::bits::max_bits;
use crate::blocks::is_mcu_of;
use crate::blocks::padded;
use crate::blocks::Mcu;
use crate::blocks::MyYuvImage;
use crate::color::decode_step4;
use crate::color::encode_obstacle;
use crate::color::encode_step1;
use crate::color::is_rgb_of;
use crate::color::is_yuv_of;
use crate::color::Raster;
use crate::dct::encode_step3;
use crate::dct::is_dct_mcu_of;
use crate::dct::DctMcu;
use crate::blocks::encode_step2;
use crate::entropy::default_scan_codes;
use crate::entropy::encode_step6;
use crate::entropy::mcu_within;
use crate::entropy::scan_bits;
use crate::entropy_decode::decode_step2;
use crate::entropy_decode::scan_units;
use crate::entropy_decode::DecodeZigzagMcuCollection;
use crate::error::DecodeError;
use crate::error::EncodeError;
use crate::parser::decode_step1;
use crate::parser::parse_jpeg;
use crate::parser::CompleteJpegData;
use crate::parser::ParsedJpeg;
use crate::planes::decode_step3;
use crate::planes::is_decoded_image;
use crate::planes::DecodedYuvImage;
use crate::quant::encode_step4;
use crate::quant::is_quantized_mcu_of;
use crate::quant::quantized;
use crate::quant::QuantizedMcu;
use crate::quant::CHROMINANCE_QUANTIZATION_CELLS;
use crate::quant::LUMINANCE_QUANTIZATION_CELLS;
use crate::writer::encode_step7;
use crate::writer::jfif_file;
use crate::zigzag::encode_step5;
use crate::zigzag::is_zigzag_mcu_of;
use crate::zigzag::lemma_zigzag_cell;
use crate::zigzag::ZigzagMcu;
use vstd::prelude::*;

verus! {

/// The number of MCUs of 16×8 pixels that cover an image of the given size.
pub open spec fn mcu_total(width: int, height: int) -> int {
    (padded(height, 8) / 8) * (padded(width, 16) / 16)
}

/// `zigzag` holds the MCUs of `image` as they go into the scan: the planes of
/// the image are cut into MCUs, and each block is transformed, quantized and
/// put in zigzag order.
pub open spec fn is_coded_image(zigzag: Seq<ZigzagMcu>, image: Raster) -> bool {
    exists|yuv: MyYuvImage, mcus: Seq<Mcu>, dct: Seq<DctMcu>, quantized: Seq<QuantizedMcu>|
        {
            &&& #[trigger] is_cut_image(yuv, mcus, image)
            &&& #[trigger] is_transformed(zigzag, quantized, dct, mcus)
        }
}

/// `mcus` holds the MCUs of the planes `yuv` of `image`, row by row.
pub open spec fn is_cut_image(yuv: MyYuvImage, mcus: Seq<Mcu>, image: Raster) -> bool {
    &&& is_yuv_of(yuv, image)
    &&& mcus.len() == mcu_total(image.width as int, image.height as int)
    &&& forall|mx: int, my: int|
        0 <= mx < yuv.spec_padded_width() / 16 && 0 <= my < yuv.spec_padded_height() / 8
            ==> is_mcu_of(#[trigger] mcus[my * (yuv.spec_padded_width() / 16) + mx], yuv, mx, my)
}

/// MCU by MCU, `dct` holds the transforms of `mcus`, `quantized` what
/// quantizing them gives, and `zigzag` the same in zigzag order.
pub open spec fn is_transformed(
    zigzag: Seq<ZigzagMcu>,
    quantized: Seq<QuantizedMcu>,
    dct: Seq<DctMcu>,
    mcus: Seq<Mcu>,
) -> bool {
    &&& dct.len() == mcus.len()
    &&& quantized.len() == mcus.len()
    &&& zigzag.len() == mcus.len()
    &&& forall|i: int|
        0 <= i < mcus.len() ==> is_dct_mcu_of(#[trigger] dct[i], mcus[i]) && is_quantized_mcu_of(
            quantized[i],
            dct[i],
        ) && is_zigzag_mcu_of(zigzag[i], quantized[i])
}

/// `bytes` is the file of `image`: the headers for its size, and the scan of
/// its coded MCUs.
pub open spec fn is_encoding_of(bytes: Seq<u8>, image: Raster) -> bool {
    exists|zigzag: Seq<ZigzagMcu>| #[trigger]
        is_coded_image(zigzag, image) && bytes == jfif_file(
            image.width as u16,
            image.height as u16,
            scan_bits(default_scan_codes(), zigzag),
        )
}

/// The scan of an image of the given size may not fit a bit string of this
/// machine.
pub open spec fn too_large(width: int, height: int) -> bool {
    mcu_total(width, height) * 32768 > max_bits()
}

/// A coefficient of at most `2^43` in magnitude, quantized with an entry of
/// at least 3, is at most 1023 in magnitude.
pub proof fn lemma_quantized_bound(coefficient: int, entry: int)
    requires
        -0x800_0000_0000 <= coefficient <= 0x800_0000_0000,
        3 <= entry <= 65535,
    ensures
        -1023 <= quantized(coefficient, entry) <= 1023,
{
    let d = entry * 0x1_0000_0000;
    let m: int = if coefficient >= 0 {
        coefficient
    } else {
        -coefficient
    };
    vstd::arithmetic::div_mod::lemma_fundamental_div_mod(m, d);
    vstd::arithmetic::div_mod::lemma_mod_bound(m, d);
    let q = m / d;
    assert(q <= 682) by (nonlinear_arith)
        requires
            m == d * q + m % d,
            0 <= m % d,
            0 <= m <= 0x800_0000_0000,
            d >= 3 * 0x1_0000_0000,
    ;
    assert(0 <= q) by (nonlinear_arith)
        requires
            m == d * q + m % d,
            m % d < d,
            0 <= m,
            d > 0,
    ;
}

/// Quantizing the transform of a block of samples with one of the two
/// tables of the encoder gives coefficients of at most 1023 in magnitude.
pub proof fn lemma_coded_within(z: ZigzagMcu, q: QuantizedMcu, d: DctMcu, mcu: Mcu)
    requires
        is_dct_mcu_of(d, mcu),
        is_quantized_mcu_of(q, d),
        is_zigzag_mcu_of(z, q),
    ensures
        mcu_within(z, 1023),
{
    assert forall|i: int, j: int| 0 <= i < 8 && 0 <= j < 8 implies 3
        <= #[trigger] LUMINANCE_QUANTIZATION_CELLS@[i]@[j] && 3
        <= CHROMINANCE_QUANTIZATION_CELLS@[i]@[j] by {
        assert(LUMINANCE_QUANTIZATION_CELLS@[i]@[j] >= 3);
        assert(CHROMINANCE_QUANTIZATION_CELLS@[i]@[j] >= 3);
    }
    assert forall|k: int| 0 <= k < 64 implies -1023 <= #[trigger] z.y0.0@[k] <= 1023 by {
        lemma_zigzag_cell(k);
        let (i, j) = crate::zigzag::zigzag_cell(k);
        assert(d.y0.0@[i]@[j] <= 0x800_0000_0000);
        lemma_quantized_bound(d.y0.0@[i]@[j] as int, LUMINANCE_QUANTIZATION_CELLS@[i]@[j] as int);
    }
    assert forall|k: int| 0 <= k < 64 implies -1023 <= #[trigger] z.y1.0@[k] <= 1023 by {
        lemma_zigzag_cell(k);
        let (i, j) = crate::zigzag::zigzag_cell(k);
        assert(d.y1.0@[i]@[j] <= 0x800_0000_0000);
        lemma_quantized_bound(d.y1.0@[i]@[j] as int, LUMINANCE_QUANTIZATION_CELLS@[i]@[j] as int);
    }
    assert forall|k: int| 0 <= k < 64 implies -1023 <= #[trigger] z.cb.0@[k] <= 1023 by {
        lemma_zigzag_cell(k);
        let (i, j) = crate::zigzag::zigzag_cell(k);
        assert(d.cb.0@[i]@[j] <= 0x800_0000_0000);
        lemma_quantized_bound(
            d.cb.0@[i]@[j] as int,
            CHROMINANCE_QUANTIZATION_CELLS@[i]@[j] as int,
        );
    }
    assert forall|k: int| 0 <= k < 64 implies -1023 <= #[trigger] z.cr.0@[k] <= 1023 by {
        lemma_zigzag_cell(k);
        let (i, j) = crate::zigzag::zigzag_cell(k);
        assert(d.cr.0@[i]@[j] <= 0x800_0000_0000);
        lemma_quantized_bound(
            d.cr.0@[i]@[j] as int,
            CHROMINANCE_QUANTIZATION_CELLS@[i]@[j] as int,
        );
    }
}

/// Encodes an RGB image as a baseline JFIF file with 4:2:2 sampling.
///
/// An image without pixels is refused, and so is one whose size does not fit
/// the frame header, whose data is not three bytes for each pixel, or which is
/// too large for this machine.
pub fn encode(image: &Raster) -> (r: Result<Vec<u8>, EncodeError>)
    ensures
        match r {
            Ok(bytes) => encode_obstacle(*image) is None && !too_large(
                image.width as int,
                image.height as int,
            ) && is_encoding_of(bytes@, *image),
            Err(e) => encode_obstacle(*image) == Some(e) || (encode_obstacle(*image) is None
                && too_large(image.width as int, image.height as int) && e
                == EncodeError::TooLarge),
        },
{
    let yuv_image = encode_step1(image)?;
    let mcu_collection = match encode_step2(&yuv_image) {
        Ok(c) => c,
        Err(e) => { return Err(e); },
    };
    if mcu_collection.mcus.len() > usize::MAX / 8 / 32768 {
        return Err(EncodeError::TooLarge);
    }
    let dct_mcu_collection = match encode_step3(&mcu_collection) {
        Ok(c) => c,
        Err(e) => { return Err(e); },
    };
    let quantized_mcu_collection = match encode_step4(&dct_mcu_collection) {
        Ok(c) => c,
        Err(e) => { return Err(e); },
    };
    let zigzag_mcu_collection = match encode_step5(&quantized_mcu_collection) {
        Ok(c) => c,
        Err(e) => { return Err(e); },
    };
    proof {
        assert forall|i: int| 0 <= i < zigzag_mcu_collection.zigzag_mcus@.len() implies mcu_within(
            #[trigger] zigzag_mcu_collection.zigzag_mcus@[i],
            1023,
        ) by {
            lemma_coded_within(
                zigzag_mcu_collection.zigzag_mcus@[i],
                quantized_mcu_collection.quantized_mcus@[i],
                dct_mcu_collection.dct_mcus@[i],
                mcu_collection.mcus@[i],
            );
        }
        assert(is_cut_image(yuv_image, mcu_collection.mcus@, *image));
        assert(is_transformed(
            zigzag_mcu_collection.zigzag_mcus@,
            quantized_mcu_collection.quantized_mcus@,
            dct_mcu_collection.dct_mcus@,
            mcu_collection.mcus@,
        ));
        assert(is_coded_image(zigzag_mcu_collection.zigzag_mcus@, *image));
    }
    let jpeg_output_data = match encode_step6(&zigzag_mcu_collection) {
        Ok(c) => c,
        Err(e) => { return Err(e); },
    };
    encode_step7(&jpeg_output_data)
}

/// `raster` is what the file `parsed` decodes to: its scan is decoded block
/// by block, the blocks are put together to planes, and the planes are turned
/// into pixels.
pub open spec fn is_decoding_of(raster: Raster, parsed: ParsedJpeg) -> bool {
    exists|data: CompleteJpegData, collection: DecodeZigzagMcuCollection, image: DecodedYuvImage|
        {
            &&& #[trigger] is_decoded_scan(collection, data, parsed)
            &&& is_decoded_image(image, collection)
            &&& #[trigger] is_rgb_of(raster, image)
        }
}

/// `collection` holds the blocks of the scan of the file `parsed`, which
/// `data` holds ready for decoding.
pub open spec fn is_decoded_scan(
    collection: DecodeZigzagMcuCollection,
    data: CompleteJpegData,
    parsed: ParsedJpeg,
) -> bool {
    &&& data.holds(parsed)
    &&& scan_units(data) is Ok
    &&& collection.width == data.width
    &&& collection.height == data.height
    &&& collection.components@ == data.components@
    &&& collection.zigzag_dus@.len() == scan_units(data)->Ok_0.len()
    &&& forall|i: int|
        0 <= i < collection.zigzag_dus@.len() ==> (#[trigger] collection.zigzag_dus@[i]).0@
            == scan_units(data)->Ok_0[i]
}

/// The file `parsed` cannot be decoded for the reason `e`: its scan cannot
/// be decoded, or its blocks cannot be put together to planes.
pub open spec fn fails_decoding(parsed: ParsedJpeg, e: DecodeError) -> bool {
    exists|data: CompleteJpegData| #[trigger]
        data.holds(parsed) && (scan_units(data) == Err::<Seq<Seq<i16>>, DecodeError>(e) || exists|
            collection: DecodeZigzagMcuCollection,
        | #[trigger]
            is_decoded_scan(collection, data, parsed) && collection.obstacle() == Some(e))
}

/// `r` is what decoding the file `buf` gives: the image that the file
/// decodes to, of the size that the file declares; or the error of reading the
/// file, or of decoding what was read.
pub open spec fn is_decode_result(buf: Seq<u8>, r: Result<Raster, DecodeError>) -> bool {
    match r {
        Ok(raster) => parse_jpeg(buf) is Ok && is_decoding_of(raster, parse_jpeg(buf)->Ok_0)
            && raster.width == parse_jpeg(buf)->Ok_0.width && raster.height == parse_jpeg(
            buf,
        )->Ok_0.height,
        Err(e) => parse_jpeg(buf) == Err::<ParsedJpeg, DecodeError>(e) || (parse_jpeg(buf) is Ok
            && fails_decoding(parse_jpeg(buf)->Ok_0, e)),
    }
}

/// Decodes a baseline JFIF file to an RGB image of the size that the file
/// declares.
///
/// The file must be short enough for its scan to fit a bit string of this
/// machine.
pub fn decode(buf: &[u8]) -> (r: Result<Raster, DecodeError>)
    requires
        buf@.len() * 8 <= max_bits(),
    ensures
        is_decode_result(buf@, r),
{
    let complete_jpeg_data = decode_step1(buf)?;
    let ghost parsed = parse_jpeg(buf@)->Ok_0;
    let zigzag_mcu_collection = match decode_step2(&complete_jpeg_data) {
        Ok(c) => c,
        Err(e) => {
            proof {
                assert(complete_jpeg_data.holds(parsed));
            }
            return Err(e);
        },
    };
    proof {
        assert(is_decoded_scan(zigzag_mcu_collection, complete_jpeg_data, parsed));
    }
    let decoded_yuv_image = match decode_step3(&zigzag_mcu_collection) {
        Ok(c) => c,
        Err(e) => {
            proof {
                assert(complete_jpeg_data.holds(parsed));
            }
            return Err(e);
        },
    };
    let raster = match decode_step4(&decoded_yuv_image) {
        Ok(c) => c,
        Err(e) => { return Err(e); },
    };
    proof {
        assert(is_rgb_of(raster, decoded_yuv_image));
    }
    Ok(raster)
}

} // verus!
