//! What the encoder writes, the decoder takes: the file of an image is
//! decoded, to an image of the same size.

use crate::blocks::padded;
use crate::codec::fails_decoding;
use crate::codec::is_coded_image;
use crate::codec::is_cut_image;
use crate::codec::is_decode_result;
use crate::codec::is_decoded_scan;
use crate::codec::is_encoding_of;
use crate::codec::is_transformed;
use crate::codec::lemma_coded_within;
use crate::codec::mcu_total;
use crate::coding_laws::chroma_ac_table;
use crate::coding_laws::chroma_dc_table;
use crate::coding_laws::codes_422;
use crate::coding_laws::holds_at;
use crate::coding_laws::lemma_default_tables_usable;
use crate::coding_laws::lemma_scan_round_trip_from;
use crate::coding_laws::luminance_ac_table;
use crate::coding_laws::luminance_dc_table;
use crate::coding_laws::plan_422;
use crate::coding_laws::scan_unit_list;
use crate::coding_laws::state_behind;
use crate::color::encode_obstacle;
use crate::color::Raster;
use crate::entropy::default_scan_codes;
use crate::entropy::mcu_within;
use crate::entropy::scan_bits;
use crate::entropy_decode::max_horizontal;
use crate::entropy_decode::max_vertical;
use crate::entropy_decode::mcu_count;
use crate::entropy_decode::pieces;
use crate::entropy_decode::run_scan;
use crate::entropy_decode::sampling_valid;
use crate::entropy_decode::scan_plan;
use crate::entropy_decode::scan_units;
use crate::entropy_decode::table_spec;
use crate::entropy_decode::DecodeZigzagMcuCollection;
use crate::entropy_decode::ScanState;
use crate::error::DecodeError;
use crate::file_laws::lemma_file_round_trip;
use crate::file_laws::lemma_unpack_pack;
use crate::file_laws::parsed_encoding;
use crate::parser::parse_jpeg;
use crate::parser::CompleteJpegData;
use crate::parser::Component;
use crate::planes::blocks_before;
use crate::planes::components_supported;
use crate::stuffing::padded_scan;
use crate::zigzag::ZigzagMcu;
use vstd::prelude::*;

verus! {

/// The scan, filled up to whole bytes, starts with the scan.
pub proof fn lemma_padded_scan(scan: Seq<bool>)
    ensures
        padded_scan(scan).len() % 8 == 0,
        holds_at(padded_scan(scan), 0, scan),
{
    assert(padded_scan(scan).subrange(0, scan.len() as int) =~= scan);
}

/// The blocks of `n` MCUs are four times `n`.
pub proof fn lemma_scan_unit_list_len(mcus: Seq<ZigzagMcu>)
    ensures
        scan_unit_list(mcus).len() == 4 * mcus.len(),
    decreases mcus.len(),
{
    if mcus.len() > 0 {
        lemma_scan_unit_list_len(mcus.drop_last());
    }
}

/// The components of data that holds the file of the encoder are those of a
/// 4:2:2 image with the tables of the encoder.
pub proof fn lemma_components_of_encoding(data: CompleteJpegData, width: u16, height: u16,
    scan: Seq<bool>)
    requires
        data.holds(parsed_encoding(width, height, scan)),
    ensures
        data.components@.len() == 3,
        components_supported(data.components@),
        sampling_valid(data.components@),
        max_horizontal(data.components@, 3) == 2,
        max_vertical(data.components@, 3) == 1,
        blocks_before(data.components@, 3) == 4,
        scan_plan(data.components@) == plan_422(
            luminance_dc_table(),
            luminance_ac_table(),
            chroma_dc_table(),
            chroma_ac_table(),
        ),
{
    let parsed = parsed_encoding(width, height, scan);
    let c = data.components@;
    assert(crate::parser::holds_component(c[0], parsed.components[0]));
    assert(crate::parser::holds_component(c[1], parsed.components[1]));
    assert(crate::parser::holds_component(c[2], parsed.components[2]));
    reveal_with_fuel(max_horizontal, 4);
    reveal_with_fuel(max_vertical, 4);
    reveal_with_fuel(blocks_before, 4);
    let plan = scan_plan(c);
    let expected = plan_422(
        luminance_dc_table(),
        luminance_ac_table(),
        chroma_dc_table(),
        chroma_ac_table(),
    );
    assert(table_spec(*c[0].dc_huffman_table) == luminance_dc_table());
    assert(table_spec(*c[1].dc_huffman_table) == chroma_dc_table());
    assert(table_spec(*c[2].dc_huffman_table) == chroma_dc_table());
    assert(table_spec(*c[0].ac_huffman_table) == luminance_ac_table());
    assert(table_spec(*c[1].ac_huffman_table) == chroma_ac_table());
    assert(table_spec(*c[2].ac_huffman_table) == chroma_ac_table());
    assert(c[0].horizontal_sampling_factor * c[0].vertical_sampling_factor == 2);
    assert(c[1].horizontal_sampling_factor * c[1].vertical_sampling_factor == 1);
    assert(c[2].horizontal_sampling_factor * c[2].vertical_sampling_factor == 1);
    assert(plan.dc =~= expected.dc);
    assert(plan.ac =~= expected.ac);
    assert(plan.counts =~= expected.counts);
}

/// The number of MCUs that the decoder counts for a 4:2:2 image is the number
/// that the encoder cuts.
pub proof fn lemma_mcu_counts_agree(width: int, height: int)
    requires
        0 <= width,
        0 <= height,
    ensures
        pieces(width, 16) * pieces(height, 8) == mcu_total(width, height),
        pieces(height, 8) * pieces(width, 16) == mcu_total(width, height),
        mcu_total(width, height) >= 0,
{
    let a = (width + 15) / 16;
    let b = (height + 7) / 8;
    assert(padded(width, 16) / 16 == a);
    assert(padded(height, 8) / 8 == b);
    assert(a * b == b * a && a * b >= 0) by (nonlinear_arith)
        requires
            a >= 0,
            b >= 0,
    ;
}

/// The decoding of a scan starts behind no MCU.
pub proof fn lemma_state_at_start(codes: crate::entropy::ScanCodes)
    ensures
        state_behind(codes, Seq::<ZigzagMcu>::empty()) == (ScanState {
            offset: 0,
            sums: Seq::new(3, |i: int| 0int),
            units: Seq::empty(),
        }),
{
    let empty = Seq::<ZigzagMcu>::empty();
    assert(scan_bits(codes, empty) =~= Seq::<bool>::empty());
    assert(state_behind(codes, empty).sums =~= Seq::new(3, |i: int| 0int));
    assert(state_behind(codes, empty).units =~= Seq::<Seq<i16>>::empty());
}

/// A scan of the encoder that stands at the start of `bits` is decoded from
/// the start to the blocks of its MCUs.
pub proof fn lemma_run_scan_of_encoding(zigzag: Seq<ZigzagMcu>, bits: Seq<bool>)
    requires
        forall|i: int| 0 <= i < zigzag.len() ==> mcu_within(#[trigger] zigzag[i], 1023),
        holds_at(bits, 0, scan_bits(default_scan_codes(), zigzag)),
    ensures
        run_scan(
            plan_422(
                luminance_dc_table(),
                luminance_ac_table(),
                chroma_dc_table(),
                chroma_ac_table(),
            ),
            bits,
            ScanState { offset: 0, sums: Seq::new(3, |i: int| 0int), units: Seq::empty() },
            zigzag.len(),
        ) is Ok,
        run_scan(
            plan_422(
                luminance_dc_table(),
                luminance_ac_table(),
                chroma_dc_table(),
                chroma_ac_table(),
            ),
            bits,
            ScanState { offset: 0, sums: Seq::new(3, |i: int| 0int), units: Seq::empty() },
            zigzag.len(),
        )->Ok_0.units == scan_unit_list(zigzag),
{
    lemma_default_tables_usable();
    let codes = codes_422(
        luminance_dc_table(),
        luminance_ac_table(),
        chroma_dc_table(),
        chroma_ac_table(),
    );
    assert(codes == default_scan_codes());
    lemma_scan_round_trip_from(
        luminance_dc_table(),
        luminance_ac_table(),
        chroma_dc_table(),
        chroma_ac_table(),
        zigzag,
        bits,
        0,
    );
    assert(zigzag.take(0) =~= Seq::<ZigzagMcu>::empty());
    lemma_state_at_start(codes);
}

/// The scan of the coded MCUs of an image is decoded to the blocks of the
/// MCUs by data that holds the file of the encoder.
pub proof fn lemma_scan_of_encoding(
    data: CompleteJpegData,
    width: u16,
    height: u16,
    zigzag: Seq<ZigzagMcu>,
)
    requires
        data.holds(
            parsed_encoding(width, height, scan_bits(default_scan_codes(), zigzag)),
        ),
        zigzag.len() == mcu_total(width as int, height as int),
        forall|i: int| 0 <= i < zigzag.len() ==> mcu_within(#[trigger] zigzag[i], 1023),
    ensures
        scan_units(data) == Ok::<Seq<Seq<i16>>, DecodeError>(scan_unit_list(zigzag)),
{
    let scan = scan_bits(default_scan_codes(), zigzag);
    lemma_components_of_encoding(data, width, height, scan);
    lemma_padded_scan(scan);
    lemma_unpack_pack(padded_scan(scan));
    lemma_mcu_counts_agree(width as int, height as int);
    assert(data.scan@ == padded_scan(scan));
    lemma_run_scan_of_encoding(zigzag, data.scan@);
    assert(mcu_count(data) == zigzag.len());
}

/// The MCUs of a coded image are as many as the image's size calls for, and
/// their coefficients are at most 1023 in magnitude.
pub proof fn lemma_coded_image(zigzag: Seq<ZigzagMcu>, image: Raster)
    requires
        is_coded_image(zigzag, image),
    ensures
        zigzag.len() == mcu_total(image.width as int, image.height as int),
        forall|i: int| 0 <= i < zigzag.len() ==> mcu_within(#[trigger] zigzag[i], 1023),
{
    let (yuv, mcus, dct, quantized) = choose|
        yuv: crate::blocks::MyYuvImage,
        mcus: Seq<crate::blocks::Mcu>,
        dct: Seq<crate::dct::DctMcu>,
        quantized: Seq<crate::quant::QuantizedMcu>,
    |
        {
            &&& #[trigger] is_cut_image(yuv, mcus, image)
            &&& #[trigger] is_transformed(zigzag, quantized, dct, mcus)
        };
    assert forall|i: int| 0 <= i < zigzag.len() implies mcu_within(#[trigger] zigzag[i], 1023) by {
        assert(crate::dct::is_dct_mcu_of(dct[i], mcus[i]));
        lemma_coded_within(zigzag[i], quantized[i], dct[i], mcus[i]);
    }
}

/// The file of an image is decoded: it is read as a file of the image's
/// size, its scan is decoded, and its blocks are as many as the planes of the
/// image take. With what [`crate::codec::decode`] promises, the decoder so
/// returns an image of the size of the image that was encoded.
pub proof fn lemma_decode_of_encoding(image: Raster, bytes: Seq<u8>)
    requires
        encode_obstacle(image) is None,
        is_encoding_of(bytes, image),
    ensures
        parse_jpeg(bytes) is Ok,
        parse_jpeg(bytes)->Ok_0.width == image.width,
        parse_jpeg(bytes)->Ok_0.height == image.height,
        forall|e: DecodeError| !fails_decoding(parse_jpeg(bytes)->Ok_0, e),
{
    let zigzag = choose|zigzag: Seq<ZigzagMcu>| #[trigger]
        is_coded_image(zigzag, image) && bytes == crate::writer::jfif_file(
            image.width as u16,
            image.height as u16,
            scan_bits(default_scan_codes(), zigzag),
        );
    let width = image.width as u16;
    let height = image.height as u16;
    let scan = scan_bits(default_scan_codes(), zigzag);
    lemma_file_round_trip(width, height, scan);
    lemma_coded_image(zigzag, image);
    let parsed = parsed_encoding(width, height, scan);
    assert forall|e: DecodeError| !fails_decoding(parsed, e) by {
        if fails_decoding(parsed, e) {
            let data = choose|data: CompleteJpegData| #[trigger]
                data.holds(parsed) && (scan_units(data) == Err::<Seq<Seq<i16>>, DecodeError>(e)
                    || exists|collection: DecodeZigzagMcuCollection| #[trigger]
                    is_decoded_scan(collection, data, parsed) && collection.obstacle() == Some(e));
            lemma_scan_of_encoding(data, width, height, zigzag);
            let collection = choose|collection: DecodeZigzagMcuCollection| #[trigger]
                is_decoded_scan(collection, data, parsed) && collection.obstacle() == Some(e);
            lemma_components_of_encoding(data, width, height, scan);
            lemma_scan_unit_list_len(zigzag);
            lemma_mcu_counts_agree(width as int, height as int);
            assert(collection.mcus_y() * collection.mcus_x() == zigzag.len());
            assert(collection.obstacle() is None);
        }
    }
}

/// Decoding the file of an image gives an image, of the size of the image
/// that was encoded.
pub proof fn lemma_round_trip_size(image: Raster, bytes: Seq<u8>, r: Result<Raster, DecodeError>)
    requires
        encode_obstacle(image) is None,
        is_encoding_of(bytes, image),
        is_decode_result(bytes, r),
    ensures
        r is Ok,
        r->Ok_0.width == image.width,
        r->Ok_0.height == image.height,
{
    lemma_decode_of_encoding(image, bytes);
    if r is Err {
        assert(!fails_decoding(parse_jpeg(bytes)->Ok_0, r->Err_0));
    }
}

} // verus!
