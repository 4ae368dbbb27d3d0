//! The file writer: the segments of a JFIF file, put together in order.

use crate::bytes::be16;
use crate::bytes::buffer_bytes;
use crate::bytes::buffer_into_vec;
use crate::bytes::buffer_new;
use crate::bytes::buffer_write_bytes;
use crate::entropy::JpegOutputData;
use crate::error::EncodeError;
use crate::huffman::JpegHuffmanTable;
use crate::markers::default_frame_components;
use crate::markers::dht_wire;
use crate::markers::dqt_wire;
use crate::markers::sof0_wire;
use crate::markers::sos_wire;
use crate::markers::SOSComponent;
use crate::markers::ToVec;
use crate::markers::APP0;
use crate::markers::DHT;
use crate::markers::DQT;
use crate::markers::EOI;
use crate::markers::SOF0;
use crate::markers::SOI;
use crate::markers::SOS;
use crate::quant::chrominance_quantization_table;
use crate::quant::luminance_quantization_table;
use crate::quant::QuantizationTable;
use crate::quant::CHROMINANCE_QUANTIZATION_CELLS;
use crate::quant::LUMINANCE_QUANTIZATION_CELLS;
use crate::stuffing::pack_bytes;
use crate::stuffing::padded_scan;
use crate::stuffing::stuff;
use crate::tables::default_chroma_ac_huffman_table;
use crate::tables::default_chroma_dc_huffman_table;
use crate::tables::default_luminance_ac_huffman_table;
use crate::tables::default_luminance_dc_huffman_table;
use crate::tables::DEFAULT_CHROMA_AC_CODES;
use crate::tables::DEFAULT_CHROMA_AC_VALUES;
use crate::tables::DEFAULT_CHROMA_DC_CODES;
use crate::tables::DEFAULT_CHROMA_DC_VALUES;
use crate::tables::DEFAULT_LUMINANCE_AC_CODES;
use crate::tables::DEFAULT_LUMINANCE_AC_VALUES;
use crate::tables::DEFAULT_LUMINANCE_DC_CODES;
use crate::tables::DEFAULT_LUMINANCE_DC_VALUES;
use crate::zigzag::is_zigzag_of;
use crate::zigzag::lemma_zigzag_sequence;
use crate::zigzag::zigzag_scan;
use crate::zigzag::zigzag_sequence;
use vstd::prelude::*;

verus! {

impl QuantizationTable {
    /// The segment that carries this table under the number `id`: its entries
    /// in zigzag order, with 16 bits each.
    pub fn to_dqt(&self, id: u8) -> (r: DQT)
        ensures
            r.length == 131,
            r.is_precision_16,
            r.id == id,
            is_zigzag_of(r.table@, self.0@),
    {
        let mut table = DQT::default();
        table.id = id;
        table.table = zigzag_scan(&self.0, 0u16);
        table
    }
}

impl JpegHuffmanTable {
    /// The segment that carries this table under the number `id` in the class
    /// `table_class`. The table must be short enough for the segment's length
    /// to fit its 16 bits.
    pub fn to_dht(&self, id: u8, table_class: u8) -> (r: DHT)
        requires
            self.values@.len() <= 65516,
        ensures
            r.length == 19 + self.values@.len(),
            r.table_class == table_class,
            r.id == id,
            r.codes@ == self.codes@,
            r.values@ == self.values@,
    {
        DHT {
            length: 2 + 1 + 16 + self.values.len() as u16,
            table_class,
            id,
            codes: self.codes,
            values: self.values.clone(),
        }
    }
}

/// The components of the scan header that the encoder writes: luminance with
/// the tables 0, the chrominances with the tables 1.
pub open spec fn baseline_scan_components() -> Seq<SOSComponent> {
    seq![
        SOSComponent { id: 1, dc_huffman_id: 0, ac_huffman_id: 0 },
        SOSComponent { id: 2, dc_huffman_id: 1, ac_huffman_id: 1 },
        SOSComponent { id: 3, dc_huffman_id: 1, ac_huffman_id: 1 },
    ]
}

impl SOS {
    /// The scan header that goes with the four tables as the encoder numbers
    /// them.
    pub fn baseline() -> (r: Self)
        ensures
            r.length == 12,
            r.components@ == baseline_scan_components(),
            r.ss == 0,
            r.se == 63,
            r.ah == 0,
            r.al == 0,
    {
        let mut components: Vec<SOSComponent> = Vec::new();
        components.push(SOSComponent { id: 1, dc_huffman_id: 0, ac_huffman_id: 0 });
        components.push(SOSComponent { id: 2, dc_huffman_id: 1, ac_huffman_id: 1 });
        components.push(SOSComponent { id: 3, dc_huffman_id: 1, ac_huffman_id: 1 });
        assert(components@ =~= baseline_scan_components());
        Self { length: 12, components, ss: 0, se: 63, ah: 0, al: 0 }
    }
}

/// The JFIF segment that the encoder writes: version 1.1, no density units,
/// no thumbnail.
pub open spec fn default_app0_wire() -> Seq<u8> {
    seq![0xFFu8, 0xE0u8] + be16(16) + seq![0x4Au8, 0x46u8, 0x49u8, 0x46u8, 0u8] + seq![
        1u8,
        1u8,
        0u8,
    ] + be16(1) + be16(1) + seq![0u8, 0u8]
}

/// The segments of a file before its scan data: start of image, JFIF segment,
/// the two quantization tables, the frame header, the four Huffman tables and
/// the scan header.
pub open spec fn jfif_header(width: u16, height: u16) -> Seq<u8> {
    seq![0xFFu8, 0xD8u8] + default_app0_wire() + dqt_wire(
        131,
        true,
        0,
        zigzag_sequence(LUMINANCE_QUANTIZATION_CELLS@),
    ) + dqt_wire(131, true, 1, zigzag_sequence(CHROMINANCE_QUANTIZATION_CELLS@)) + sof0_wire(
        17,
        8,
        height,
        width,
        default_frame_components(),
    ) + dht_wire(31, 0, 0, DEFAULT_LUMINANCE_DC_CODES@, DEFAULT_LUMINANCE_DC_VALUES@) + dht_wire(
        181,
        1,
        0,
        DEFAULT_LUMINANCE_AC_CODES@,
        DEFAULT_LUMINANCE_AC_VALUES@,
    ) + dht_wire(31, 0, 1, DEFAULT_CHROMA_DC_CODES@, DEFAULT_CHROMA_DC_VALUES@) + dht_wire(
        181,
        1,
        1,
        DEFAULT_CHROMA_AC_CODES@,
        DEFAULT_CHROMA_AC_VALUES@,
    ) + sos_wire(12, baseline_scan_components(), 0, 63, 0, 0)
}

/// A whole file: the header segments, the scan as stuffed bytes, and the
/// end-of-image marker.
pub open spec fn jfif_file(width: u16, height: u16, scan: Seq<bool>) -> Seq<u8> {
    jfif_header(width, height) + stuff(pack_bytes(padded_scan(scan))) + seq![0xFFu8, 0xD9u8]
}

/// Puts the file together from the coded scan.
///
/// An image without pixels is refused, and so is one whose width or height
/// does not fit the 16 bits that the frame header has for it.
pub fn encode_step7(data: &JpegOutputData) -> (r: Result<Vec<u8>, EncodeError>)
    ensures
        data.original_width == 0 || data.original_height == 0 ==> r == Err::<
            Vec<u8>,
            EncodeError,
        >(EncodeError::EmptyImage),
        data.original_width != 0 && data.original_height != 0 && (data.original_width > 65535
            || data.original_height > 65535) ==> r == Err::<Vec<u8>, EncodeError>(
            EncodeError::InvalidDimensions,
        ),
        0 < data.original_width <= 65535 && 0 < data.original_height <= 65535 ==> r is Ok
            && r->Ok_0@ == jfif_file(
            data.original_width as u16,
            data.original_height as u16,
            data.scan@,
        ),
{
    if data.original_width == 0 || data.original_height == 0 {
        return Err(EncodeError::EmptyImage);
    }
    if data.original_width > 65535 || data.original_height > 65535 {
        return Err(EncodeError::InvalidDimensions);
    }
    let soi = SOI;
    let app0 = APP0::default();
    let luminance_dqt = luminance_quantization_table().to_dqt(0);
    let chrominance_dqt = chrominance_quantization_table().to_dqt(1);
    let mut sof0 = SOF0::default();
    sof0.lines = data.original_height as u16;
    sof0.samples_per_line = data.original_width as u16;
    let luminance_dc = default_luminance_dc_huffman_table().to_dht(0, 0);
    let luminance_ac = default_luminance_ac_huffman_table().to_dht(0, 1);
    let chroma_dc = default_chroma_dc_huffman_table().to_dht(1, 0);
    let chroma_ac = default_chroma_ac_huffman_table().to_dht(1, 1);
    let sos = SOS::baseline();
    let image_data = data.to_image_data();
    let eoi = EOI;
    proof {
        lemma_zigzag_sequence(luminance_dqt.table@, LUMINANCE_QUANTIZATION_CELLS@);
        lemma_zigzag_sequence(chrominance_dqt.table@, CHROMINANCE_QUANTIZATION_CELLS@);
        assert(app0.wire() =~= default_app0_wire());
    }
    let mut output = buffer_new();
    buffer_write_bytes(&mut output, soi.to_vec().as_slice());
    buffer_write_bytes(&mut output, app0.to_vec().as_slice());
    buffer_write_bytes(&mut output, luminance_dqt.to_vec().as_slice());
    buffer_write_bytes(&mut output, chrominance_dqt.to_vec().as_slice());
    buffer_write_bytes(&mut output, sof0.to_vec().as_slice());
    buffer_write_bytes(&mut output, luminance_dc.to_vec().as_slice());
    buffer_write_bytes(&mut output, luminance_ac.to_vec().as_slice());
    buffer_write_bytes(&mut output, chroma_dc.to_vec().as_slice());
    buffer_write_bytes(&mut output, chroma_ac.to_vec().as_slice());
    buffer_write_bytes(&mut output, sos.to_vec().as_slice());
    assert(buffer_bytes(output) =~= jfif_header(
        data.original_width as u16,
        data.original_height as u16,
    ));
    buffer_write_bytes(&mut output, image_data.to_vec().as_slice());
    buffer_write_bytes(&mut output, eoi.to_vec().as_slice());
    Ok(buffer_into_vec(output))
}

} // verus!
