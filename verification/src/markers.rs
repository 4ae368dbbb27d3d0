//! The marker segments of a JFIF file and the bytes that each is written as.

use crate::bytes::be16;
use crate::bytes::buffer_bytes;
use crate::bytes::buffer_into_vec;
use crate::bytes::buffer_new;
use crate::bytes::buffer_sequential;
use crate::bytes::buffer_write_bytes;
use crate::bytes::buffer_write_u16;
use crate::bytes::buffer_write_u8;
use vstd::prelude::*;

verus! {

/// Start of image: `FF D8`.
#[derive(Debug)]
pub struct SOI;

/// The JFIF application segment: `FF E0`.
#[derive(Debug)]
pub struct APP0 {
    /// Length of the segment without its marker; 16 for a segment without thumbnail.
    pub length: u16,
    pub identifier: [u8; 5],
    pub major_version: u8,
    pub minor_version: u8,
    pub units: u8,
    pub x_density: u16,
    pub y_density: u16,
    pub x_thumbnail: u8,
    pub y_thumbnail: u8,
}

/// A quantization table segment: `FF DB`.
#[derive(Debug)]
pub struct DQT {
    /// Length of the segment without its marker: 131 with 16-bit entries, 67 with
    /// 8-bit entries.
    pub length: u16,
    /// Whether the entries are written with 16 bits each; with 8 bits otherwise.
    pub is_precision_16: bool,
    /// The table's number, 0 to 3.
    pub id: u8,
    /// The entries, in zigzag order.
    pub table: [u16; 64],
}

/// One component of a frame header.
#[derive(Debug)]
pub struct SOF0Component {
    pub id: u8,
    pub horizontal_sampling_factor: u8,
    pub vertical_sampling_factor: u8,
    /// The number of the component's quantization table.
    pub quantization_id: u8,
}

/// The frame header of a baseline image: `FF C0`.
#[derive(Debug)]
pub struct SOF0 {
    /// Length of the segment without its marker: 17 with three components.
    pub length: u16,
    /// Bits per sample; only 8 is decoded.
    pub precision: u8,
    /// The image's height.
    pub lines: u16,
    /// The image's width.
    pub samples_per_line: u16,
    pub components: Vec<SOF0Component>,
}

/// A Huffman table segment: `FF C4`.
#[derive(Debug)]
pub struct DHT {
    /// Length of the segment without its marker.
    pub length: u16,
    /// 0 for a table of DC codes, 1 for a table of AC codes.
    pub table_class: u8,
    /// The table's number within its class.
    pub id: u8,
    /// `codes[i]` is the number of codewords of `i + 1` bits.
    pub codes: [u8; 16],
    /// The symbols, in the order of their codewords.
    pub values: Vec<u8>,
}

/// One component of a scan header.
#[derive(Debug)]
pub struct SOSComponent {
    pub id: u8,
    pub dc_huffman_id: u8,
    pub ac_huffman_id: u8,
}

/// The scan header: `FF DA`.
#[derive(Debug)]
pub struct SOS {
    /// Length of the segment without its marker: 12 with three components.
    pub length: u16,
    pub components: Vec<SOSComponent>,
    /// First coefficient of the scan; 0 in a baseline file.
    pub ss: u8,
    /// Last coefficient of the scan; 63 in a baseline file.
    pub se: u8,
    /// Successive approximation, high; 0 in a baseline file.
    pub ah: u8,
    /// Successive approximation, low; 0 in a baseline file.
    pub al: u8,
}

/// End of image: `FF D9`.
#[derive(Debug)]
pub struct EOI;

/// The entropy-coded data of the scan, byte-stuffed. It has no marker of its own.
#[derive(Debug)]
pub struct ImageData(pub Vec<u8>);

/// One byte whose high four bits are `hi` and whose low four bits are `lo`.
/// Bits of `hi` above the fourth are lost, as they are on the wire.
pub open spec fn pack_nibbles(hi: u8, lo: u8) -> u8 {
    (hi << 4) | lo
}

/// [`pack_nibbles`], computed.
pub fn nibbles(hi: u8, lo: u8) -> (r: u8)
    ensures
        r == pack_nibbles(hi, lo),
{
    (hi << 4) | lo
}

/// A segment that can be written out.
pub trait ToVec {
    /// The bytes of the segment on the wire, its marker included.
    spec fn wire(&self) -> Seq<u8>;

    /// Writes the segment out.
    fn to_vec(&self) -> (r: Vec<u8>)
        ensures
            r@ == self.wire(),
    ;
}

impl Default for APP0 {
    /// The segment of a JFIF 1.1 file without density units and without thumbnail.
    fn default() -> (r: Self)
        ensures
            r.length == 16,
            r.identifier@ == seq![0x4Au8, 0x46u8, 0x49u8, 0x46u8, 0u8],
            r.major_version == 1,
            r.minor_version == 1,
            r.units == 0,
            r.x_density == 1,
            r.y_density == 1,
            r.x_thumbnail == 0,
            r.y_thumbnail == 0,
    {
        Self {
            length: 16,
            identifier: [0x4A, 0x46, 0x49, 0x46, 0x00],
            major_version: 1,
            minor_version: 1,
            units: 0,
            x_density: 1,
            y_density: 1,
            x_thumbnail: 0,
            y_thumbnail: 0,
        }
    }
}

impl Default for DQT {
    /// Table 0 with 16-bit entries, all of them zero.
    fn default() -> (r: Self)
        ensures
            r.length == 131,
            r.is_precision_16,
            r.id == 0,
            r.table@ == Seq::new(64, |i: int| 0u16),
    {
        let r = Self { length: 131, is_precision_16: true, id: 0, table: [0;64] };
        assert(r.table@ =~= Seq::new(64, |i: int| 0u16));
        r
    }
}

/// The three components of a 4:2:2 frame: luminance sampled twice per
/// chrominance sample in a row, with table 0; the chrominances with table 1.
pub open spec fn default_frame_components() -> Seq<SOF0Component> {
    seq![
        SOF0Component {
            id: 1,
            horizontal_sampling_factor: 2,
            vertical_sampling_factor: 1,
            quantization_id: 0,
        },
        SOF0Component {
            id: 2,
            horizontal_sampling_factor: 1,
            vertical_sampling_factor: 1,
            quantization_id: 1,
        },
        SOF0Component {
            id: 3,
            horizontal_sampling_factor: 1,
            vertical_sampling_factor: 1,
            quantization_id: 1,
        },
    ]
}

impl Default for SOF0 {
    /// The header of an 8-bit 4:2:2 frame whose size is still to be set.
    fn default() -> (r: Self)
        ensures
            r.length == 17,
            r.precision == 8,
            r.lines == 0,
            r.samples_per_line == 0,
            r.components@ == default_frame_components(),
    {
        let mut components: Vec<SOF0Component> = Vec::new();
        components.push(
            SOF0Component {
                id: 1,
                horizontal_sampling_factor: 2,
                vertical_sampling_factor: 1,
                quantization_id: 0,
            },
        );
        components.push(
            SOF0Component {
                id: 2,
                horizontal_sampling_factor: 1,
                vertical_sampling_factor: 1,
                quantization_id: 1,
            },
        );
        components.push(
            SOF0Component {
                id: 3,
                horizontal_sampling_factor: 1,
                vertical_sampling_factor: 1,
                quantization_id: 1,
            },
        );
        assert(components@ =~= default_frame_components());
        Self { length: 17, precision: 8, lines: 0, samples_per_line: 0, components }
    }
}

/// The components of the scan header that [`SOS::default`] gives.
pub open spec fn default_scan_components() -> Seq<SOSComponent> {
    seq![
        SOSComponent { id: 1, dc_huffman_id: 0, ac_huffman_id: 1 },
        SOSComponent { id: 2, dc_huffman_id: 2, ac_huffman_id: 3 },
        SOSComponent { id: 3, dc_huffman_id: 2, ac_huffman_id: 3 },
    ]
}

impl Default for SOS {
    /// A baseline scan header of three components, which name the DC tables 0
    /// and 2 and the AC tables 1 and 3.
    fn default() -> (r: Self)
        ensures
            r.length == 12,
            r.components@ == default_scan_components(),
            r.ss == 0,
            r.se == 63,
            r.ah == 0,
            r.al == 0,
    {
        let mut components: Vec<SOSComponent> = Vec::new();
        components.push(SOSComponent { id: 1, dc_huffman_id: 0, ac_huffman_id: 1 });
        components.push(SOSComponent { id: 2, dc_huffman_id: 2, ac_huffman_id: 3 });
        components.push(SOSComponent { id: 3, dc_huffman_id: 2, ac_huffman_id: 3 });
        assert(components@ =~= default_scan_components());
        Self { length: 12, components, ss: 0, se: 63, ah: 0, al: 0 }
    }
}

/// The entries of a quantization table as they are written: two bytes each,
/// the high byte first, or the low byte alone.
pub open spec fn table_wire(table: Seq<u16>, is_precision_16: bool) -> Seq<u8>
    decreases table.len(),
{
    if table.len() == 0 {
        Seq::empty()
    } else if is_precision_16 {
        table_wire(table.drop_last(), is_precision_16) + be16(table.last())
    } else {
        table_wire(table.drop_last(), is_precision_16).push((table.last() % 256) as u8)
    }
}

/// The components of a frame header as they are written: three bytes each.
pub open spec fn frame_components_wire(components: Seq<SOF0Component>) -> Seq<u8>
    decreases components.len(),
{
    if components.len() == 0 {
        Seq::empty()
    } else {
        frame_components_wire(components.drop_last()) + seq![
            components.last().id,
            pack_nibbles(
                components.last().horizontal_sampling_factor,
                components.last().vertical_sampling_factor,
            ),
            components.last().quantization_id,
        ]
    }
}

/// The components of a scan header as they are written: two bytes each.
pub open spec fn scan_components_wire(components: Seq<SOSComponent>) -> Seq<u8>
    decreases components.len(),
{
    if components.len() == 0 {
        Seq::empty()
    } else {
        scan_components_wire(components.drop_last()) + seq![
            components.last().id,
            pack_nibbles(components.last().dc_huffman_id, components.last().ac_huffman_id),
        ]
    }
}

impl ImageData {
    /// Scan data without bytes.
    pub fn new() -> (r: Self)
        ensures
            r.0@ == Seq::<u8>::empty(),
    {
        Self(Vec::new())
    }
}

impl ToVec for SOI {
    open spec fn wire(&self) -> Seq<u8> {
        seq![0xFFu8, 0xD8u8]
    }

    fn to_vec(&self) -> (r: Vec<u8>) {
        let mut r: Vec<u8> = Vec::new();
        r.push(0xFF);
        r.push(0xD8);
        assert(r@ =~= self.wire());
        r
    }
}

impl ToVec for EOI {
    open spec fn wire(&self) -> Seq<u8> {
        seq![0xFFu8, 0xD9u8]
    }

    fn to_vec(&self) -> (r: Vec<u8>) {
        let mut r: Vec<u8> = Vec::new();
        r.push(0xFF);
        r.push(0xD9);
        assert(r@ =~= self.wire());
        r
    }
}

impl ToVec for APP0 {
    open spec fn wire(&self) -> Seq<u8> {
        seq![0xFFu8, 0xE0u8] + be16(self.length) + self.identifier@ + seq![
            self.major_version,
            self.minor_version,
            self.units,
        ] + be16(self.x_density) + be16(self.y_density) + seq![self.x_thumbnail, self.y_thumbnail]
    }

    fn to_vec(&self) -> (r: Vec<u8>) {
        let mut ret = buffer_new();
        let marker: [u8; 2] = [0xFF, 0xE0];
        buffer_write_bytes(&mut ret, &marker);
        buffer_write_u16(&mut ret, self.length);
        buffer_write_bytes(&mut ret, &self.identifier);
        buffer_write_u8(&mut ret, self.major_version);
        buffer_write_u8(&mut ret, self.minor_version);
        buffer_write_u8(&mut ret, self.units);
        buffer_write_u16(&mut ret, self.x_density);
        buffer_write_u16(&mut ret, self.y_density);
        buffer_write_u8(&mut ret, self.x_thumbnail);
        buffer_write_u8(&mut ret, self.y_thumbnail);
        assert(buffer_bytes(ret) =~= self.wire());
        buffer_into_vec(ret)
    }
}

/// A quantization table segment on the wire.
pub open spec fn dqt_wire(length: u16, is_precision_16: bool, id: u8, table: Seq<u16>) -> Seq<u8> {
    seq![0xFFu8, 0xDBu8] + be16(length) + seq![
        pack_nibbles(if is_precision_16 { 1u8 } else { 0u8 }, id),
    ] + table_wire(table, is_precision_16)
}

/// A frame header on the wire.
pub open spec fn sof0_wire(
    length: u16,
    precision: u8,
    lines: u16,
    samples_per_line: u16,
    components: Seq<SOF0Component>,
) -> Seq<u8> {
    seq![0xFFu8, 0xC0u8] + be16(length) + seq![precision] + be16(lines) + be16(samples_per_line)
        + seq![(components.len() % 256) as u8] + frame_components_wire(components)
}

/// A Huffman table segment on the wire.
pub open spec fn dht_wire(length: u16, table_class: u8, id: u8, codes: Seq<u8>,
    values: Seq<u8>) -> Seq<
    u8,
> {
    seq![0xFFu8, 0xC4u8] + be16(length) + seq![pack_nibbles(table_class, id)] + codes + values
}

/// A scan header on the wire.
pub open spec fn sos_wire(
    length: u16,
    components: Seq<SOSComponent>,
    ss: u8,
    se: u8,
    ah: u8,
    al: u8,
) -> Seq<u8> {
    seq![0xFFu8, 0xDAu8] + be16(length) + seq![(components.len() % 256) as u8]
        + scan_components_wire(components) + seq![ss, se, pack_nibbles(ah, al)]
}

impl ToVec for DQT {
    open spec fn wire(&self) -> Seq<u8> {
        dqt_wire(self.length, self.is_precision_16, self.id, self.table@)
    }

    fn to_vec(&self) -> (r: Vec<u8>) {
        let mut ret = buffer_new();
        let marker: [u8; 2] = [0xFF, 0xDB];
        buffer_write_bytes(&mut ret, &marker);
        buffer_write_u16(&mut ret, self.length);
        let precision: u8 = if self.is_precision_16 { 1 } else { 0 };
        buffer_write_u8(&mut ret, nibbles(precision, self.id));
        let ghost head = buffer_bytes(ret);
        assert(head =~= seq![0xFFu8, 0xDBu8] + be16(self.length) + seq![
            pack_nibbles(if self.is_precision_16 { 1u8 } else { 0u8 }, self.id),
        ]);
        let mut i: usize = 0;
        while i < 64
            invariant
                i <= 64,
                buffer_sequential(ret),
                buffer_bytes(ret) == head + table_wire(
                    self.table@.take(i as int),
                    self.is_precision_16,
                ),
            decreases 64 - i,
        {
            let value = self.table[i];
            proof {
                assert(self.table@.take(i + 1).drop_last() =~= self.table@.take(i as int));
            }
            if self.is_precision_16 {
                buffer_write_u16(&mut ret, value);
            } else {
                buffer_write_u8(&mut ret, (value % 256) as u8);
            }
            assert(buffer_bytes(ret) =~= head + table_wire(
                self.table@.take(i + 1),
                self.is_precision_16,
            ));
            i += 1;
        }
        assert(self.table@.take(64) =~= self.table@);
        buffer_into_vec(ret)
    }
}

impl ToVec for SOF0 {
    open spec fn wire(&self) -> Seq<u8> {
        sof0_wire(
            self.length,
            self.precision,
            self.lines,
            self.samples_per_line,
            self.components@,
        )
    }

    fn to_vec(&self) -> (r: Vec<u8>) {
        let mut ret = buffer_new();
        let marker: [u8; 2] = [0xFF, 0xC0];
        buffer_write_bytes(&mut ret, &marker);
        buffer_write_u16(&mut ret, self.length);
        buffer_write_u8(&mut ret, self.precision);
        buffer_write_u16(&mut ret, self.lines);
        buffer_write_u16(&mut ret, self.samples_per_line);
        buffer_write_u8(&mut ret, (self.components.len() % 256) as u8);
        let ghost head = buffer_bytes(ret);
        assert(head =~= seq![0xFFu8, 0xC0u8] + be16(self.length) + seq![self.precision] + be16(
            self.lines,
        ) + be16(self.samples_per_line) + seq![(self.components@.len() % 256) as u8]);
        let n = self.components.len();
        let mut i: usize = 0;
        while i < n
            invariant
                i <= n,
                n == self.components@.len(),
                buffer_sequential(ret),
                buffer_bytes(ret) == head + frame_components_wire(self.components@.take(i as int)),
            decreases n - i,
        {
            let component = &self.components[i];
            proof {
                assert(self.components@.take(i + 1).drop_last() =~= self.components@.take(
                    i as int,
                ));
            }
            buffer_write_u8(&mut ret, component.id);
            buffer_write_u8(
                &mut ret,
                nibbles(component.horizontal_sampling_factor, component.vertical_sampling_factor),
            );
            buffer_write_u8(&mut ret, component.quantization_id);
            assert(buffer_bytes(ret) =~= head + frame_components_wire(
                self.components@.take(i + 1),
            ));
            i += 1;
        }
        assert(self.components@.take(n as int) =~= self.components@);
        buffer_into_vec(ret)
    }
}

impl ToVec for DHT {
    open spec fn wire(&self) -> Seq<u8> {
        dht_wire(self.length, self.table_class, self.id, self.codes@, self.values@)
    }

    fn to_vec(&self) -> (r: Vec<u8>) {
        let mut ret = buffer_new();
        let marker: [u8; 2] = [0xFF, 0xC4];
        buffer_write_bytes(&mut ret, &marker);
        buffer_write_u16(&mut ret, self.length);
        buffer_write_u8(&mut ret, nibbles(self.table_class, self.id));
        buffer_write_bytes(&mut ret, &self.codes);
        buffer_write_bytes(&mut ret, self.values.as_slice());
        assert(buffer_bytes(ret) =~= self.wire());
        buffer_into_vec(ret)
    }
}

impl ToVec for SOS {
    open spec fn wire(&self) -> Seq<u8> {
        sos_wire(self.length, self.components@, self.ss, self.se, self.ah, self.al)
    }

    fn to_vec(&self) -> (r: Vec<u8>) {
        let mut ret = buffer_new();
        let marker: [u8; 2] = [0xFF, 0xDA];
        buffer_write_bytes(&mut ret, &marker);
        buffer_write_u16(&mut ret, self.length);
        buffer_write_u8(&mut ret, (self.components.len() % 256) as u8);
        let ghost head = buffer_bytes(ret);
        assert(head =~= seq![0xFFu8, 0xDAu8] + be16(self.length) + seq![
            (self.components@.len() % 256) as u8,
        ]);
        let n = self.components.len();
        let mut i: usize = 0;
        while i < n
            invariant
                i <= n,
                n == self.components@.len(),
                buffer_sequential(ret),
                buffer_bytes(ret) == head + scan_components_wire(self.components@.take(i as int)),
            decreases n - i,
        {
            let component = &self.components[i];
            proof {
                assert(self.components@.take(i + 1).drop_last() =~= self.components@.take(
                    i as int,
                ));
            }
            buffer_write_u8(&mut ret, component.id);
            buffer_write_u8(&mut ret, nibbles(component.dc_huffman_id, component.ac_huffman_id));
            assert(buffer_bytes(ret) =~= head + scan_components_wire(
                self.components@.take(i + 1),
            ));
            i += 1;
        }
        assert(self.components@.take(n as int) =~= self.components@);
        buffer_write_u8(&mut ret, self.ss);
        buffer_write_u8(&mut ret, self.se);
        buffer_write_u8(&mut ret, nibbles(self.ah, self.al));
        assert(buffer_bytes(ret) =~= self.wire());
        buffer_into_vec(ret)
    }
}

impl ToVec for ImageData {
    open spec fn wire(&self) -> Seq<u8> {
        self.0@
    }

    fn to_vec(&self) -> (r: Vec<u8>) {
        self.0.clone()
    }
}

} // verus!
