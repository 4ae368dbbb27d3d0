//! The file reader: the marker segments of a JFIF file, taken in the order
//! that the format allows, and the scan behind them.

use crate::bits::bit_of;
use crate::bits::max_bits;
use crate::bits::BitString;
use crate::bytes::buffer_bytes;
use crate::bytes::buffer_from_bytes;
use crate::bytes::buffer_read_pos;
use crate::bytes::buffer_sequential;
use crate::error::DecodeError;
use crate::huffman::CachedHuffmanTable;
use crate::quant::QuantizationTable;
use crate::segments::app0_of;
use crate::segments::block_at;
use crate::segments::dht_of;
use crate::segments::dqt_of;
use crate::segments::parse_app0;
use crate::segments::parse_dht;
use crate::segments::parse_dqt;
use crate::segments::read_block;
use crate::segments::take_u8;
use crate::stuffing::read_scan;
use crate::stuffing::ScanEnd;
use crate::zigzag::is_zigzag_of;
use bytebuffer::ByteBuffer;
use std::collections::HashMap;
use std::rc::Rc;
use vstd::prelude::*;

verus! {

/// `Rc::clone`: another handle on the same shared value.
#[verifier::external_body]
pub(crate) fn share<T>(r: &Rc<T>) -> (res: Rc<T>)
    ensures
        *res == **r,
{
    Rc::clone(r)
}

/// A component of the image with the tables that it is decoded with.
#[derive(Debug, Clone)]
pub struct Component {
    pub horizontal_sampling_factor: u8,
    pub vertical_sampling_factor: u8,
    pub quatization_table: Rc<QuantizationTable>,
    pub dc_huffman_table: Rc<CachedHuffmanTable>,
    pub ac_huffman_table: Rc<CachedHuffmanTable>,
}

/// A component as the headers describe it: its tables by their numbers.
#[derive(Debug, Clone, Copy)]
pub struct TempComponent {
    pub horizontal_sampling_factor: u8,
    pub vertical_sampling_factor: u8,
    pub quatization_table_id: u8,
    pub dc_huffman_table_id: u8,
    pub ac_huffman_table_id: u8,
}

/// All that decoding an image needs, as read from its file.
#[derive(Debug)]
pub struct CompleteJpegData {
    /// The image's width in pixels.
    pub width: usize,
    /// The image's height in pixels.
    pub height: usize,
    pub components: Vec<Component>,
    /// The entropy-coded scan, without stuffing.
    pub scan: BitString,
}

impl Default for CompleteJpegData {
    /// An image without pixels, components or scan.
    fn default() -> (r: Self)
        ensures
            r.width == 0,
            r.height == 0,
            r.components@ == Seq::<Component>::empty(),
            r.scan@ == Seq::<bool>::empty(),
    {
        Self { width: 0, height: 0, components: Vec::new(), scan: BitString::new() }
    }
}

/// What a frame header says.
pub struct Frame {
    pub height: u16,
    pub width: u16,
    pub components: Seq<TempComponent>,
}

/// A sampling factor that is decoded.
pub open spec fn sampling_supported(f: u8) -> bool {
    f == 1 || f == 2
}

/// Component `i` of the frame header in a body.
pub open spec fn frame_component(block: Seq<u8>, i: int) -> TempComponent {
    TempComponent {
        horizontal_sampling_factor: block[7 + 3 * i] >> 4,
        vertical_sampling_factor: block[7 + 3 * i] & 0x0F,
        quatization_table_id: block[8 + 3 * i],
        dc_huffman_table_id: 0,
        ac_huffman_table_id: 0,
    }
}

/// Component `i` of the frame header in a body is sampled once or twice in
/// each direction.
pub open spec fn frame_component_supported(block: Seq<u8>, i: int) -> bool {
    sampling_supported(frame_component(block, i).horizontal_sampling_factor) && sampling_supported(
        frame_component(block, i).vertical_sampling_factor,
    )
}

/// The frame that a body spells: 8 bits per sample, three components, each
/// sampled once or twice in each direction.
pub open spec fn sof0_of(block: Seq<u8>) -> Result<Frame, DecodeError> {
    if block.len() < 1 {
        Err(DecodeError::BadLength)
    } else if block[0] != 8 {
        Err(DecodeError::UnsupportedFeature)
    } else if block.len() < 6 {
        Err(DecodeError::BadLength)
    } else if block[5] != 3 {
        Err(DecodeError::UnsupportedFeature)
    } else if block.len() != 15 {
        Err(DecodeError::BadLength)
    } else if !(frame_component_supported(block, 0) && frame_component_supported(block, 1)
        && frame_component_supported(block, 2)) {
        Err(DecodeError::UnsupportedFeature)
    } else {
        Ok(
            Frame {
                height: (block[1] * 256 + block[2]) as u16,
                width: (block[3] * 256 + block[4]) as u16,
                components: Seq::new(3, |i: int| frame_component(block, i)),
            },
        )
    }
}

/// Reads the body of a frame header: the image's size goes into `jpeg_data`,
/// the components are returned. On an error `jpeg_data` is left as it was.
pub fn parse_sof0(block: &[u8], jpeg_data: &mut CompleteJpegData) -> (r: Result<
    Vec<TempComponent>,
    DecodeError,
>)
    ensures
        match r {
            Ok(components) => sof0_of(block@) is Ok && components@ == sof0_of(
                block@,
            )->Ok_0.components && final(jpeg_data).height == sof0_of(block@)->Ok_0.height
                && final(jpeg_data).width == sof0_of(block@)->Ok_0.width
                    && final(jpeg_data).components == old(jpeg_data).components
                    && final(jpeg_data).scan == old(jpeg_data).scan,
            Err(e) => sof0_of(block@) == Err::<Frame, DecodeError>(e) && *final(jpeg_data)
                == *old(jpeg_data),
        },
{
    let mut buf = buffer_from_bytes(block);
    let mut ret: Vec<TempComponent> = Vec::new();
    let precision = match take_u8(&mut buf) {
        Ok(v) => v,
        Err(_) => { return Err(DecodeError::BadLength); },
    };
    if precision != 8 {
        return Err(DecodeError::UnsupportedFeature);
    }
    if block.len() < 6 {
        return Err(DecodeError::BadLength);
    }
    let height = crate::segments::take_u16(&mut buf)?;
    let width = crate::segments::take_u16(&mut buf)?;
    let n_components = take_u8(&mut buf)?;
    if n_components != 3 {
        return Err(DecodeError::UnsupportedFeature);
    }
    if block.len() != 15 {
        return Err(DecodeError::BadLength);
    }
    let mut i: usize = 0;
    while i < 3
        invariant
            i <= 3,
            buffer_sequential(buf),
            buffer_bytes(buf) == block@,
            block@.len() == 15,
            buffer_read_pos(buf) == 6 + 3 * i,
            ret@ == Seq::new(i as nat, |k: int| frame_component(block@, k)),
            forall|k: int| 0 <= k < i ==> #[trigger] frame_component_supported(block@, k),
        decreases 3 - i,
    {
        let _id = take_u8(&mut buf)?;
        let sampling_factors = take_u8(&mut buf)?;
        let horizontal_sampling_factor = sampling_factors >> 4;
        let vertical_sampling_factor = sampling_factors & 0x0F;
        let quatization_table_id = take_u8(&mut buf)?;
        if !((horizontal_sampling_factor == 1 || horizontal_sampling_factor == 2) && (
        vertical_sampling_factor == 1 || vertical_sampling_factor == 2)) {
            assert(!frame_component_supported(block@, i as int));
            return Err(DecodeError::UnsupportedFeature);
        }
        ret.push(
            TempComponent {
                horizontal_sampling_factor,
                vertical_sampling_factor,
                quatization_table_id,
                dc_huffman_table_id: 0,
                ac_huffman_table_id: 0,
            },
        );
        assert(ret@ =~= Seq::new((i + 1) as nat, |k: int| frame_component(block@, k)));
        assert(frame_component_supported(block@, i as int));
        i += 1;
    }
    jpeg_data.height = height as usize;
    jpeg_data.width = width as usize;
    Ok(ret)
}

/// The components of a frame with the Huffman tables that a scan header in a
/// body gives them.
pub open spec fn scan_component(block: Seq<u8>, components: Seq<TempComponent>,
    i: int) -> TempComponent {
    TempComponent {
        dc_huffman_table_id: block[2 + 2 * i] >> 4,
        ac_huffman_table_id: block[2 + 2 * i] & 0x0F,
        ..components[i]
    }
}

/// What a scan header in a body makes of the components of the frame: it
/// names the Huffman tables of each. The scan must hold all the components of
/// the frame and all 64 coefficients at full precision.
pub open spec fn sos_of(block: Seq<u8>, components: Seq<TempComponent>) -> Result<
    Seq<TempComponent>,
    DecodeError,
> {
    if block.len() < 1 {
        Err(DecodeError::BadLength)
    } else if block[0] != components.len() {
        Err(DecodeError::UnsupportedFeature)
    } else if block.len() != 4 + 2 * components.len() {
        Err(DecodeError::BadLength)
    } else if block[block.len() - 3] != 0 || block[block.len() - 2] != 63 || block[block.len() - 1]
        != 0 {
        Err(DecodeError::UnsupportedFeature)
    } else {
        Ok(Seq::new(components.len(), |i: int| scan_component(block, components, i)))
    }
}

/// Reads the body of a scan header and notes in each component the Huffman
/// tables that the header names for it. On an error the components are left
/// as they were.
pub fn parse_sos(block: &[u8], temp_components: &mut Vec<TempComponent>) -> (r: Result<
    (),
    DecodeError,
>)
    ensures
        match r {
            Ok(_) => sos_of(block@, old(temp_components)@) == Ok::<
                Seq<TempComponent>,
                DecodeError,
            >(final(temp_components)@),
            Err(e) => sos_of(block@, old(temp_components)@) == Err::<
                Seq<TempComponent>,
                DecodeError,
            >(e) && final(temp_components)@ == old(temp_components)@,
        },
{
    let mut buf = buffer_from_bytes(block);
    let n_components = match take_u8(&mut buf) {
        Ok(v) => v as usize,
        Err(_) => { return Err(DecodeError::BadLength); },
    };
    let n = temp_components.len();
    if n_components != n {
        return Err(DecodeError::UnsupportedFeature);
    }
    if block.len() != 4 + 2 * n {
        return Err(DecodeError::BadLength);
    }
    if block[block.len() - 3] != 0 || block[block.len() - 2] != 63 || block[block.len() - 1] != 0 {
        return Err(DecodeError::UnsupportedFeature);
    }
    let ghost before = temp_components@;
    let mut i: usize = 0;
    while i < n
        invariant
            i <= n,
            n <= 255,
            n == before.len(),
            temp_components@.len() == n,
            buffer_sequential(buf),
            buffer_bytes(buf) == block@,
            block@.len() == 4 + 2 * n,
            buffer_read_pos(buf) == 1 + 2 * i,
            forall|k: int| 0 <= k < i ==> temp_components@[k] == scan_component(block@, before, k),
            forall|k: int| i <= k < n ==> temp_components@[k] == before[k],
        decreases n - i,
    {
        let _id = take_u8(&mut buf)?;
        let tables = take_u8(&mut buf)?;
        let component = temp_components[i];
        temp_components[i] = TempComponent {
            dc_huffman_table_id: tables >> 4,
            ac_huffman_table_id: tables & 0x0F,
            ..component
        };
        i += 1;
    }
    assert(temp_components@ =~= Seq::new(n as nat, |i: int| scan_component(block@, before, i)));
    Ok(())
}

/// The bits of a sequence of bytes, the most significant bit of each byte
/// first.
pub open spec fn unpack_bits(data: Seq<u8>) -> Seq<bool> {
    Seq::new(8 * data.len(), |i: int| bit_of(data[i / 8] as nat, (7 - i % 8) as nat))
}

/// Reads the scan from the read cursor on, up to the end-of-image marker, and
/// leaves the cursor behind the marker. The stuffing is taken out.
pub fn parse_image_data(buf: &mut ByteBuffer) -> (r: Result<BitString, DecodeError>)
    requires
        buffer_sequential(*old(buf)),
        buffer_read_pos(*old(buf)) <= buffer_bytes(*old(buf)).len(),
        buffer_bytes(*old(buf)).len() * 8 <= max_bits(),
    ensures
        buffer_bytes(*final(buf)) == buffer_bytes(*old(buf)),
        buffer_sequential(*final(buf)),
        match read_scan(
            buffer_bytes(*old(buf)),
            buffer_read_pos(*old(buf)) as int,
            Seq::<u8>::empty(),
        ) {
            ScanEnd::Done { data, next } => r is Ok && r->Ok_0@ == unpack_bits(data)
                && buffer_read_pos(*final(buf)) == next,
            ScanEnd::Truncated => r == Err::<BitString, DecodeError>(DecodeError::TruncatedInput),
            ScanEnd::BadMarker => r == Err::<BitString, DecodeError>(DecodeError::BadMarker),
        },
{
    let mut ret = BitString::new();
    let ghost s = buffer_bytes(*buf);
    let ghost start = buffer_read_pos(*buf) as int;
    let ghost mut data = Seq::<u8>::empty();
    assert(unpack_bits(data) =~= Seq::<bool>::empty());
    loop
        invariant
            buffer_sequential(*buf),
            buffer_bytes(*buf) == s,
            s == buffer_bytes(*old(buf)),
            start == buffer_read_pos(*old(buf)),
            start <= buffer_read_pos(*buf) <= s.len(),
            s.len() * 8 <= max_bits(),
            read_scan(s, start, Seq::<u8>::empty()) == read_scan(
                s,
                buffer_read_pos(*buf) as int,
                data,
            ),
            ret@ == unpack_bits(data),
            data.len() <= buffer_read_pos(*buf) - start,
        decreases s.len() - buffer_read_pos(*buf),
    {
        let byte = take_u8(buf)?;
        let value = if byte != 0xFF {
            byte
        } else {
            let second = take_u8(buf)?;
            if second == 0xD9 {
                return Ok(ret);
            } else if second != 0x00 {
                return Err(DecodeError::BadMarker);
            }
            0xFFu8
        };
        let mut bits = BitString::from_value(value as usize, 8);
        ret.append(&mut bits);
        proof {
            let longer = data.push(value);
            assert(ret@ =~= unpack_bits(longer)) by {
                assert forall|i: int| 0 <= i < 8 * longer.len() implies ret@[i] == unpack_bits(
                    longer,
                )[i] by {
                    if i < 8 * data.len() {
                        assert(ret@[i] == unpack_bits(data)[i]);
                    }
                }
            }
            data = longer;
        }
    }
}

/// A Huffman table as a file carries it: the counts per length and the
/// symbols.
pub struct TableSpec {
    pub codes: Seq<u8>,
    pub values: Seq<u8>,
}

/// What the reader holds while it goes through the segments before the scan.
pub struct HeaderState {
    /// The frame header, once it has come.
    pub frame: Option<Frame>,
    /// The quantization tables by their numbers, the entries of each in the
    /// order of the wire.
    pub quantization: Map<u8, Seq<u16>>,
    /// The Huffman tables by the byte that holds class and number.
    pub huffman: Map<u8, TableSpec>,
}

/// A component with its tables, as the file gives them.
pub struct ResolvedComponent {
    pub horizontal_sampling_factor: u8,
    pub vertical_sampling_factor: u8,
    /// The entries of the quantization table in the order of the wire.
    pub quantization: Seq<u16>,
    pub dc: TableSpec,
    pub ac: TableSpec,
}

/// What a file says: the image's size, its components with their tables, and
/// the bytes of the scan without stuffing.
pub struct ParsedJpeg {
    pub width: u16,
    pub height: u16,
    pub components: Seq<ResolvedComponent>,
    pub scan: Seq<u8>,
}

/// The key of a Huffman table of AC codes.
pub open spec fn ac_key(id: u8) -> u8 {
    0x10 | id
}

/// The component with the tables that its numbers name, or the first table
/// that is missing: the quantization table, the table of DC codes, or the table
/// of AC codes.
pub open spec fn resolve_component(st: HeaderState, c: TempComponent) -> Result<
    ResolvedComponent,
    DecodeError,
> {
    if !st.quantization.contains_key(c.quatization_table_id) {
        Err(DecodeError::QuantizationTableMissing)
    } else if !st.huffman.contains_key(c.dc_huffman_table_id) {
        Err(DecodeError::HuffmanTableMissing)
    } else if !st.huffman.contains_key(ac_key(c.ac_huffman_table_id)) {
        Err(DecodeError::HuffmanTableMissing)
    } else {
        Ok(
            ResolvedComponent {
                horizontal_sampling_factor: c.horizontal_sampling_factor,
                vertical_sampling_factor: c.vertical_sampling_factor,
                quantization: st.quantization[c.quatization_table_id],
                dc: st.huffman[c.dc_huffman_table_id],
                ac: st.huffman[ac_key(c.ac_huffman_table_id)],
            },
        )
    }
}

/// The components with their tables, or the error of the first component that
/// lacks one.
pub open spec fn resolve_components(st: HeaderState, components: Seq<TempComponent>) -> Result<
    Seq<ResolvedComponent>,
    DecodeError,
>
    decreases components.len(),
{
    if components.len() == 0 {
        Ok(Seq::empty())
    } else {
        match resolve_components(st, components.drop_last()) {
            Err(e) => Err(e),
            Ok(before) => match resolve_component(st, components.last()) {
                Err(e) => Err(e),
                Ok(c) => Ok(before.push(c)),
            },
        }
    }
}

/// A marker of a coding process or a feature outside the baseline profile
/// that is decoded: a frame other than `C0`, arithmetic conditioning, or a
/// restart interval.
pub open spec fn is_unsupported_marker(m: u8) -> bool {
    (0xC1 <= m <= 0xCF && m != 0xC4) || m == 0xDD
}

/// Reads the segments from place `p` of the file on, `st` being what the
/// segments before have given.
///
/// Application segments are passed over. Tables are noted under their
/// numbers, a later one replacing an earlier one. The frame header may come
/// once, and the scan header only after it. Behind the scan header the scan is
/// read up to the end-of-image marker, and the tables of the components are
/// looked up.
pub open spec fn parse_from(s: Seq<u8>, p: int, st: HeaderState) -> Result<ParsedJpeg, DecodeError>
    decreases s.len() - p,
{
    if p < 0 || p + 2 > s.len() {
        Err(DecodeError::TruncatedInput)
    } else if s[p] != 0xFF {
        Err(DecodeError::BadMarker)
    } else if 0xE0 <= s[p + 1] <= 0xEF {
        match block_at(s, p + 2) {
            Err(e) => Err(e),
            Ok(block) => if s[p + 1] == 0xE0 && app0_of(block) is Err {
                Err(app0_of(block)->Err_0)
            } else {
                parse_from(s, p + 4 + block.len(), st)
            },
        }
    } else if s[p + 1] == 0xDB {
        match block_at(s, p + 2) {
            Err(e) => Err(e),
            Ok(block) => match dqt_of(block) {
                Err(e) => Err(e),
                Ok((id, entries)) => parse_from(
                    s,
                    p + 4 + block.len(),
                    HeaderState { quantization: st.quantization.insert(id, entries), ..st },
                ),
            },
        }
    } else if s[p + 1] == 0xC4 {
        match block_at(s, p + 2) {
            Err(e) => Err(e),
            Ok(block) => match dht_of(block) {
                Err(e) => Err(e),
                Ok((table_class, id, codes, values)) => parse_from(
                    s,
                    p + 4 + block.len(),
                    HeaderState {
                        huffman: st.huffman.insert(block[0], TableSpec { codes, values }),
                        ..st
                    },
                ),
            },
        }
    } else if s[p + 1] == 0xC0 {
        if st.frame is Some {
            Err(DecodeError::BadMarker)
        } else {
            match block_at(s, p + 2) {
                Err(e) => Err(e),
                Ok(block) => match sof0_of(block) {
                    Err(e) => Err(e),
                    Ok(frame) => parse_from(
                        s,
                        p + 4 + block.len(),
                        HeaderState { frame: Some(frame), ..st },
                    ),
                },
            }
        }
    } else if s[p + 1] == 0xDA {
        if st.frame is None {
            Err(DecodeError::BadMarker)
        } else {
            match block_at(s, p + 2) {
                Err(e) => Err(e),
                Ok(block) => match sos_of(block, st.frame->Some_0.components) {
                    Err(e) => Err(e),
                    Ok(components) => match read_scan(
                        s,
                        p + 4 + block.len(),
                        Seq::<u8>::empty(),
                    ) {
                        ScanEnd::Truncated => Err(DecodeError::TruncatedInput),
                        ScanEnd::BadMarker => Err(DecodeError::BadMarker),
                        ScanEnd::Done { data, next } => match resolve_components(st, components) {
                            Err(e) => Err(e),
                            Ok(resolved) => Ok(
                                ParsedJpeg {
                                    width: st.frame->Some_0.width,
                                    height: st.frame->Some_0.height,
                                    components: resolved,
                                    scan: data,
                                },
                            ),
                        },
                    },
                },
            }
        }
    } else if is_unsupported_marker(s[p + 1]) {
        Err(DecodeError::UnsupportedFeature)
    } else {
        Err(DecodeError::BadMarker)
    }
}

/// What the file `s` says: it starts with the start-of-image marker, and
/// [`parse_from`] reads the rest.
pub open spec fn parse_jpeg(s: Seq<u8>) -> Result<ParsedJpeg, DecodeError> {
    if s.len() < 2 {
        Err(DecodeError::TruncatedInput)
    } else if s[0] != 0xFF || s[1] != 0xD8 {
        Err(DecodeError::BadMarker)
    } else {
        parse_from(
            s,
            2,
            HeaderState { frame: None, quantization: Map::empty(), huffman: Map::empty() },
        )
    }
}

/// The table in its ready form is the table that the file gave.
pub open spec fn holds_table(table: CachedHuffmanTable, spec: TableSpec) -> bool {
    table.wf() && table.1.codes@ == spec.codes && table.1.values@ == spec.values
}

/// The component has the sampling factors and the tables of `r`.
pub open spec fn holds_component(c: Component, r: ResolvedComponent) -> bool {
    &&& c.horizontal_sampling_factor == r.horizontal_sampling_factor
    &&& c.vertical_sampling_factor == r.vertical_sampling_factor
    &&& is_zigzag_of(r.quantization, c.quatization_table.0@)
    &&& holds_table(*c.dc_huffman_table, r.dc)
    &&& holds_table(*c.ac_huffman_table, r.ac)
}

impl CompleteJpegData {
    /// This is what the file says.
    pub open spec fn holds(&self, parsed: ParsedJpeg) -> bool {
        &&& self.width == parsed.width
        &&& self.height == parsed.height
        &&& self.components@.len() == parsed.components.len()
        &&& forall|i: int|
            0 <= i < self.components@.len() ==> holds_component(
                #[trigger] self.components@[i],
                parsed.components[i],
            )
        &&& self.scan@ == unpack_bits(parsed.scan)
    }
}

/// The tables that the reader holds are those of `st`.
pub open spec fn holds_registry(
    quantization_tables: Map<u8, Rc<QuantizationTable>>,
    huffman_tables: Map<u8, Rc<CachedHuffmanTable>>,
    st: HeaderState,
) -> bool {
    &&& quantization_tables.dom() == st.quantization.dom()
    &&& forall|id: u8| #[trigger]
        st.quantization.contains_key(id) ==> is_zigzag_of(
            st.quantization[id],
            quantization_tables[id].0@,
        )
    &&& huffman_tables.dom() == st.huffman.dom()
    &&& forall|key: u8| #[trigger]
        st.huffman.contains_key(key) ==> holds_table(*huffman_tables[key], st.huffman[key])
}

/// Reads a file: its segments in the order that the format allows, then its
/// scan. The result is what [`parse_jpeg`] says of the bytes.
///
/// The file must be short enough for its scan to fit a bit string of this
/// machine.
pub fn decode_step1(buf: &[u8]) -> (r: Result<CompleteJpegData, DecodeError>)
    requires
        buf@.len() * 8 <= max_bits(),
    ensures
        match r {
            Ok(data) => parse_jpeg(buf@) is Ok && data.holds(parse_jpeg(buf@)->Ok_0),
            Err(e) => parse_jpeg(buf@) == Err::<ParsedJpeg, DecodeError>(e),
        },
{
    broadcast use vstd::std_specs::hash::group_hash_axioms;

    let mut ret = CompleteJpegData::default();
    let mut temp_components: Vec<TempComponent> = Vec::new();
    let mut has_frame = false;
    let mut quantization_tables: HashMap<u8, Rc<QuantizationTable>> = HashMap::new();
    let mut huffman_tables: HashMap<u8, Rc<CachedHuffmanTable>> = HashMap::new();
    let ghost s = buf@;
    let ghost mut st = HeaderState {
        frame: None,
        quantization: Map::empty(),
        huffman: Map::empty(),
    };
    let mut reader = buffer_from_bytes(buf);
    let first = take_u8(&mut reader)?;
    let second = take_u8(&mut reader)?;
    if first != 0xFF || second != 0xD8 {
        return Err(DecodeError::BadMarker);
    }
    assert(quantization_tables@.dom() =~= st.quantization.dom());
    assert(huffman_tables@.dom() =~= st.huffman.dom());
    loop
        invariant
            buffer_sequential(reader),
            s == buf@,
            buffer_bytes(reader) == s,
            s.len() * 8 <= max_bits(),
            2 <= buffer_read_pos(reader) <= s.len(),
            parse_jpeg(s) == parse_from(s, buffer_read_pos(reader) as int, st),
            holds_registry(quantization_tables@, huffman_tables@, st),
            has_frame == (st.frame is Some),
            has_frame ==> temp_components@ == st.frame->Some_0.components && ret.width
                == st.frame->Some_0.width && ret.height == st.frame->Some_0.height,
        decreases s.len() - buffer_read_pos(reader),
    {
        let ghost p = buffer_read_pos(reader) as int;
        let lead = take_u8(&mut reader);
        let kind = take_u8(&mut reader);
        let block_type = match (lead, kind) {
            (Ok(lead), Ok(kind)) => {
                if lead != 0xFF {
                    return Err(DecodeError::BadMarker);
                }
                kind
            },
            _ => { return Err(DecodeError::TruncatedInput); },
        };
        if 0xE0 <= block_type && block_type <= 0xEF {
            let block = read_block(&mut reader)?;
            if block_type == 0xE0 {
                let _app0 = parse_app0(block.as_slice())?;
            }
        } else if block_type == 0xDB {
            let block = read_block(&mut reader)?;
            let (id, table) = parse_dqt(block.as_slice())?;
            quantization_tables.insert(id, Rc::new(table));
            proof {
                let entries = dqt_of(block@)->Ok_0.1;
                st = HeaderState { quantization: st.quantization.insert(id, entries), ..st };
                assert(quantization_tables@.dom() =~= st.quantization.dom());
            }
        } else if block_type == 0xC4 {
            let block = read_block(&mut reader)?;
            let (table, table_class, id) = parse_dht(block.as_slice())?;
            let key = block[0];
            huffman_tables.insert(key, Rc::new(table));
            proof {
                let parsed = dht_of(block@)->Ok_0;
                st = HeaderState {
                    huffman: st.huffman.insert(
                        key,
                        TableSpec { codes: parsed.2, values: parsed.3 },
                    ),
                    ..st
                };
                assert(huffman_tables@.dom() =~= st.huffman.dom());
            }
        } else if block_type == 0xC0 {
            if has_frame {
                return Err(DecodeError::BadMarker);
            }
            let block = read_block(&mut reader)?;
            temp_components = parse_sof0(block.as_slice(), &mut ret)?;
            has_frame = true;
            proof {
                st = HeaderState { frame: Some(sof0_of(block@)->Ok_0), ..st };
            }
        } else if block_type == 0xDA {
            if !has_frame {
                return Err(DecodeError::BadMarker);
            }
            let block = read_block(&mut reader)?;
            parse_sos(block.as_slice(), &mut temp_components)?;
            ret.scan = parse_image_data(&mut reader)?;
            ret.components = resolve(
                &temp_components,
                &quantization_tables,
                &huffman_tables,
                Ghost(st),
            )?;
            return Ok(ret);
        } else if (0xC1 <= block_type && block_type <= 0xCF) || block_type == 0xDD {
            return Err(DecodeError::UnsupportedFeature);
        } else {
            return Err(DecodeError::BadMarker);
        }
    }
}

/// Looks up the tables of the components.
fn resolve(
    temp_components: &Vec<TempComponent>,
    quantization_tables: &HashMap<u8, Rc<QuantizationTable>>,
    huffman_tables: &HashMap<u8, Rc<CachedHuffmanTable>>,
    Ghost(st): Ghost<HeaderState>,
) -> (r: Result<Vec<Component>, DecodeError>)
    requires
        holds_registry(quantization_tables@, huffman_tables@, st),
    ensures
        match r {
            Ok(components) => resolve_components(st, temp_components@) is Ok && components@.len()
                == resolve_components(st, temp_components@)->Ok_0.len() && forall|i: int|
                0 <= i < components@.len() ==> holds_component(
                    #[trigger] components@[i],
                    resolve_components(st, temp_components@)->Ok_0[i],
                ),
            Err(e) => resolve_components(st, temp_components@) == Err::<
                Seq<ResolvedComponent>,
                DecodeError,
            >(e),
        },
{
    broadcast use vstd::std_specs::hash::group_hash_axioms;

    let mut components: Vec<Component> = Vec::new();
    let n = temp_components.len();
    let mut i: usize = 0;
    assert(temp_components@.take(0) =~= Seq::<TempComponent>::empty());
    while i < n
        invariant
            i <= n,
            n == temp_components@.len(),
            holds_registry(quantization_tables@, huffman_tables@, st),
            resolve_components(st, temp_components@.take(i as int)) is Ok,
            components@.len() == i,
            resolve_components(st, temp_components@.take(i as int))->Ok_0.len() == i,
            forall|k: int|
                0 <= k < i ==> holds_component(
                    #[trigger] components@[k],
                    resolve_components(st, temp_components@.take(i as int))->Ok_0[k],
                ),
        decreases n - i,
    {
        let t = temp_components[i];
        proof {
            assert(temp_components@.take(i + 1).drop_last() =~= temp_components@.take(i as int));
            assert(temp_components@.take(i + 1).last() == t);
            if resolve_components(st, temp_components@.take(i + 1)) is Err {
                lemma_resolve_error(st, temp_components@, i + 1);
            }
        }
        let quatization_table = match quantization_tables.get(&t.quatization_table_id) {
            Some(table) => share(table),
            None => { return Err(DecodeError::QuantizationTableMissing); },
        };
        let dc_huffman_table = match huffman_tables.get(&t.dc_huffman_table_id) {
            Some(table) => share(table),
            None => { return Err(DecodeError::HuffmanTableMissing); },
        };
        let ac_key: u8 = 0x10 | t.ac_huffman_table_id;
        let ac_huffman_table = match huffman_tables.get(&ac_key) {
            Some(table) => share(table),
            None => { return Err(DecodeError::HuffmanTableMissing); },
        };
        components.push(
            Component {
                horizontal_sampling_factor: t.horizontal_sampling_factor,
                vertical_sampling_factor: t.vertical_sampling_factor,
                quatization_table,
                dc_huffman_table,
                ac_huffman_table,
            },
        );
        i += 1;
    }
    assert(temp_components@.take(n as int) =~= temp_components@);
    Ok(components)
}

/// Where the first `n` components cannot be resolved, neither can all.
pub proof fn lemma_resolve_error(st: HeaderState, components: Seq<TempComponent>, n: int)
    requires
        0 <= n <= components.len(),
        resolve_components(st, components.take(n)) is Err,
    ensures
        resolve_components(st, components) == resolve_components(st, components.take(n)),
    decreases components.len() - n,
{
    if n < components.len() {
        assert(components.take(n + 1).drop_last() =~= components.take(n));
        lemma_resolve_error(st, components, n + 1);
    } else {
        assert(components.take(n) =~= components);
    }
}

} // verus!
