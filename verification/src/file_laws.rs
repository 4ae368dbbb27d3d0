//! What the file writer writes, the file reader reads back.

use crate::bits::bit_of;
use crate::bits::lemma_bit_of_half;
use crate::bits::lemma_msb0_value_bound;
use crate::bits::msb0_value;
use crate::bytes::be16;
use crate::bytes::be16_value;
use crate::error::DecodeError;
use crate::huffman::canonical_codewords;
use crate::markers::default_frame_components;
use crate::markers::dht_wire;
use crate::markers::dqt_wire;
use crate::markers::frame_components_wire;
use crate::markers::pack_nibbles;
use crate::markers::scan_components_wire;
use crate::markers::sof0_wire;
use crate::markers::sos_wire;
use crate::markers::table_wire;
use crate::parser::ac_key;
use crate::parser::parse_from;
use crate::parser::parse_jpeg;
use crate::parser::resolve_component;
use crate::parser::resolve_components;
use crate::parser::scan_component;
use crate::parser::sof0_of;
use crate::parser::sos_of;
use crate::parser::unpack_bits;
use crate::parser::Frame;
use crate::parser::HeaderState;
use crate::parser::ParsedJpeg;
use crate::parser::ResolvedComponent;
use crate::parser::TableSpec;
use crate::parser::TempComponent;
use crate::segments::app0_of;
use crate::segments::block_at;
use crate::segments::dht_of;
use crate::segments::dqt_entry;
use crate::segments::dqt_of;
use crate::quant::CHROMINANCE_QUANTIZATION_CELLS;
use crate::quant::LUMINANCE_QUANTIZATION_CELLS;
use crate::stuffing::lemma_read_over_stuffed;
use crate::stuffing::pack_bytes;
use crate::stuffing::padded_scan;
use crate::stuffing::stuff;
use crate::coding_laws::chroma_ac_table;
use crate::coding_laws::chroma_dc_table;
use crate::coding_laws::lemma_default_tables_usable;
use crate::coding_laws::luminance_ac_table;
use crate::coding_laws::luminance_dc_table;
use crate::writer::jfif_file;
use crate::writer::jfif_header;
use crate::zigzag::zigzag_sequence;
use crate::stuffing::read_scan;
use crate::stuffing::ScanEnd;
use crate::writer::baseline_scan_components;
use crate::writer::default_app0_wire;
use vstd::prelude::*;

verus! {

/// The bits of a string spell a number whose bits they are.
pub proof fn lemma_bit_of_value(s: Seq<bool>, j: int)
    requires
        0 <= j < s.len(),
    ensures
        bit_of(msb0_value(s), (s.len() - 1 - j) as nat) == s[j],
    decreases s.len(),
{
    vstd::arithmetic::power2::lemma2_to64();
    let v = msb0_value(s);
    let half = msb0_value(s.drop_last());
    assert(v == 2 * half + (if s.last() { 1nat } else { 0nat }));
    if j == s.len() - 1 {
        assert(v / 1 == v);
    } else {
        lemma_bit_of_value(s.drop_last(), j);
        assert(v / 2 == half);
        lemma_bit_of_half(v, (s.len() - 2 - j) as nat);
    }
}

/// Bits that are packed into bytes come back from the bytes.
pub proof fn lemma_unpack_pack(bits: Seq<bool>)
    requires
        bits.len() % 8 == 0,
    ensures
        unpack_bits(pack_bytes(bits)) == bits,
{
    let bytes = pack_bytes(bits);
    assert forall|i: int| 0 <= i < bits.len() implies unpack_bits(bytes)[i] == bits[i] by {
        let k = i / 8;
        let j = i % 8;
        let chunk = bits.subrange(8 * k, 8 * k + 8);
        lemma_msb0_value_bound(chunk);
        vstd::arithmetic::power2::lemma2_to64();
        lemma_bit_of_value(chunk, j);
        assert(chunk[j] == bits[i]);
    }
    assert(unpack_bits(bytes) =~= bits);
}

/// `piece` stands at place `p` of `s`.
pub open spec fn stands_at(s: Seq<u8>, p: int, piece: Seq<u8>) -> bool {
    0 <= p && p + piece.len() <= s.len() && s.subrange(p, p + piece.len()) == piece
}

/// A segment: the marker, the length of the body and of the length itself,
/// and the body.
pub open spec fn segment(marker: u8, body: Seq<u8>) -> Seq<u8> {
    seq![0xFFu8, marker] + be16((body.len() + 2) as u16) + body
}

/// The two bytes of a number spell the number.
pub proof fn lemma_be16(v: u16)
    ensures
        be16(v).len() == 2,
        be16_value(be16(v)[0], be16(v)[1]) == v,
{
}

/// Where a segment stands, its marker and its body are read.
pub proof fn lemma_segment_at(s: Seq<u8>, p: int, marker: u8, body: Seq<u8>)
    requires
        stands_at(s, p, segment(marker, body)),
        body.len() <= 65533,
    ensures
        p + 4 + body.len() <= s.len(),
        s[p] == 0xFF,
        s[p + 1] == marker,
        block_at(s, p + 2) == Ok::<Seq<u8>, DecodeError>(body),
        segment(marker, body).len() == 4 + body.len(),
{
    let seg = segment(marker, body);
    let length = (body.len() + 2) as u16;
    lemma_be16(length);
    assert(seg.len() == 4 + body.len());
    let part = s.subrange(p, p + seg.len());
    assert(part[0] == seg[0]);
    assert(part[1] == seg[1]);
    assert(part[2] == seg[2]);
    assert(part[3] == seg[3]);
    assert(seg[2] == be16(length)[0]);
    assert(seg[3] == be16(length)[1]);
    assert(s.subrange(p + 4, p + 2 + length) =~= part.subrange(4, seg.len() as int));
    assert(seg.subrange(4, seg.len() as int) =~= body);
}

/// An application segment is passed over.
pub proof fn lemma_parse_app0(s: Seq<u8>, p: int, st: HeaderState, body: Seq<u8>)
    requires
        stands_at(s, p, segment(0xE0, body)),
        14 <= body.len() <= 65533,
    ensures
        parse_from(s, p, st) == parse_from(s, p + 4 + body.len(), st),
{
    lemma_segment_at(s, p, 0xE0, body);
}

/// A quantization table segment leaves its table under its number.
pub proof fn lemma_parse_dqt(
    s: Seq<u8>,
    p: int,
    st: HeaderState,
    body: Seq<u8>,
    id: u8,
    entries: Seq<u16>,
)
    requires
        stands_at(s, p, segment(0xDB, body)),
        body.len() <= 65533,
        dqt_of(body) == Ok::<(u8, Seq<u16>), DecodeError>((id, entries)),
    ensures
        parse_from(s, p, st) == parse_from(
            s,
            p + 4 + body.len(),
            HeaderState { quantization: st.quantization.insert(id, entries), ..st },
        ),
{
    lemma_segment_at(s, p, 0xDB, body);
}

/// A Huffman table segment leaves its table under the byte of its class and
/// number.
pub proof fn lemma_parse_dht(
    s: Seq<u8>,
    p: int,
    st: HeaderState,
    body: Seq<u8>,
    codes: Seq<u8>,
    values: Seq<u8>,
)
    requires
        stands_at(s, p, segment(0xC4, body)),
        body.len() <= 65533,
        dht_of(body) == Ok::<(u8, u8, Seq<u8>, Seq<u8>), DecodeError>(
            (body[0] >> 4, body[0] & 0x0F, codes, values),
        ),
    ensures
        parse_from(s, p, st) == parse_from(
            s,
            p + 4 + body.len(),
            HeaderState { huffman: st.huffman.insert(body[0], TableSpec { codes, values }), ..st },
        ),
{
    lemma_segment_at(s, p, 0xC4, body);
}

/// The frame header leaves the frame.
pub proof fn lemma_parse_sof0(s: Seq<u8>, p: int, st: HeaderState, body: Seq<u8>, frame: Frame)
    requires
        stands_at(s, p, segment(0xC0, body)),
        body.len() <= 65533,
        st.frame is None,
        sof0_of(body) == Ok::<Frame, DecodeError>(frame),
    ensures
        parse_from(s, p, st) == parse_from(
            s,
            p + 4 + body.len(),
            HeaderState { frame: Some(frame), ..st },
        ),
{
    lemma_segment_at(s, p, 0xC0, body);
}

/// The scan header, with the scan behind it, ends the reading.
pub proof fn lemma_parse_sos(
    s: Seq<u8>,
    p: int,
    st: HeaderState,
    body: Seq<u8>,
    components: Seq<TempComponent>,
    data: Seq<u8>,
    next: int,
    resolved: Seq<ResolvedComponent>,
)
    requires
        stands_at(s, p, segment(0xDA, body)),
        body.len() <= 65533,
        st.frame is Some,
        sos_of(body, st.frame->Some_0.components) == Ok::<Seq<TempComponent>, DecodeError>(
            components,
        ),
        read_scan(s, p + 4 + body.len(), Seq::<u8>::empty()) == (ScanEnd::Done { data, next }),
        resolve_components(st, components) == Ok::<Seq<ResolvedComponent>, DecodeError>(resolved),
    ensures
        parse_from(s, p, st) == Ok::<ParsedJpeg, DecodeError>(
            ParsedJpeg {
                width: st.frame->Some_0.width,
                height: st.frame->Some_0.height,
                components: resolved,
                scan: data,
            },
        ),
{
    lemma_segment_at(s, p, 0xDA, body);
}

/// The body of the JFIF segment that the encoder writes.
pub open spec fn default_app0_body() -> Seq<u8> {
    seq![0x4Au8, 0x46u8, 0x49u8, 0x46u8, 0u8] + seq![1u8, 1u8, 0u8] + be16(1) + be16(1) + seq![
        0u8,
        0u8,
    ]
}

/// The JFIF segment that the encoder writes is a segment of fourteen bytes.
pub proof fn lemma_app0_segment()
    ensures
        default_app0_wire() == segment(0xE0, default_app0_body()),
        default_app0_body().len() == 14,
{
    assert(default_app0_wire() =~= segment(0xE0, default_app0_body()));
}

/// The entries of a table with 16 bits each, as they are written, are two
/// bytes each, which spell the entry.
pub proof fn lemma_table_wire(table: Seq<u16>, k: int)
    requires
        0 <= k < table.len(),
    ensures
        table_wire(table, true).len() == 2 * table.len(),
        be16_value(table_wire(table, true)[2 * k], table_wire(table, true)[2 * k + 1]) == table[k],
    decreases table.len(),
{
    lemma_table_wire_len(table);
    lemma_table_wire_len(table.drop_last());
    if k < table.len() - 1 {
        lemma_table_wire(table.drop_last(), k);
    } else {
        lemma_be16(table.last());
    }
}

/// The entries of a table with 16 bits each take two bytes each.
pub proof fn lemma_table_wire_len(table: Seq<u16>)
    ensures
        table_wire(table, true).len() == 2 * table.len(),
    decreases table.len(),
{
    if table.len() > 0 {
        lemma_table_wire_len(table.drop_last());
    }
}

/// The body of a quantization table segment with 16-bit entries.
pub open spec fn dqt_body(id: u8, table: Seq<u16>) -> Seq<u8> {
    seq![pack_nibbles(1u8, id)] + table_wire(table, true)
}

/// A quantization table segment with 16-bit entries, as the encoder writes
/// it, is a segment whose body spells the number and the entries.
pub proof fn lemma_dqt_segment(id: u8, table: Seq<u16>)
    requires
        id < 16,
        table.len() == 64,
    ensures
        dqt_wire(131, true, id, table) == segment(0xDB, dqt_body(id, table)),
        dqt_body(id, table).len() == 129,
        dqt_of(dqt_body(id, table)) == Ok::<(u8, Seq<u16>), DecodeError>((id, table)),
{
    let body = dqt_body(id, table);
    lemma_table_wire_len(table);
    assert(dqt_wire(131, true, id, table) =~= segment(0xDB, body));
    assert(id < 16 ==> pack_nibbles(1u8, id) >> 4 == 1 && pack_nibbles(1u8, id) & 0x0F == id)
        by (bit_vector);
    assert(body[0] == pack_nibbles(1u8, id));
    let entries = Seq::new(64, |k: int| dqt_entry(body, true, k));
    assert forall|k: int| 0 <= k < 64 implies entries[k] == table[k] by {
        lemma_table_wire(table, k);
        assert(body[1 + 2 * k] == table_wire(table, true)[2 * k]);
        assert(body[2 + 2 * k] == table_wire(table, true)[2 * k + 1]);
    }
    assert(entries =~= table);
}

/// The body of a Huffman table segment.
pub open spec fn dht_body(table_class: u8, id: u8, table: TableSpec) -> Seq<u8> {
    seq![pack_nibbles(table_class, id)] + table.codes + table.values
}

/// A Huffman table segment, as the encoder writes it, is a segment whose
/// body spells the table.
pub proof fn lemma_dht_segment(table_class: u8, id: u8, table: TableSpec)
    requires
        table.codes.len() == 16,
        table.values.len() == canonical_codewords(table.codes).len(),
        table.values.len() <= 65000,
    ensures
        dht_wire((19 + table.values.len()) as u16, table_class, id, table.codes, table.values)
            == segment(0xC4, dht_body(table_class, id, table)),
        dht_body(table_class, id, table).len() == 17 + table.values.len(),
        dht_body(table_class, id, table)[0] == pack_nibbles(table_class, id),
        dht_of(dht_body(table_class, id, table)) == Ok::<
            (u8, u8, Seq<u8>, Seq<u8>),
            DecodeError,
        >(
            (
                dht_body(table_class, id, table)[0] >> 4,
                dht_body(table_class, id, table)[0] & 0x0F,
                table.codes,
                table.values,
            ),
        ),
{
    let body = dht_body(table_class, id, table);
    assert(dht_wire(
        (19 + table.values.len()) as u16,
        table_class,
        id,
        table.codes,
        table.values,
    ) =~= segment(0xC4, body));
    assert(body.subrange(1, 17) =~= table.codes);
    assert(body.subrange(17, body.len() as int) =~= table.values);
    crate::huffman::lemma_codewords_len(table.codes, 16);
}

/// The body of the frame header of a 4:2:2 image.
pub open spec fn sof0_body(width: u16, height: u16) -> Seq<u8> {
    seq![8u8] + be16(height) + be16(width) + seq![3u8] + frame_components_wire(
        default_frame_components(),
    )
}

/// The components of the frame of a 4:2:2 image, as they are read.
pub open spec fn frame_components_read() -> Seq<TempComponent> {
    seq![
        TempComponent {
            horizontal_sampling_factor: 2,
            vertical_sampling_factor: 1,
            quatization_table_id: 0,
            dc_huffman_table_id: 0,
            ac_huffman_table_id: 0,
        },
        TempComponent {
            horizontal_sampling_factor: 1,
            vertical_sampling_factor: 1,
            quatization_table_id: 1,
            dc_huffman_table_id: 0,
            ac_huffman_table_id: 0,
        },
        TempComponent {
            horizontal_sampling_factor: 1,
            vertical_sampling_factor: 1,
            quatization_table_id: 1,
            dc_huffman_table_id: 0,
            ac_huffman_table_id: 0,
        },
    ]
}

/// The components of a 4:2:2 frame, as they are written.
pub proof fn lemma_frame_components_wire()
    ensures
        frame_components_wire(default_frame_components()) == seq![
            1u8,
            pack_nibbles(2u8, 1u8),
            0u8,
            2u8,
            pack_nibbles(1u8, 1u8),
            1u8,
            3u8,
            pack_nibbles(1u8, 1u8),
            1u8,
        ],
{
    let all = default_frame_components();
    let two = all.drop_last();
    let one = two.drop_last();
    assert(one.drop_last() =~= Seq::<crate::markers::SOF0Component>::empty());
    assert(frame_components_wire(one.drop_last()) =~= Seq::<u8>::empty());
    let w1 = frame_components_wire(one);
    assert(w1 =~= seq![1u8, pack_nibbles(2u8, 1u8), 0u8]);
    let w2 = frame_components_wire(two);
    assert(w2 =~= w1 + seq![2u8, pack_nibbles(1u8, 1u8), 1u8]);
    assert(frame_components_wire(all) =~= w2 + seq![3u8, pack_nibbles(1u8, 1u8), 1u8]);
    assert(frame_components_wire(all) =~= seq![
        1u8,
        pack_nibbles(2u8, 1u8),
        0u8,
        2u8,
        pack_nibbles(1u8, 1u8),
        1u8,
        3u8,
        pack_nibbles(1u8, 1u8),
        1u8,
    ]);
}

/// The frame header of a 4:2:2 image, as the encoder writes it, is a segment
/// whose body spells the frame.
pub proof fn lemma_sof0_segment(width: u16, height: u16)
    ensures
        sof0_wire(17, 8, height, width, default_frame_components()) == segment(
            0xC0,
            sof0_body(width, height),
        ),
        sof0_body(width, height).len() == 15,
        sof0_of(sof0_body(width, height)) == Ok::<Frame, DecodeError>(
            Frame { height, width, components: frame_components_read() },
        ),
{
    let body = sof0_body(width, height);
    lemma_frame_components_wire();
    lemma_be16(height);
    lemma_be16(width);
    assert(sof0_wire(17, 8, height, width, default_frame_components()) =~= segment(0xC0, body));
    assert(pack_nibbles(2u8, 1u8) >> 4 == 2 && pack_nibbles(2u8, 1u8) & 0x0F == 1 && pack_nibbles(
        1u8,
        1u8,
    ) >> 4 == 1 && pack_nibbles(1u8, 1u8) & 0x0F == 1) by (bit_vector);
    assert(body[0] == 8);
    assert(body[1] == be16(height)[0]);
    assert(body[2] == be16(height)[1]);
    assert(body[3] == be16(width)[0]);
    assert(body[4] == be16(width)[1]);
    assert(body[5] == 3);
    assert(body[7] == pack_nibbles(2u8, 1u8));
    assert(body[8] == 0);
    assert(body[10] == pack_nibbles(1u8, 1u8));
    assert(body[11] == 1);
    assert(body[13] == pack_nibbles(1u8, 1u8));
    assert(body[14] == 1);
    let read = Seq::new(3, |i: int| crate::parser::frame_component(body, i));
    assert(read =~= frame_components_read());
    assert((body[1] * 256 + body[2]) as u16 == height);
    assert((body[3] * 256 + body[4]) as u16 == width);
}

/// The body of the scan header that the encoder writes.
pub open spec fn sos_body() -> Seq<u8> {
    seq![3u8] + scan_components_wire(baseline_scan_components()) + seq![
        0u8,
        63u8,
        pack_nibbles(0u8, 0u8),
    ]
}

/// The components of a 4:2:2 frame with the tables that the scan header of
/// the encoder names.
pub open spec fn scan_components_read() -> Seq<TempComponent> {
    seq![
        TempComponent {
            horizontal_sampling_factor: 2,
            vertical_sampling_factor: 1,
            quatization_table_id: 0,
            dc_huffman_table_id: 0,
            ac_huffman_table_id: 0,
        },
        TempComponent {
            horizontal_sampling_factor: 1,
            vertical_sampling_factor: 1,
            quatization_table_id: 1,
            dc_huffman_table_id: 1,
            ac_huffman_table_id: 1,
        },
        TempComponent {
            horizontal_sampling_factor: 1,
            vertical_sampling_factor: 1,
            quatization_table_id: 1,
            dc_huffman_table_id: 1,
            ac_huffman_table_id: 1,
        },
    ]
}

/// The scan header, as the encoder writes it, is a segment whose body names
/// the tables of the three components.
pub proof fn lemma_sos_segment()
    ensures
        sos_wire(12, baseline_scan_components(), 0, 63, 0, 0) == segment(0xDA, sos_body()),
        sos_body().len() == 10,
        sos_of(sos_body(), frame_components_read()) == Ok::<Seq<TempComponent>, DecodeError>(
            scan_components_read(),
        ),
{
    let body = sos_body();
    let all = baseline_scan_components();
    let two = all.drop_last();
    let one = two.drop_last();
    assert(one.drop_last() =~= Seq::<crate::markers::SOSComponent>::empty());
    assert(scan_components_wire(one.drop_last()) =~= Seq::<u8>::empty());
    let w1 = scan_components_wire(one);
    assert(w1 =~= seq![1u8, pack_nibbles(0u8, 0u8)]);
    let w2 = scan_components_wire(two);
    assert(w2 =~= w1 + seq![2u8, pack_nibbles(1u8, 1u8)]);
    let w3 = scan_components_wire(all);
    assert(w3 =~= w2 + seq![3u8, pack_nibbles(1u8, 1u8)]);
    assert(w3 =~= seq![
        1u8,
        pack_nibbles(0u8, 0u8),
        2u8,
        pack_nibbles(1u8, 1u8),
        3u8,
        pack_nibbles(1u8, 1u8),
    ]);
    assert(sos_wire(12, all, 0, 63, 0, 0) =~= segment(0xDA, body));
    assert(pack_nibbles(0u8, 0u8) == 0 && pack_nibbles(1u8, 1u8) >> 4 == 1 && pack_nibbles(
        1u8,
        1u8,
    ) & 0x0F == 1 && 0u8 >> 4 == 0 && 0u8 & 0x0F == 0) by (bit_vector);
    assert(body[0] == 3);
    assert(body[2] == pack_nibbles(0u8, 0u8));
    assert(body[4] == pack_nibbles(1u8, 1u8));
    assert(body[6] == pack_nibbles(1u8, 1u8));
    assert(body[7] == 0);
    assert(body[8] == 63);
    assert(body[9] == 0);
    let read = Seq::new(3, |i: int| scan_component(body, frame_components_read(), i));
    assert(read =~= scan_components_read());
}

/// Where a piece and a rest stand behind place `p`, the piece stands at `p`,
/// and the rest behind it.
pub proof fn lemma_next_piece(s: Seq<u8>, p: int, piece: Seq<u8>, rest: Seq<u8>)
    requires
        0 <= p <= s.len(),
        s.subrange(p, s.len() as int) == piece + rest,
    ensures
        stands_at(s, p, piece),
        p + piece.len() <= s.len(),
        s.subrange(p + piece.len(), s.len() as int) == rest,
{
    let tail = s.subrange(p, s.len() as int);
    assert(tail.len() == piece.len() + rest.len());
    assert(s.subrange(p, p + piece.len()) =~= tail.subrange(0, piece.len() as int));
    assert(tail.subrange(0, piece.len() as int) =~= piece);
    assert(s.subrange(p + piece.len(), s.len() as int) =~= tail.subrange(
        piece.len() as int,
        tail.len() as int,
    ));
    assert(tail.subrange(piece.len() as int, tail.len() as int) =~= rest);
}

/// A stuffed scan with the end-of-image marker behind it is read as the
/// scan, wherever it stands.
pub proof fn lemma_read_scan_at(s: Seq<u8>, p: int, bytes: Seq<u8>)
    requires
        0 <= p <= s.len(),
        s.subrange(p, s.len() as int) == stuff(bytes) + seq![0xFFu8, 0xD9u8],
    ensures
        read_scan(s, p, Seq::<u8>::empty()) == (ScanEnd::Done {
            data: bytes,
            next: p + stuff(bytes).len() + 2,
        }),
{
    let before = s.subrange(0, p);
    let after = seq![0xFFu8, 0xD9u8];
    let tail = s.subrange(p, s.len() as int);
    let joined = before + stuff(bytes) + after;
    assert(tail.len() == stuff(bytes).len() + 2);
    assert(joined.len() == s.len());
    assert forall|i: int| 0 <= i < s.len() implies s[i] == joined[i] by {
        if i >= p {
            assert(s[i] == tail[i - p]);
            assert(tail[i - p] == (stuff(bytes) + after)[i - p]);
        } else {
            assert(before[i] == s[i]);
        }
    }
    assert(s =~= joined);
    lemma_read_over_stuffed(bytes, before, after, Seq::<u8>::empty());
    assert(Seq::<u8>::empty() + bytes =~= bytes);
    let end = p + stuff(bytes).len();
    assert(s[end] == after[0]);
    assert(s[end + 1] == after[1]);
}

/// What the file of the encoder says of an image of the given size with the
/// given scan: three components with the two quantization tables and the four
/// Huffman tables of the encoder, and the scan in whole bytes.
pub open spec fn parsed_encoding(width: u16, height: u16, scan: Seq<bool>) -> ParsedJpeg {
    ParsedJpeg {
        width,
        height,
        components: seq![
            ResolvedComponent {
                horizontal_sampling_factor: 2,
                vertical_sampling_factor: 1,
                quantization: zigzag_sequence(LUMINANCE_QUANTIZATION_CELLS@),
                dc: luminance_dc_table(),
                ac: luminance_ac_table(),
            },
            ResolvedComponent {
                horizontal_sampling_factor: 1,
                vertical_sampling_factor: 1,
                quantization: zigzag_sequence(CHROMINANCE_QUANTIZATION_CELLS@),
                dc: chroma_dc_table(),
                ac: chroma_ac_table(),
            },
            ResolvedComponent {
                horizontal_sampling_factor: 1,
                vertical_sampling_factor: 1,
                quantization: zigzag_sequence(CHROMINANCE_QUANTIZATION_CELLS@),
                dc: chroma_dc_table(),
                ac: chroma_ac_table(),
            },
        ],
        scan: pack_bytes(padded_scan(scan)),
    }
}

/// What the reader holds behind the headers of the encoder.
pub open spec fn state_behind_headers(width: u16, height: u16) -> HeaderState {
    HeaderState {
        frame: Some(Frame { height, width, components: frame_components_read() }),
        quantization: Map::<u8, Seq<u16>>::empty().insert(
            0,
            zigzag_sequence(LUMINANCE_QUANTIZATION_CELLS@),
        ).insert(1, zigzag_sequence(CHROMINANCE_QUANTIZATION_CELLS@)),
        huffman: Map::<u8, TableSpec>::empty().insert(0x00, luminance_dc_table()).insert(
            0x10,
            luminance_ac_table(),
        ).insert(0x01, chroma_dc_table()).insert(0x11, chroma_ac_table()),
    }
}

/// Behind the headers of the encoder the components find their tables.
pub proof fn lemma_resolve_encoding(width: u16, height: u16)
    ensures
        resolve_components(state_behind_headers(width, height), scan_components_read()) == Ok::<
            Seq<ResolvedComponent>,
            DecodeError,
        >(parsed_encoding(width, height, Seq::empty()).components),
{
    let st = state_behind_headers(width, height);
    let all = scan_components_read();
    let two = all.drop_last();
    let one = two.drop_last();
    assert(ac_key(0) == 0x10 && ac_key(1) == 0x11) by {
        assert(0x10u8 | 0u8 == 0x10u8 && 0x10u8 | 1u8 == 0x11u8) by (bit_vector);
    }
    assert(one.drop_last() =~= Seq::<TempComponent>::empty());
    let expected = parsed_encoding(width, height, Seq::empty()).components;
    assert(resolve_component(st, all[0]) == Ok::<ResolvedComponent, DecodeError>(expected[0]));
    assert(resolve_component(st, all[1]) == Ok::<ResolvedComponent, DecodeError>(expected[1]));
    assert(resolve_component(st, all[2]) == Ok::<ResolvedComponent, DecodeError>(expected[2]));
    assert(resolve_components(st, one.drop_last()) == Ok::<Seq<ResolvedComponent>, DecodeError>(
        Seq::empty(),
    ));
    assert(one.last() == all[0]);
    assert(resolve_components(st, one) == Ok::<Seq<ResolvedComponent>, DecodeError>(
        Seq::<ResolvedComponent>::empty().push(expected[0]),
    ));
    assert(two.last() == all[1]);
    assert(resolve_components(st, two) == Ok::<Seq<ResolvedComponent>, DecodeError>(
        Seq::<ResolvedComponent>::empty().push(expected[0]).push(expected[1]),
    ));
    assert(all.last() == all[2]);
    assert(Seq::<ResolvedComponent>::empty().push(expected[0]).push(expected[1]).push(expected[2])
        =~= expected);
}

/// The tables that the encoder writes behind the JFIF segment: the two
/// quantization tables.
pub open spec fn quantization_segments() -> Seq<u8> {
    segment(0xDB, dqt_body(0, zigzag_sequence(LUMINANCE_QUANTIZATION_CELLS@))) + segment(
        0xDB,
        dqt_body(1, zigzag_sequence(CHROMINANCE_QUANTIZATION_CELLS@)),
    )
}

/// The four Huffman table segments that the encoder writes.
pub open spec fn huffman_segments() -> Seq<u8> {
    segment(0xC4, dht_body(0, 0, luminance_dc_table())) + segment(
        0xC4,
        dht_body(1, 0, luminance_ac_table()),
    ) + segment(0xC4, dht_body(0, 1, chroma_dc_table())) + segment(
        0xC4,
        dht_body(1, 1, chroma_ac_table()),
    )
}

/// The two quantization table segments of the encoder leave its two tables.
pub proof fn lemma_parse_quantization_segments(s: Seq<u8>, p: int, st: HeaderState, rest: Seq<u8>)
    requires
        0 <= p <= s.len(),
        s.subrange(p, s.len() as int) == quantization_segments() + rest,
    ensures
        p + 266 <= s.len(),
        s.subrange(p + 266, s.len() as int) == rest,
        parse_from(s, p, st) == parse_from(
            s,
            p + 266,
            HeaderState {
                quantization: st.quantization.insert(
                    0,
                    zigzag_sequence(LUMINANCE_QUANTIZATION_CELLS@),
                ).insert(1, zigzag_sequence(CHROMINANCE_QUANTIZATION_CELLS@)),
                ..st
            },
        ),
{
    let zl = zigzag_sequence(LUMINANCE_QUANTIZATION_CELLS@);
    let zc = zigzag_sequence(CHROMINANCE_QUANTIZATION_CELLS@);
    let first = segment(0xDB, dqt_body(0, zl));
    let second = segment(0xDB, dqt_body(1, zc));
    lemma_dqt_segment(0, zl);
    lemma_dqt_segment(1, zc);
    assert(quantization_segments() + rest =~= first + (second + rest));
    lemma_next_piece(s, p, first, second + rest);
    lemma_segment_at(s, p, 0xDB, dqt_body(0, zl));
    lemma_parse_dqt(s, p, st, dqt_body(0, zl), 0, zl);
    let st1 = HeaderState { quantization: st.quantization.insert(0, zl), ..st };
    lemma_next_piece(s, p + 133, second, rest);
    lemma_segment_at(s, p + 133, 0xDB, dqt_body(1, zc));
    lemma_parse_dqt(s, p + 133, st1, dqt_body(1, zc), 1, zc);
}

/// The four Huffman table segments of the encoder leave its four tables.
pub proof fn lemma_parse_huffman_segments(s: Seq<u8>, p: int, st: HeaderState, rest: Seq<u8>)
    requires
        0 <= p <= s.len(),
        s.subrange(p, s.len() as int) == huffman_segments() + rest,
    ensures
        p + 432 <= s.len(),
        s.subrange(p + 432, s.len() as int) == rest,
        parse_from(s, p, st) == parse_from(
            s,
            p + 432,
            HeaderState {
                huffman: st.huffman.insert(0x00, luminance_dc_table()).insert(
                    0x10,
                    luminance_ac_table(),
                ).insert(0x01, chroma_dc_table()).insert(0x11, chroma_ac_table()),
                ..st
            },
        ),
{
    lemma_default_tables_usable();
    let b1 = dht_body(0, 0, luminance_dc_table());
    let b2 = dht_body(1, 0, luminance_ac_table());
    let b3 = dht_body(0, 1, chroma_dc_table());
    let b4 = dht_body(1, 1, chroma_ac_table());
    lemma_dht_segment(0, 0, luminance_dc_table());
    lemma_dht_segment(1, 0, luminance_ac_table());
    lemma_dht_segment(0, 1, chroma_dc_table());
    lemma_dht_segment(1, 1, chroma_ac_table());
    assert(pack_nibbles(0u8, 0u8) == 0x00 && pack_nibbles(1u8, 0u8) == 0x10 && pack_nibbles(
        0u8,
        1u8,
    ) == 0x01 && pack_nibbles(1u8, 1u8) == 0x11) by (bit_vector);
    let s1 = segment(0xC4, b1);
    let s2 = segment(0xC4, b2);
    let s3 = segment(0xC4, b3);
    let s4 = segment(0xC4, b4);
    assert(huffman_segments() + rest =~= s1 + (s2 + (s3 + (s4 + rest))));
    lemma_next_piece(s, p, s1, s2 + (s3 + (s4 + rest)));
    lemma_segment_at(s, p, 0xC4, b1);
    lemma_parse_dht(s, p, st, b1, luminance_dc_table().codes, luminance_dc_table().values);
    let st1 = HeaderState { huffman: st.huffman.insert(0x00, luminance_dc_table()), ..st };
    lemma_next_piece(s, p + 33, s2, s3 + (s4 + rest));
    lemma_segment_at(s, p + 33, 0xC4, b2);
    lemma_parse_dht(s, p + 33, st1, b2, luminance_ac_table().codes, luminance_ac_table().values);
    let st2 = HeaderState { huffman: st1.huffman.insert(0x10, luminance_ac_table()), ..st1 };
    lemma_next_piece(s, p + 216, s3, s4 + rest);
    lemma_segment_at(s, p + 216, 0xC4, b3);
    lemma_parse_dht(s, p + 216, st2, b3, chroma_dc_table().codes, chroma_dc_table().values);
    let st3 = HeaderState { huffman: st2.huffman.insert(0x01, chroma_dc_table()), ..st2 };
    lemma_next_piece(s, p + 249, s4, rest);
    lemma_segment_at(s, p + 249, 0xC4, b4);
    lemma_parse_dht(s, p + 249, st3, b4, chroma_ac_table().codes, chroma_ac_table().values);
}

/// The headers of the encoder, in segments.
pub proof fn lemma_header_segments(width: u16, height: u16)
    ensures
        jfif_header(width, height) == seq![0xFFu8, 0xD8u8] + segment(0xE0, default_app0_body())
            + quantization_segments() + segment(0xC0, sof0_body(width, height))
            + huffman_segments() + segment(0xDA, sos_body()),
{
    lemma_default_tables_usable();
    lemma_app0_segment();
    lemma_dqt_segment(0, zigzag_sequence(LUMINANCE_QUANTIZATION_CELLS@));
    lemma_dqt_segment(1, zigzag_sequence(CHROMINANCE_QUANTIZATION_CELLS@));
    lemma_sof0_segment(width, height);
    lemma_dht_segment(0, 0, luminance_dc_table());
    lemma_dht_segment(1, 0, luminance_ac_table());
    lemma_dht_segment(0, 1, chroma_dc_table());
    lemma_dht_segment(1, 1, chroma_ac_table());
    lemma_sos_segment();
    let a = seq![0xFFu8, 0xD8u8] + segment(0xE0, default_app0_body());
    let q1 = segment(0xDB, dqt_body(0, zigzag_sequence(LUMINANCE_QUANTIZATION_CELLS@)));
    let q2 = segment(0xDB, dqt_body(1, zigzag_sequence(CHROMINANCE_QUANTIZATION_CELLS@)));
    let f = segment(0xC0, sof0_body(width, height));
    let h1 = segment(0xC4, dht_body(0, 0, luminance_dc_table()));
    let h2 = segment(0xC4, dht_body(1, 0, luminance_ac_table()));
    let h3 = segment(0xC4, dht_body(0, 1, chroma_dc_table()));
    let h4 = segment(0xC4, dht_body(1, 1, chroma_ac_table()));
    let e = segment(0xDA, sos_body());
    assert(jfif_header(width, height) == a + q1 + q2 + f + h1 + h2 + h3 + h4 + e);
    assert(a + q1 + q2 + f + h1 + h2 + h3 + h4 + e =~= a + (q1 + q2) + f + (h1 + h2 + h3 + h4) + e);
}

/// The file of the encoder, put together from behind.
pub open spec fn file_from_behind(width: u16, height: u16, end: Seq<u8>) -> Seq<u8> {
    seq![0xFFu8, 0xD8u8] + (segment(0xE0, default_app0_body()) + (quantization_segments() + (
    segment(0xC0, sof0_body(width, height)) + (huffman_segments() + (segment(0xDA, sos_body())
        + end)))))
}

/// The file of the encoder is the same put together from behind.
pub proof fn lemma_file_from_behind(width: u16, height: u16, scan: Seq<bool>)
    ensures
        jfif_file(width, height, scan) == file_from_behind(
            width,
            height,
            stuff(pack_bytes(padded_scan(scan))) + seq![0xFFu8, 0xD9u8],
        ),
{
    lemma_header_segments(width, height);
    let end = stuff(pack_bytes(padded_scan(scan))) + seq![0xFFu8, 0xD9u8];
    assert(jfif_file(width, height, scan) =~= file_from_behind(width, height, end));
}

/// The JFIF segment and the quantization tables of the encoder are read.
pub proof fn lemma_parse_first_headers(file: Seq<u8>, rest: Seq<u8>)
    requires
        file == seq![0xFFu8, 0xD8u8] + (segment(0xE0, default_app0_body()) + (
        quantization_segments() + rest)),
    ensures
        286 <= file.len(),
        file[0] == 0xFF,
        file[1] == 0xD8,
        file.subrange(286, file.len() as int) == rest,
        parse_from(
            file,
            2,
            HeaderState { frame: None, quantization: Map::empty(), huffman: Map::empty() },
        ) == parse_from(
            file,
            286,
            HeaderState {
                frame: None,
                quantization: Map::<u8, Seq<u16>>::empty().insert(
                    0,
                    zigzag_sequence(LUMINANCE_QUANTIZATION_CELLS@),
                ).insert(1, zigzag_sequence(CHROMINANCE_QUANTIZATION_CELLS@)),
                huffman: Map::empty(),
            },
        ),
{
    let app0 = segment(0xE0, default_app0_body());
    let t2 = quantization_segments() + rest;
    lemma_app0_segment();
    assert(file.subrange(2, file.len() as int) =~= app0 + t2);
    let st0 = HeaderState { frame: None, quantization: Map::empty(), huffman: Map::empty() };
    lemma_next_piece(file, 2, app0, t2);
    lemma_segment_at(file, 2, 0xE0, default_app0_body());
    lemma_parse_app0(file, 2, st0, default_app0_body());
    lemma_parse_quantization_segments(file, 20, st0, rest);
}

/// The frame header and the Huffman tables of the encoder are read.
pub proof fn lemma_parse_last_headers(
    file: Seq<u8>,
    width: u16,
    height: u16,
    st: HeaderState,
    rest: Seq<u8>,
)
    requires
        286 <= file.len(),
        file.subrange(286, file.len() as int) == segment(0xC0, sof0_body(width, height)) + (
        huffman_segments() + rest),
        st.frame is None,
    ensures
        737 <= file.len(),
        file.subrange(737, file.len() as int) == rest,
        parse_from(file, 286, st) == parse_from(
            file,
            737,
            HeaderState {
                frame: Some(Frame { height, width, components: frame_components_read() }),
                huffman: st.huffman.insert(0x00, luminance_dc_table()).insert(
                    0x10,
                    luminance_ac_table(),
                ).insert(0x01, chroma_dc_table()).insert(0x11, chroma_ac_table()),
                ..st
            },
        ),
{
    let frame = segment(0xC0, sof0_body(width, height));
    lemma_sof0_segment(width, height);
    lemma_next_piece(file, 286, frame, huffman_segments() + rest);
    lemma_segment_at(file, 286, 0xC0, sof0_body(width, height));
    let read = Frame { height, width, components: frame_components_read() };
    lemma_parse_sof0(file, 286, st, sof0_body(width, height), read);
    let st2 = HeaderState { frame: Some(read), ..st };
    lemma_parse_huffman_segments(file, 305, st2, rest);
}

/// The scan header of the encoder and the scan behind it are read.
pub proof fn lemma_parse_scan(file: Seq<u8>, width: u16, height: u16, bytes: Seq<u8>)
    requires
        737 <= file.len(),
        file.subrange(737, file.len() as int) == segment(0xDA, sos_body()) + (stuff(bytes) + seq![
            0xFFu8,
            0xD9u8,
        ]),
    ensures
        parse_from(file, 737, state_behind_headers(width, height)) == Ok::<
            ParsedJpeg,
            DecodeError,
        >(
            ParsedJpeg {
                width,
                height,
                components: parsed_encoding(width, height, Seq::empty()).components,
                scan: bytes,
            },
        ),
{
    let sos = segment(0xDA, sos_body());
    let end = stuff(bytes) + seq![0xFFu8, 0xD9u8];
    lemma_sos_segment();
    lemma_next_piece(file, 737, sos, end);
    lemma_segment_at(file, 737, 0xDA, sos_body());
    lemma_read_scan_at(file, 751, bytes);
    lemma_resolve_encoding(width, height);
    lemma_parse_sos(
        file,
        737,
        state_behind_headers(width, height),
        sos_body(),
        scan_components_read(),
        bytes,
        (751 + stuff(bytes).len() + 2) as int,
        parsed_encoding(width, height, Seq::empty()).components,
    );
}

/// The file that the encoder writes is read as the file of an image of the
/// size and with the scan that went into it, and of the tables of the encoder.
pub proof fn lemma_file_round_trip(width: u16, height: u16, scan: Seq<bool>)
    ensures
        parse_jpeg(jfif_file(width, height, scan)) == Ok::<ParsedJpeg, DecodeError>(
            parsed_encoding(width, height, scan),
        ),
{
    let file = jfif_file(width, height, scan);
    let bytes = pack_bytes(padded_scan(scan));
    let end = stuff(bytes) + seq![0xFFu8, 0xD9u8];
    let t5 = segment(0xDA, sos_body()) + end;
    let t3 = segment(0xC0, sof0_body(width, height)) + (huffman_segments() + t5);
    lemma_file_from_behind(width, height, scan);
    lemma_parse_first_headers(file, t3);
    let st1 = HeaderState {
        frame: None,
        quantization: Map::<u8, Seq<u16>>::empty().insert(
            0,
            zigzag_sequence(LUMINANCE_QUANTIZATION_CELLS@),
        ).insert(1, zigzag_sequence(CHROMINANCE_QUANTIZATION_CELLS@)),
        huffman: Map::empty(),
    };
    lemma_parse_last_headers(file, width, height, st1, t5);
    lemma_parse_scan(file, width, height, bytes);
}

} // verus!
