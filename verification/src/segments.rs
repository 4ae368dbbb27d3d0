//! The bodies of the marker segments, read back from their bytes.

use crate::bytes::be16_value;
use crate::bytes::buffer_bytes;
use crate::bytes::buffer_from_bytes;
use crate::bytes::buffer_get_rpos;
use crate::bytes::buffer_len;
use crate::bytes::buffer_read_bytes;
use crate::bytes::buffer_read_pos;
use crate::bytes::buffer_read_u16;
use crate::bytes::buffer_read_u8;
use crate::bytes::buffer_sequential;
use crate::error::DecodeError;
use crate::huffman::count_upto;
use crate::huffman::lemma_codewords_len;
use crate::huffman::CachedHuffmanTable;
use crate::huffman::JpegHuffmanTable;
use crate::markers::APP0;
use crate::quant::QuantizationTable;
use crate::zigzag::is_zigzag_of;
use crate::zigzag::zigzag_unscan;
use bytebuffer::ByteBuffer;
use vstd::prelude::*;

verus! {

/// Reads one byte, or reports that the bytes have ended.
pub(crate) fn take_u8(buf: &mut ByteBuffer) -> (r: Result<u8, DecodeError>)
    requires
        buffer_sequential(*old(buf)),
    ensures
        buffer_bytes(*final(buf)) == buffer_bytes(*old(buf)),
        buffer_sequential(*final(buf)),
        match r {
            Ok(v) => buffer_read_pos(*old(buf)) < buffer_bytes(*old(buf)).len()
                && v == buffer_bytes(*old(buf))[buffer_read_pos(*old(buf)) as int]
                && buffer_read_pos(*final(buf)) == buffer_read_pos(*old(buf)) + 1,
            Err(e) => e == DecodeError::TruncatedInput && buffer_read_pos(*old(buf))
                >= buffer_bytes(*old(buf)).len() && buffer_read_pos(*final(buf))
                == buffer_read_pos(*old(buf)),
        },
{
    match buffer_read_u8(buf) {
        Ok(v) => Ok(v),
        Err(_) => Err(DecodeError::TruncatedInput),
    }
}

/// Reads a 16-bit number, high byte first, or reports that the bytes have
/// ended.
pub(crate) fn take_u16(buf: &mut ByteBuffer) -> (r: Result<u16, DecodeError>)
    requires
        buffer_sequential(*old(buf)),
    ensures
        buffer_bytes(*final(buf)) == buffer_bytes(*old(buf)),
        buffer_sequential(*final(buf)),
        match r {
            Ok(v) => buffer_read_pos(*old(buf)) + 2 <= buffer_bytes(*old(buf)).len()
                && v == be16_value(
                buffer_bytes(*old(buf))[buffer_read_pos(*old(buf)) as int],
                buffer_bytes(*old(buf))[(buffer_read_pos(*old(buf)) + 1) as int],
            ) && buffer_read_pos(*final(buf)) == buffer_read_pos(*old(buf)) + 2,
            Err(e) => e == DecodeError::TruncatedInput && buffer_read_pos(*old(buf)) + 2
                > buffer_bytes(*old(buf)).len() && buffer_read_pos(*final(buf))
                == buffer_read_pos(*old(buf)),
        },
{
    match buffer_read_u16(buf) {
        Ok(v) => Ok(v),
        Err(_) => Err(DecodeError::TruncatedInput),
    }
}

/// The body of the segment whose length field stands at place `p`: it follows
/// the two bytes of the field, which count into the length.
pub open spec fn block_at(s: Seq<u8>, p: int) -> Result<Seq<u8>, DecodeError> {
    if p + 2 > s.len() {
        Err(DecodeError::TruncatedInput)
    } else if be16_value(s[p], s[p + 1]) < 2 {
        Err(DecodeError::BadLength)
    } else if p + be16_value(s[p], s[p + 1]) > s.len() {
        Err(DecodeError::TruncatedInput)
    } else {
        Ok(s.subrange(p + 2, p + be16_value(s[p], s[p + 1])))
    }
}

/// Reads the length field under the read cursor and the body that it
/// announces, and leaves the cursor behind the body.
pub fn read_block(buf: &mut ByteBuffer) -> (r: Result<Vec<u8>, DecodeError>)
    requires
        buffer_sequential(*old(buf)),
        buffer_read_pos(*old(buf)) <= buffer_bytes(*old(buf)).len(),
    ensures
        buffer_bytes(*final(buf)) == buffer_bytes(*old(buf)),
        buffer_sequential(*final(buf)),
        buffer_read_pos(*final(buf)) <= buffer_bytes(*old(buf)).len(),
        match r {
            Ok(block) => block_at(buffer_bytes(*old(buf)), buffer_read_pos(*old(buf)) as int)
                == Ok::<Seq<u8>, DecodeError>(block@) && buffer_read_pos(*final(buf))
                == buffer_read_pos(*old(buf)) + 2 + block@.len() && block@.len() <= 65533,
            Err(e) => block_at(buffer_bytes(*old(buf)), buffer_read_pos(*old(buf)) as int)
                == Err::<Seq<u8>, DecodeError>(e),
        },
{
    let length = take_u16(buf)?;
    if length < 2 {
        return Err(DecodeError::BadLength);
    }
    let length = length as usize - 2;
    let total = buffer_len(buf);
    let rpos = buffer_get_rpos(buf);
    if length > total - rpos {
        return Err(DecodeError::TruncatedInput);
    }
    match buffer_read_bytes(buf, length) {
        Ok(block) => Ok(block),
        Err(_) => Err(DecodeError::TruncatedInput),
    }
}

/// The JFIF segment that a body spells: at least its fourteen fixed bytes;
/// what follows them is a thumbnail, which is left aside.
pub open spec fn app0_of(block: Seq<u8>) -> Result<APP0, DecodeError> {
    if block.len() < 14 {
        Err(DecodeError::BadLength)
    } else {
        Ok(
            APP0 {
                length: (block.len() + 2) as u16,
                identifier: [block[0], block[1], block[2], block[3], block[4]],
                major_version: block[5],
                minor_version: block[6],
                units: block[7],
                x_density: be16_value(block[8], block[9]) as u16,
                y_density: be16_value(block[10], block[11]) as u16,
                x_thumbnail: block[12],
                y_thumbnail: block[13],
            },
        )
    }
}

/// Reads the body of a JFIF segment.
pub fn parse_app0(block: &[u8]) -> (r: Result<APP0, DecodeError>)
    requires
        block@.len() <= 65533,
    ensures
        r == app0_of(block@),
{
    if block.len() < 14 {
        return Err(DecodeError::BadLength);
    }
    let mut buf = buffer_from_bytes(block);
    let mut ret = APP0::default();
    ret.length = block.len() as u16 + 2;
    let i0 = take_u8(&mut buf)?;
    let i1 = take_u8(&mut buf)?;
    let i2 = take_u8(&mut buf)?;
    let i3 = take_u8(&mut buf)?;
    let i4 = take_u8(&mut buf)?;
    ret.identifier = [i0, i1, i2, i3, i4];
    ret.major_version = take_u8(&mut buf)?;
    ret.minor_version = take_u8(&mut buf)?;
    ret.units = take_u8(&mut buf)?;
    ret.x_density = take_u16(&mut buf)?;
    ret.y_density = take_u16(&mut buf)?;
    ret.x_thumbnail = take_u8(&mut buf)?;
    ret.y_thumbnail = take_u8(&mut buf)?;
    Ok(ret)
}

/// Entry `k` of the quantization table in a body: one byte, or two bytes with
/// the high byte first.
pub open spec fn dqt_entry(block: Seq<u8>, is_precision_16: bool, k: int) -> u16 {
    if is_precision_16 {
        be16_value(block[1 + 2 * k], block[2 + 2 * k]) as u16
    } else {
        block[1 + k] as u16
    }
}

/// The number and the entries, in wire order, of the quantization table that a
/// body spells. The body holds one table and nothing else.
pub open spec fn dqt_of(block: Seq<u8>) -> Result<(u8, Seq<u16>), DecodeError> {
    if block.len() == 0 {
        Err(DecodeError::BadLength)
    } else if block.len() != (if block[0] >> 4 != 0 { 129int } else { 65int }) {
        Err(DecodeError::BadLength)
    } else {
        Ok((block[0] & 0x0F, Seq::new(64, |k: int| dqt_entry(block, block[0] >> 4 != 0, k))))
    }
}

/// Reads the body of a quantization table segment: the table's number and the
/// table, its entries taken out of their zigzag order.
pub fn parse_dqt(block: &[u8]) -> (r: Result<(u8, QuantizationTable), DecodeError>)
    ensures
        match r {
            Ok((id, table)) => dqt_of(block@) is Ok && id == dqt_of(block@)->Ok_0.0
                && is_zigzag_of(dqt_of(block@)->Ok_0.1, table.0@),
            Err(e) => dqt_of(block@) == Err::<(u8, Seq<u16>), DecodeError>(e),
        },
{
    let mut buf = buffer_from_bytes(block);
    let precision_and_id = match take_u8(&mut buf) {
        Ok(v) => v,
        Err(_) => { return Err(DecodeError::BadLength); },
    };
    let id = precision_and_id & 0x0F;
    let precision = precision_and_id >> 4;
    let expected: usize = if precision != 0 { 129 } else { 65 };
    if block.len() != expected {
        return Err(DecodeError::BadLength);
    }
    let mut flat = [0u16;64];
    let mut k: usize = 0;
    while k < 64
        invariant
            k <= 64,
            buffer_sequential(buf),
            buffer_bytes(buf) == block@,
            precision == block@[0] >> 4,
            block@.len() == (if precision != 0 { 129int } else { 65int }),
            buffer_read_pos(buf) == (if precision != 0 { 1 + 2 * k } else { 1 + k }),
            forall|j: int| 0 <= j < k ==> flat@[j] == dqt_entry(block@, precision != 0, j),
        decreases 64 - k,
    {
        let entry = if precision == 0 {
            take_u8(&mut buf)? as u16
        } else {
            take_u16(&mut buf)?
        };
        flat[k] = entry;
        k += 1;
    }
    assert(flat@ =~= dqt_of(block@)->Ok_0.1);
    Ok((id, QuantizationTable(zigzag_unscan(&flat, 0u16))))
}

/// The class, the number, the counts per length and the symbols of the Huffman
/// table that a body spells. The body holds one table, with as many symbols as
/// its counts announce, and nothing else.
pub open spec fn dht_of(block: Seq<u8>) -> Result<(u8, u8, Seq<u8>, Seq<u8>), DecodeError> {
    if block.len() < 17 {
        Err(DecodeError::BadLength)
    } else if block.len() - 17 != count_upto(block.subrange(1, 17), 16) {
        Err(DecodeError::BadLength)
    } else {
        Ok((block[0] >> 4, block[0] & 0x0F, block.subrange(1, 17), block.subrange(17,
            block.len() as int)))
    }
}

/// Reads the body of a Huffman table segment: the table in its ready form, its
/// class and its number.
pub fn parse_dht(block: &[u8]) -> (r: Result<(CachedHuffmanTable, u8, u8), DecodeError>)
    ensures
        match r {
            Ok((table, table_class, id)) => dht_of(block@) is Ok && table_class == dht_of(
                block@,
            )->Ok_0.0 && id == dht_of(block@)->Ok_0.1 && table.wf() && table.1.codes@ == dht_of(
                block@,
            )->Ok_0.2 && table.1.values@ == dht_of(block@)->Ok_0.3,
            Err(e) => dht_of(block@) == Err::<(u8, u8, Seq<u8>, Seq<u8>), DecodeError>(e),
        },
{
    if block.len() < 17 {
        return Err(DecodeError::BadLength);
    }
    let mut buf = buffer_from_bytes(block);
    let mut ret = JpegHuffmanTable::new();
    let table_class_and_id = take_u8(&mut buf)?;
    let table_class = table_class_and_id >> 4;
    let id = table_class_and_id & 0x0F;
    let mut total: usize = 0;
    let mut i: usize = 0;
    while i < 16
        invariant
            i <= 16,
            buffer_sequential(buf),
            buffer_bytes(buf) == block@,
            block@.len() >= 17,
            buffer_read_pos(buf) == 1 + i,
            forall|j: int| 0 <= j < i ==> ret.codes@[j] == block@[1 + j],
            total == count_upto(block@.subrange(1, 17), i as nat),
            total <= 255 * i,
            ret.values@.len() == 0,
        decreases 16 - i,
    {
        let count = take_u8(&mut buf)?;
        ret.codes[i] = count;
        total = total + count as usize;
        i += 1;
    }
    assert(ret.codes@ =~= block@.subrange(1, 17));
    if block.len() - 17 != total {
        return Err(DecodeError::BadLength);
    }
    let len = buffer_len(&buf);
    while buffer_get_rpos(&buf) < len
        invariant
            buffer_sequential(buf),
            buffer_bytes(buf) == block@,
            len == block@.len(),
            17 <= buffer_read_pos(buf) <= len,
            ret.codes@ == block@.subrange(1, 17),
            ret.values@ == block@.subrange(17, buffer_read_pos(buf) as int),
        decreases len - buffer_read_pos(buf),
    {
        let value = take_u8(&mut buf)?;
        ret.values.push(value);
        assert(ret.values@ =~= block@.subrange(17, buffer_read_pos(buf) as int));
    }
    proof {
        lemma_codewords_len(ret.codes@, 16);
    }
    Ok((ret.to_cached(), table_class, id))
}

} // verus!
