//! Byte buffers: the `bytebuffer` crate's buffer, through which marker segments
//! are written and read.
//!
//! Each function here makes one call into `bytebuffer`; its contract is taken on
//! trust from that crate's source.

use bytebuffer::ByteBuffer;
use vstd::prelude::*;

verus! {

#[verifier::external_type_specification]
#[verifier::external_body]
pub struct ExByteBuffer(ByteBuffer);

#[verifier::external_type_specification]
#[verifier::external_body]
pub struct ExIoError(std::io::Error);

/// The bytes that a buffer holds, from its start.
pub uninterp spec fn buffer_bytes(b: ByteBuffer) -> Seq<u8>;

/// The position of a buffer's read cursor.
pub uninterp spec fn buffer_read_pos(b: ByteBuffer) -> nat;

/// The buffer is in the state that byte-wise use keeps it in: it writes at its
/// end, in big-endian order, and no bit-level read or write is pending.
pub uninterp spec fn buffer_sequential(b: ByteBuffer) -> bool;

/// The two bytes of `v`, the high byte first.
pub open spec fn be16(v: u16) -> Seq<u8> {
    seq![(v / 256) as u8, (v % 256) as u8]
}

/// The number that two bytes spell, the high byte first.
pub open spec fn be16_value(hi: u8, lo: u8) -> int {
    hi * 256 + lo
}

/// `ByteBuffer::new`: an empty buffer, big-endian, both cursors at zero.
#[verifier::external_body]
pub(crate) fn buffer_new() -> (r: ByteBuffer)
    ensures
        buffer_bytes(r) == Seq::<u8>::empty(),
        buffer_read_pos(r) == 0,
        buffer_sequential(r),
{
    ByteBuffer::new()
}

/// `ByteBuffer::from_bytes`: a new buffer that holds a copy of `bytes`, its read
/// cursor at zero.
#[verifier::external_body]
pub(crate) fn buffer_from_bytes(bytes: &[u8]) -> (r: ByteBuffer)
    ensures
        buffer_bytes(r) == bytes@,
        buffer_read_pos(r) == 0,
        buffer_sequential(r),
{
    ByteBuffer::from_bytes(bytes)
}

/// `ByteBuffer::write_u8`: appends one byte.
#[verifier::external_body]
pub(crate) fn buffer_write_u8(b: &mut ByteBuffer, v: u8)
    requires
        buffer_sequential(*old(b)),
    ensures
        buffer_bytes(*final(b)) == buffer_bytes(*old(b)).push(v),
        buffer_read_pos(*final(b)) == buffer_read_pos(*old(b)),
        buffer_sequential(*final(b)),
{
    b.write_u8(v)
}

/// `ByteBuffer::write_u16`: appends the two bytes of `v`; on a big-endian
/// buffer the high byte comes first.
#[verifier::external_body]
pub(crate) fn buffer_write_u16(b: &mut ByteBuffer, v: u16)
    requires
        buffer_sequential(*old(b)),
    ensures
        buffer_bytes(*final(b)) == buffer_bytes(*old(b)) + be16(v),
        buffer_read_pos(*final(b)) == buffer_read_pos(*old(b)),
        buffer_sequential(*final(b)),
{
    b.write_u16(v)
}

/// `ByteBuffer::write_bytes`: appends the bytes of the slice.
#[verifier::external_body]
pub(crate) fn buffer_write_bytes(b: &mut ByteBuffer, bytes: &[u8])
    requires
        buffer_sequential(*old(b)),
    ensures
        buffer_bytes(*final(b)) == buffer_bytes(*old(b)) + bytes@,
        buffer_read_pos(*final(b)) == buffer_read_pos(*old(b)),
        buffer_sequential(*final(b)),
{
    b.write_bytes(bytes)
}

/// `ByteBuffer::into_vec`: the bytes that the buffer holds.
#[verifier::external_body]
pub(crate) fn buffer_into_vec(b: ByteBuffer) -> (r: Vec<u8>)
    ensures
        r@ == buffer_bytes(b),
{
    b.into_vec()
}

/// `ByteBuffer::len`: the number of bytes held.
#[verifier::external_body]
pub(crate) fn buffer_len(b: &ByteBuffer) -> (r: usize)
    ensures
        r == buffer_bytes(*b).len(),
{
    b.len()
}

/// `ByteBuffer::get_rpos`: the read cursor, which byte-wise reads never move
/// past the end.
#[verifier::external_body]
pub(crate) fn buffer_get_rpos(b: &ByteBuffer) -> (r: usize)
    requires
        buffer_sequential(*b),
    ensures
        r == buffer_read_pos(*b),
        r <= buffer_bytes(*b).len(),
{
    b.get_rpos()
}

/// `ByteBuffer::read_u8`: the byte under the read cursor, which moves on by
/// one; an error, and no change, when the cursor is at the end.
#[verifier::external_body]
pub(crate) fn buffer_read_u8(b: &mut ByteBuffer) -> (r: Result<u8, std::io::Error>)
    requires
        buffer_sequential(*old(b)),
    ensures
        buffer_bytes(*final(b)) == buffer_bytes(*old(b)),
        buffer_sequential(*final(b)),
        match r {
            Ok(v) => buffer_read_pos(*old(b)) < buffer_bytes(*old(b)).len()
                && v == buffer_bytes(*old(b))[buffer_read_pos(*old(b)) as int]
                && buffer_read_pos(*final(b)) == buffer_read_pos(*old(b)) + 1,
            Err(_) => buffer_read_pos(*old(b)) >= buffer_bytes(*old(b)).len()
                && buffer_read_pos(*final(b)) == buffer_read_pos(*old(b)),
        },
{
    b.read_u8()
}

/// `ByteBuffer::read_u16`: the big-endian number in the two bytes under the
/// read cursor, which moves on by two; an error, and no change, when fewer than
/// two bytes are left.
#[verifier::external_body]
pub(crate) fn buffer_read_u16(b: &mut ByteBuffer) -> (r: Result<u16, std::io::Error>)
    requires
        buffer_sequential(*old(b)),
    ensures
        buffer_bytes(*final(b)) == buffer_bytes(*old(b)),
        buffer_sequential(*final(b)),
        match r {
            Ok(v) => buffer_read_pos(*old(b)) + 2 <= buffer_bytes(*old(b)).len()
                && v == be16_value(
                buffer_bytes(*old(b))[buffer_read_pos(*old(b)) as int],
                buffer_bytes(*old(b))[(buffer_read_pos(*old(b)) + 1) as int],
            ) && buffer_read_pos(*final(b)) == buffer_read_pos(*old(b)) + 2,
            Err(_) => buffer_read_pos(*old(b)) + 2 > buffer_bytes(*old(b)).len()
                && buffer_read_pos(*final(b)) == buffer_read_pos(*old(b)),
        },
{
    b.read_u16()
}

/// `ByteBuffer::read_bytes`: the `size` bytes under the read cursor, which
/// moves on past them; an error, and no change, when fewer are left.
#[verifier::external_body]
pub(crate) fn buffer_read_bytes(b: &mut ByteBuffer, size: usize) -> (r: Result<
    Vec<u8>,
    std::io::Error,
>)
    requires
        buffer_sequential(*old(b)),
        buffer_read_pos(*old(b)) + size <= usize::MAX,
    ensures
        buffer_bytes(*final(b)) == buffer_bytes(*old(b)),
        buffer_sequential(*final(b)),
        match r {
            Ok(v) => buffer_read_pos(*old(b)) + size <= buffer_bytes(*old(b)).len()
                && v@ == buffer_bytes(*old(b)).subrange(
                buffer_read_pos(*old(b)) as int,
                (buffer_read_pos(*old(b)) + size) as int,
            ) && buffer_read_pos(*final(b)) == buffer_read_pos(*old(b)) + size,
            Err(_) => buffer_read_pos(*old(b)) + size > buffer_bytes(*old(b)).len()
                && buffer_read_pos(*final(b)) == buffer_read_pos(*old(b)),
        },
{
    b.read_bytes(size)
}

} // verus!
