//! The scan as bytes: bits packed eight to a byte, and `FF` bytes stuffed.

use crate::bits::msb0_value;
use crate::entropy::JpegOutputData;
use crate::markers::ImageData;
use vstd::prelude::*;

verus! {

/// The scan, filled up with 1-bits to a whole number of bytes.
pub open spec fn padded_scan(bits: Seq<bool>) -> Seq<bool> {
    bits + Seq::new(((8 - bits.len() % 8) % 8) as nat, |i: int| true)
}

/// The bytes that a string of bits packs into, the first bit of each eight
/// being the most significant; bits beyond the last full eight are left out.
pub open spec fn pack_bytes(bits: Seq<bool>) -> Seq<u8> {
    Seq::new(bits.len() / 8, |i: int| msb0_value(bits.subrange(8 * i, 8 * i + 8)) as u8)
}

/// The bytes with a zero byte put behind every `FF`.
pub open spec fn stuff(bytes: Seq<u8>) -> Seq<u8>
    decreases bytes.len(),
{
    if bytes.len() == 0 {
        Seq::empty()
    } else if bytes.last() == 0xFF {
        stuff(bytes.drop_last()) + seq![0xFFu8, 0x00u8]
    } else {
        stuff(bytes.drop_last()).push(bytes.last())
    }
}

/// How the reading of a scan ends.
pub enum ScanEnd {
    /// The end-of-image marker was found: the bytes of the scan without
    /// stuffing, and the place behind the marker.
    Done { data: Seq<u8>, next: int },
    /// The bytes ended before an end-of-image marker.
    Truncated,
    /// An `FF` was followed by something other than `00` or `D9`.
    BadMarker,
}

/// Reads a scan from place `p` of `s`, `data` having been read before: a byte
/// other than `FF` stands for itself, `FF 00` stands for `FF`, and `FF D9` ends
/// the scan.
pub open spec fn read_scan(s: Seq<u8>, p: int, data: Seq<u8>) -> ScanEnd
    decreases s.len() - p,
{
    if p < 0 || p >= s.len() {
        ScanEnd::Truncated
    } else if s[p] != 0xFF {
        read_scan(s, p + 1, data.push(s[p]))
    } else if p + 1 >= s.len() {
        ScanEnd::Truncated
    } else if s[p + 1] == 0x00 {
        read_scan(s, p + 2, data.push(0xFFu8))
    } else if s[p + 1] == 0xD9 {
        ScanEnd::Done { data, next: p + 2 }
    } else {
        ScanEnd::BadMarker
    }
}

/// In stuffed bytes every `FF` is followed by a zero byte.
pub proof fn lemma_stuff_has_no_marker(bytes: Seq<u8>, i: int)
    requires
        0 <= i < stuff(bytes).len(),
        stuff(bytes)[i] == 0xFF,
    ensures
        i + 1 < stuff(bytes).len(),
        stuff(bytes)[i + 1] == 0x00,
    decreases bytes.len(),
{
    if bytes.len() > 0 {
        let head = stuff(bytes.drop_last());
        if i < head.len() {
            lemma_stuff_has_no_marker(bytes.drop_last(), i);
        }
    }
}

/// Reading over stuffed bytes gives the bytes back and goes on behind them.
pub proof fn lemma_read_over_stuffed(bytes: Seq<u8>, before: Seq<u8>, after: Seq<u8>, data: Seq<u8>)
    ensures
        read_scan(before + stuff(bytes) + after, before.len() as int, data) == read_scan(
            before + stuff(bytes) + after,
            (before.len() + stuff(bytes).len()) as int,
            data + bytes,
        ),
    decreases bytes.len(),
{
    let s = before + stuff(bytes) + after;
    if bytes.len() == 0 {
        assert(data + bytes =~= data);
    } else {
        let first = bytes[0];
        let rest = bytes.skip(1);
        lemma_stuff_split(seq![first], rest);
        assert(seq![first] + rest =~= bytes);
        assert(seq![first].drop_last() =~= Seq::<u8>::empty());
        assert(stuff(seq![first].drop_last()) =~= Seq::<u8>::empty());
        let first_stuffed = stuff(seq![first]);
        assert(first_stuffed =~= if first == 0xFF {
            seq![0xFFu8, 0x00u8]
        } else {
            seq![first]
        });
        let before2 = before + first_stuffed;
        assert(before2 + stuff(rest) + after =~= s);
        lemma_read_over_stuffed(rest, before2, after, data.push(first));
        assert(data.push(first) + rest =~= data + bytes);
        assert(s[before.len() as int] == first_stuffed[0]);
        if first == 0xFF {
            assert(s[(before.len() + 1) as int] == first_stuffed[1]);
        }
    }
}

/// Stuffing goes byte by byte.
pub proof fn lemma_stuff_split(a: Seq<u8>, b: Seq<u8>)
    ensures
        stuff(a + b) == stuff(a) + stuff(b),
    decreases b.len(),
{
    if b.len() == 0 {
        assert(a + b =~= a);
        assert(stuff(a) + stuff(b) =~= stuff(a));
    } else {
        assert((a + b).drop_last() =~= a + b.drop_last());
        lemma_stuff_split(a, b.drop_last());
        assert(stuff(a + b) =~= stuff(a) + stuff(b));
    }
}

/// Stuffed bytes that an end-of-image marker follows are read back as they
/// were before stuffing, whatever stands behind the marker.
pub proof fn lemma_unstuff_stuff(bytes: Seq<u8>, rest: Seq<u8>)
    ensures
        read_scan(stuff(bytes) + seq![0xFFu8, 0xD9u8] + rest, 0, Seq::empty()) == (ScanEnd::Done {
            data: bytes,
            next: (stuff(bytes).len() + 2) as int,
        }),
{
    let s = stuff(bytes) + seq![0xFFu8, 0xD9u8] + rest;
    let after = seq![0xFFu8, 0xD9u8] + rest;
    assert(Seq::<u8>::empty() + stuff(bytes) + after =~= s);
    lemma_read_over_stuffed(bytes, Seq::empty(), after, Seq::empty());
    assert(Seq::<u8>::empty() + bytes =~= bytes);
    let p = stuff(bytes).len() as int;
    assert(s[p] == 0xFF);
    assert(s[p + 1] == 0xD9);
}

impl JpegOutputData {
    /// The scan as it stands in the file: filled up with 1-bits to whole
    /// bytes, packed, and stuffed.
    pub fn to_image_data(&self) -> (r: ImageData)
        ensures
            r.0@ == stuff(pack_bytes(padded_scan(self.scan@))),
    {
        let mut ret = ImageData::new();
        let scan = &self.scan;
        let len = scan.len();
        let n_bytes = len / 8 + (if len % 8 == 0 { 0 } else { 1 });
        let ghost padded = padded_scan(scan@);
        let ghost packed = pack_bytes(padded);
        assert(padded.len() == 8 * n_bytes);
        let mut k: usize = 0;
        while k < n_bytes
            invariant
                k <= n_bytes,
                len == scan@.len(),
                padded == padded_scan(scan@),
                padded.len() == 8 * n_bytes,
                packed == pack_bytes(padded),
                ret.0@ == stuff(packed.take(k as int)),
            decreases n_bytes - k,
        {
            let mut acc: u8 = 0;
            let mut j: usize = 0;
            let ghost chunk = padded.subrange(8 * k, 8 * k + 8);
            proof {
                assert(chunk.take(0) =~= Seq::<bool>::empty());
                vstd::arithmetic::power2::lemma2_to64();
            }
            while j < 8
                invariant
                    j <= 8,
                    k < n_bytes,
                    len == scan@.len(),
                    padded == padded_scan(scan@),
                    padded.len() == 8 * n_bytes,
                    chunk == padded.subrange(8 * k, 8 * k + 8),
                    acc == msb0_value(chunk.take(j as int)),
                    acc < vstd::arithmetic::power2::pow2(j as nat),
                decreases 8 - j,
            {
                let idx = 8 * k + j;
                let bit = if idx < len {
                    scan.get(idx)
                } else {
                    true
                };
                proof {
                    vstd::arithmetic::power2::lemma2_to64();
                    vstd::arithmetic::power2::lemma_pow2_unfold((j + 1) as nat);
                    assert(chunk.take(j + 1).drop_last() =~= chunk.take(j as int));
                    assert(chunk.take(j + 1).last() == padded[idx as int]);
                    assert(padded[idx as int] == bit);
                }
                acc = acc * 2 + (if bit { 1 } else { 0 });
                j += 1;
            }
            proof {
                assert(chunk.take(8) =~= chunk);
                assert(packed.take(k + 1).drop_last() =~= packed.take(k as int));
                assert(packed.take(k + 1).last() == acc);
            }
            ret.0.push(acc);
            if acc == 0xFF {
                ret.0.push(0);
                assert(ret.0@ =~= stuff(packed.take(k as int)) + seq![0xFFu8, 0x00u8]);
            }
            k += 1;
        }
        assert(packed.take(n_bytes as int) =~= packed);
        ret
    }
}

} // verus!
