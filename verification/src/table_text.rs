//! Huffman tables written out as text: one line for each symbol, with the
//! symbol in hexadecimal, the length of its codeword, and the codeword, a
//! tabulator between them.

use crate::bits::BitString;
use crate::huffman::JpegHuffmanTable;
use vstd::prelude::*;
use vstd::string::StringSliceAdditionalSpecFns;

verus! {

/// One line of a table: a symbol, the length of its codeword, and the
/// codeword as the line spells it.
pub struct TableLine {
    pub symbol: u8,
    pub length: u8,
    pub bits: Vec<bool>,
}

/// What a line of a table says.
pub struct LineSpec {
    pub symbol: u8,
    pub length: u8,
    pub bits: Seq<bool>,
}

impl TableLine {
    /// What the line says.
    pub open spec fn spec(&self) -> LineSpec {
        LineSpec { symbol: self.symbol, length: self.length, bits: self.bits@ }
    }
}

/// The first place from `p` on, and before `end`, that holds `stop`; `end`
/// where none does.
pub open spec fn next_stop(s: Seq<u8>, p: int, end: int, stop: u8) -> int
    decreases end - p,
{
    if p >= end || p < 0 || end > s.len() {
        end
    } else if s[p] == stop {
        p
    } else {
        next_stop(s, p + 1, end, stop)
    }
}

/// The value of a hexadecimal digit.
pub open spec fn hex_digit(c: u8) -> Option<u8> {
    if 0x30 <= c <= 0x39 {
        Some((c - 0x30) as u8)
    } else if 0x41 <= c <= 0x46 {
        Some((c - 0x41 + 10) as u8)
    } else if 0x61 <= c <= 0x66 {
        Some((c - 0x61 + 10) as u8)
    } else {
        None
    }
}

/// The number that one or two digits to the base `base` spell.
pub open spec fn number_field(s: Seq<u8>, base: u8) -> Option<u8> {
    if s.len() == 1 {
        match hex_digit(s[0]) {
            Some(d) => if d < base {
                Some(d)
            } else {
                None
            },
            None => None,
        }
    } else if s.len() == 2 {
        match (hex_digit(s[0]), hex_digit(s[1])) {
            (Some(hi), Some(lo)) => if hi < base && lo < base {
                Some((hi * base + lo) as u8)
            } else {
                None
            },
            _ => None,
        }
    } else {
        None
    }
}

/// The bits that a string of at most sixteen of the characters `0` and `1`
/// spells.
pub open spec fn bits_field(s: Seq<u8>) -> Option<Seq<bool>> {
    if s.len() <= 16 && forall|i: int| 0 <= i < s.len() ==> s[i] == 0x30 || s[i] == 0x31 {
        Some(Seq::new(s.len(), |i: int| s[i] == 0x31))
    } else {
        None
    }
}

/// What the line from `p` up to `end` says: its first field is the symbol,
/// one or two hexadecimal digits; its second field the length, one or two
/// decimal digits that spell a number from 1 to 16; its third field, which may
/// be missing, the codeword, of at most sixteen bits. Further fields are not
/// looked at.
pub open spec fn line_of(s: Seq<u8>, p: int, end: int) -> Option<LineSpec> {
    let a = next_stop(s, p, end, 0x09);
    let b = next_stop(s, a + 1, end, 0x09);
    let c = next_stop(s, b + 1, end, 0x09);
    if a >= end {
        None
    } else {
        match (
            number_field(s.subrange(p, a), 16),
            number_field(s.subrange(a + 1, b), 10),
            bits_field(
                if b >= end {
                    Seq::empty()
                } else {
                    s.subrange(b + 1, c)
                },
            ),
        ) {
            (Some(symbol), Some(length), Some(bits)) => if 1 <= length <= 16 {
                Some(LineSpec { symbol, length, bits })
            } else {
                None
            },
            _ => None,
        }
    }
}

/// What the lines from `p` on say, `before` being what the lines before
/// say. A line ends at a line feed or at the end of the text.
pub open spec fn lines_from(s: Seq<u8>, p: int, before: Seq<LineSpec>) -> Option<Seq<LineSpec>>
    decreases s.len() - p,
{
    let end = next_stop(s, p, s.len() as int, 0x0A);
    if p < 0 || p > s.len() {
        None
    } else {
        match line_of(s, p, end) {
            None => None,
            Some(line) => if end >= s.len() {
                Some(before.push(line))
            } else {
                lines_from(s, end + 1, before.push(line))
            },
        }
    }
}

/// The lines whose codeword has `length` bits, in their order.
pub open spec fn lines_of_length(lines: Seq<LineSpec>, length: u8) -> Seq<LineSpec>
    decreases lines.len(),
{
    if lines.len() == 0 {
        Seq::empty()
    } else if lines.last().length == length {
        lines_of_length(lines.drop_last(), length).push(lines.last())
    } else {
        lines_of_length(lines.drop_last(), length)
    }
}

/// The lines whose codeword has at most `upto` bits, in the order of the
/// lengths and, within a length, in their own order.
pub open spec fn lines_by_length(lines: Seq<LineSpec>, upto: nat) -> Seq<LineSpec>
    decreases upto,
{
    if upto == 0 {
        Seq::empty()
    } else {
        lines_by_length(lines, (upto - 1) as nat) + lines_of_length(lines, upto as u8)
    }
}

/// No length has more than 255 lines.
pub open spec fn counts_fit(lines: Seq<LineSpec>) -> bool {
    forall|l: u8| 1 <= l <= 16 ==> #[trigger] lines_of_length(lines, l).len() <= 255
}

/// `values` and `bits` hold the symbols and the codewords of `lines`.
pub open spec fn matches_lines(values: Seq<u8>, bits: Seq<BitString>,
    lines: Seq<LineSpec>) -> bool {
    &&& values.len() == lines.len()
    &&& bits.len() == lines.len()
    &&& forall|k: int|
        0 <= k < lines.len() ==> values[k] == (#[trigger] lines[k]).symbol && bits[k]@
            == lines[k].bits
}

/// The place of the next `stop` from `p` on and before `end`.
fn find_stop(s: &[u8], p: usize, end: usize, stop: u8) -> (r: usize)
    requires
        p <= end <= s@.len(),
    ensures
        r == next_stop(s@, p as int, end as int, stop),
        p <= r <= end,
{
    let mut i = p;
    while i < end && s[i] != stop
        invariant
            p <= i <= end <= s@.len(),
            next_stop(s@, p as int, end as int, stop) == next_stop(s@, i as int, end as int, stop),
        decreases end - i,
    {
        i += 1;
    }
    i
}

/// The value of a hexadecimal digit.
fn digit(c: u8) -> (r: Option<u8>)
    ensures
        r == hex_digit(c),
{
    if 0x30 <= c && c <= 0x39 {
        Some(c - 0x30)
    } else if 0x41 <= c && c <= 0x46 {
        Some(c - 0x41 + 10)
    } else if 0x61 <= c && c <= 0x66 {
        Some(c - 0x61 + 10)
    } else {
        None
    }
}

/// The number that the field from `from` up to `to` spells.
fn read_number(s: &[u8], from: usize, to: usize, base: u8) -> (r: Option<u8>)
    requires
        from <= to <= s@.len(),
        base == 10 || base == 16,
    ensures
        r == number_field(s@.subrange(from as int, to as int), base),
{
    if to - from == 1 {
        match digit(s[from]) {
            Some(d) => if d < base {
                Some(d)
            } else {
                None
            },
            None => None,
        }
    } else if to - from == 2 {
        match (digit(s[from]), digit(s[from + 1])) {
            (Some(hi), Some(lo)) => if hi < base && lo < base {
                Some(hi * base + lo)
            } else {
                None
            },
            _ => None,
        }
    } else {
        None
    }
}

/// The bits that the field from `from` up to `to` spells.
fn read_bits(s: &[u8], from: usize, to: usize) -> (r: Option<Vec<bool>>)
    requires
        from <= to <= s@.len(),
    ensures
        match r {
            Some(bits) => bits_field(s@.subrange(from as int, to as int)) == Some(bits@),
            None => bits_field(s@.subrange(from as int, to as int)) is None,
        },
{
    let ghost field = s@.subrange(from as int, to as int);
    if to - from > 16 {
        return None;
    }
    let mut bits: Vec<bool> = Vec::new();
    let mut i = from;
    while i < to
        invariant
            from <= i <= to <= s@.len(),
            field == s@.subrange(from as int, to as int),
            bits@.len() == i - from,
            forall|k: int| 0 <= k < i - from ==> (field[k] == 0x30 || field[k] == 0x31)
                && bits@[k] == (
            field[k] == 0x31),
        decreases to - i,
    {
        let c = s[i];
        if c == 0x30 {
            bits.push(false);
        } else if c == 0x31 {
            bits.push(true);
        } else {
            assert(!(field[i - from] == 0x30 || field[i - from] == 0x31));
            return None;
        }
        i += 1;
    }
    assert(bits@ =~= Seq::new(field.len(), |k: int| field[k] == 0x31));
    Some(bits)
}

/// What the line from `p` up to `end` says.
fn read_line(s: &[u8], p: usize, end: usize) -> (r: Option<TableLine>)
    requires
        p <= end <= s@.len(),
    ensures
        match r {
            Some(line) => line_of(s@, p as int, end as int) == Some(line.spec()) && line.bits@.len()
                <= 16,
            None => line_of(s@, p as int, end as int) is None,
        },
{
    let a = find_stop(s, p, end, 0x09);
    if a >= end {
        return None;
    }
    let b = find_stop(s, a + 1, end, 0x09);
    let symbol = read_number(s, p, a, 16);
    let length = read_number(s, a + 1, b, 10);
    let bits = if b >= end {
        assert(bits_field(Seq::<u8>::empty()) == Some(Seq::<bool>::empty())) by {
            assert(Seq::new(0, |i: int| Seq::<u8>::empty()[i] == 0x31) =~= Seq::<bool>::empty());
        }
        Some(Vec::new())
    } else {
        let c = find_stop(s, b + 1, end, 0x09);
        read_bits(s, b + 1, c)
    };
    match (symbol, length, bits) {
        (Some(symbol), Some(length), Some(bits)) => if 1 <= length && length <= 16 {
            Some(TableLine { symbol, length, bits })
        } else {
            None
        },
        _ => None,
    }
}

/// What the lines of a text say.
fn read_lines(s: &[u8]) -> (r: Option<Vec<TableLine>>)
    ensures
        match r {
            Some(lines) => lines_from(s@, 0, Seq::empty()) == Some(
                lines@.map_values(|line: TableLine| line.spec()),
            ) && forall|k: int| 0 <= k < lines@.len() ==> (#[trigger] lines@[k]).bits@.len() <= 16,
            None => lines_from(s@, 0, Seq::empty()) is None,
        },
{
    let mut lines: Vec<TableLine> = Vec::new();
    let mut p: usize = 0;
    assert(lines@.map_values(|line: TableLine| line.spec()) =~= Seq::<LineSpec>::empty());
    loop
        invariant
            p <= s@.len(),
            forall|k: int| 0 <= k < lines@.len() ==> (#[trigger] lines@[k]).bits@.len() <= 16,
            lines_from(s@, 0, Seq::empty()) == lines_from(
                s@,
                p as int,
                lines@.map_values(|line: TableLine| line.spec()),
            ),
        decreases s@.len() - p,
    {
        let end = find_stop(s, p, s.len(), 0x0A);
        let line = match read_line(s, p, end) {
            Some(line) => line,
            None => { return None; },
        };
        let ghost before = lines@.map_values(|line: TableLine| line.spec());
        lines.push(line);
        assert(lines@.map_values(|line: TableLine| line.spec()) =~= before.push(line.spec()));
        if end >= s.len() {
            return Some(lines);
        }
        p = end + 1;
    }
}

/// The table that a text describes, and the codewords as the text spells
/// them, in the order of the table's symbols: by length and, within a length,
/// in the order of the lines. `None` where a line is not as [`line_of`] has it,
/// or where more than 255 lines have one length.
pub fn generate_huffman_table(content: &str) -> (r: Option<(JpegHuffmanTable, Vec<BitString>)>)
    ensures
        match r {
            Some((table, bits)) => {
                let lines = lines_from(content.spec_bytes(), 0, Seq::empty());
                &&& lines is Some
                &&& counts_fit(lines->Some_0)
                &&& forall|l: int|
                    0 <= l < 16 ==> #[trigger] table.codes@[l] == lines_of_length(
                        lines->Some_0,
                        (l + 1) as u8,
                    ).len()
                &&& matches_lines(table.values@, bits@, lines_by_length(lines->Some_0, 16))
            },
            None => {
                let lines = lines_from(content.spec_bytes(), 0, Seq::empty());
                lines is None || !counts_fit(lines->Some_0)
            },
        },
{
    let lines = match read_lines(content.as_bytes()) {
        Some(lines) => lines,
        None => { return None; },
    };
    let ghost specs = lines@.map_values(|line: TableLine| line.spec());
    let mut codes = [0u8;16];
    let mut values: Vec<u8> = Vec::new();
    let mut bits_vec: Vec<BitString> = Vec::new();
    let n = lines.len();
    let mut length: u8 = 1;
    while length <= 16
        invariant
            1 <= length <= 17,
            n == lines@.len(),
            specs == lines@.map_values(|line: TableLine| line.spec()),
            lines_from(content.spec_bytes(), 0, Seq::empty()) == Some(specs),
            forall|k: int| 0 <= k < n ==> (#[trigger] lines@[k]).bits@.len() <= 16,
            forall|l: u8| 1 <= l < length ==> #[trigger] lines_of_length(specs, l).len() <= 255,
            forall|l: int|
                0 <= l < length - 1 ==> #[trigger] codes@[l] == lines_of_length(
                    specs,
                    (l + 1) as u8,
                ).len(),
            matches_lines(values@, bits_vec@, lines_by_length(specs, (length - 1) as nat)),
        decreases 17 - length,
    {
        let ghost before = lines_by_length(specs, (length - 1) as nat);
        let mut count: usize = 0;
        let mut i: usize = 0;
        proof {
            assert(specs.take(0) =~= Seq::<LineSpec>::empty());
            assert(before + lines_of_length(specs.take(0), length) =~= before);
        }
        while i < n
            invariant
                i <= n,
                1 <= length <= 16,
                n == lines@.len(),
                specs == lines@.map_values(|line: TableLine| line.spec()),
                forall|k: int| 0 <= k < n ==> (#[trigger] lines@[k]).bits@.len() <= 16,
                count == lines_of_length(specs.take(i as int), length).len(),
                count <= i,
                matches_lines(
                    values@,
                    bits_vec@,
                    before + lines_of_length(specs.take(i as int), length),
                ),
            decreases n - i,
        {
            let line = &lines[i];
            let ghost chosen = lines_of_length(specs.take(i as int), length);
            proof {
                assert(specs.take(i + 1).drop_last() =~= specs.take(i as int));
                assert(specs.take(i + 1).last() == line.spec());
                vstd::layout::unsigned_int_max_values();
                vstd::arithmetic::power2::lemma2_to64();
            }
            if line.length == length {
                values.push(line.symbol);
                bits_vec.push(BitString::from_bools(line.bits.as_slice()));
                count += 1;
                proof {
                    assert(before + chosen.push(line.spec()) =~= (before
                        + chosen).push(line.spec()));
                }
            }
            i += 1;
        }
        proof {
            assert(specs.take(n as int) =~= specs);
        }
        if count > 255 {
            assert(!counts_fit(specs)) by {
                assert(lines_of_length(specs, length).len() > 255);
            }
            return None;
        }
        codes[(length - 1) as usize] = count as u8;
        length += 1;
    }
    assert(counts_fit(specs));
    Some((JpegHuffmanTable { codes, values }, bits_vec))
}

} // verus!
