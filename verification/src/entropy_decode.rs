//! The entropy decoder: codewords matched by length and value, DC sums and AC
//! runs.

use crate::bits::msb0_value;
use crate::bits::BitString;
use crate::entropy::dc_restored;
use crate::error::DecodeError;
use crate::huffman::count_upto;
use crate::huffman::lemma_codewords_len;
use crate::huffman::lemma_next_code_bound;
use crate::huffman::next_code;
use crate::huffman::CachedHuffmanTable;
use crate::parser::share;
use crate::parser::CompleteJpegData;
use crate::parser::Component;
use crate::parser::TableSpec;
use crate::zigzag::ZigzagDu;
use crate::vli::decode_value_at;
use crate::vli::entropy_decode_value;
use vstd::prelude::*;

verus! {

/// The `l` bits at `offset` are a codeword of `l` bits: their value is one of
/// the `codes[l - 1]` values from the first code of that length on.
pub open spec fn code_matches(codes: Seq<u8>, bits: Seq<bool>, offset: int, l: nat) -> bool {
    next_code(codes, (l - 1) as nat) <= msb0_value(bits.subrange(offset, offset + l)) < next_code(
        codes,
        (l - 1) as nat,
    ) + codes[l - 1]
}

/// The length of the codeword at `offset`, lengths below `l` having been
/// tried: the first length at which the bits read are a codeword. The scan may
/// end before a codeword is complete, and sixteen bits may match none.
pub open spec fn find_code(codes: Seq<u8>, bits: Seq<bool>, offset: int, l: nat) -> Result<
    nat,
    DecodeError,
>
    decreases 17 - l,
{
    if l > 16 {
        Err(DecodeError::HuffmanDecodeFail)
    } else if offset + l > bits.len() {
        Err(DecodeError::TruncatedInput)
    } else if code_matches(codes, bits, offset, l) {
        Ok(l)
    } else {
        find_code(codes, bits, offset, l + 1)
    }
}

/// The place of a codeword among the symbols of the table: behind the
/// codewords of fewer bits, as far from the first codeword of its length as its
/// value says.
pub open spec fn symbol_index(codes: Seq<u8>, bits: Seq<bool>, offset: int, l: nat) -> int {
    count_upto(codes, (l - 1) as nat) + msb0_value(bits.subrange(offset, offset + l)) - next_code(
        codes,
        (l - 1) as nat,
    )
}

/// The symbol whose codeword stands at `offset`, and the place behind the
/// codeword.
pub open spec fn decode_symbol(table: TableSpec, bits: Seq<bool>, offset: int) -> Result<
    (u8, int),
    DecodeError,
> {
    match find_code(table.codes, bits, offset, 1) {
        Err(e) => Err(e),
        Ok(l) => Ok((table.values[symbol_index(table.codes, bits, offset, l)], offset + l)),
    }
}

/// The counts and symbols of a table in its ready form.
pub open spec fn table_spec(table: CachedHuffmanTable) -> TableSpec {
    TableSpec { codes: table.1.codes@, values: table.1.values@ }
}

/// The number of codewords grows with the length.
pub proof fn lemma_count_upto_monotone(codes: Seq<u8>, a: nat, b: nat)
    requires
        a <= b,
    ensures
        count_upto(codes, a) <= count_upto(codes, b),
    decreases b,
{
    if a < b {
        lemma_count_upto_monotone(codes, a, (b - 1) as nat);
    }
}

/// Reads the symbol whose codeword stands at `offset` of the scan and moves
/// `offset` past the codeword. On an error `offset` stays.
pub fn entropy_decode_category(
    scan: &BitString,
    offset: &mut usize,
    huffman_table: &CachedHuffmanTable,
) -> (r: Result<u8, DecodeError>)
    requires
        huffman_table.wf(),
        *old(offset) <= scan@.len(),
    ensures
        match r {
            Ok(symbol) => decode_symbol(table_spec(*huffman_table), scan@, *old(offset) as int)
                == Ok::<(u8, int), DecodeError>((symbol, *final(offset) as int)) && *old(offset)
                < *final(offset) <= scan@.len(),
            Err(e) => decode_symbol(table_spec(*huffman_table), scan@, *old(offset) as int)
                == Err::<
                (u8, int),
                DecodeError,
            >(e) && *final(offset) == *old(offset),
        },
{
    let start = *offset;
    let len = scan.len();
    let table = &huffman_table.1;
    let ghost codes = table.codes@;
    let mut code: usize = 0;
    let mut first: usize = 0;
    let mut index: usize = 0;
    let mut l: usize = 1;
    proof {
        assert(scan@.subrange(start as int, start + 0) =~= Seq::<bool>::empty());
        vstd::arithmetic::power2::lemma2_to64();
        lemma_codewords_len(codes, 16);
    }
    while l <= 16
        invariant
            1 <= l <= 17,
            *offset == start,
            start == *old(offset),
            *table == huffman_table.1,
            start <= len,
            len == scan@.len(),
            codes == table.codes@,
            codes.len() == 16,
            table.values@.len() == count_upto(codes, 16),
            start + (l - 1) <= len,
            code == msb0_value(scan@.subrange(start as int, start + (l - 1))),
            code < vstd::arithmetic::power2::pow2((l - 1) as nat),
            first == next_code(codes, (l - 1) as nat),
            index == count_upto(codes, (l - 1) as nat),
            find_code(codes, scan@, start as int, 1) == find_code(codes, scan@, start as int,
                l as nat),
        decreases 17 - l,
    {
        if len - start < l {
            return Err(DecodeError::TruncatedInput);
        }
        let bit = scan.get(start + (l - 1));
        proof {
            vstd::arithmetic::power2::lemma2_to64();
            vstd::arithmetic::power2::lemma_pow2_unfold(l as nat);
            if l < 16 {
                vstd::arithmetic::power2::lemma_pow2_strictly_increases(l as nat, 16);
            }
            lemma_next_code_bound(codes, (l - 1) as nat);
            lemma_next_code_bound(codes, l as nat);
            lemma_codewords_len(codes, (l - 1) as nat);
            lemma_codewords_len(codes, l as nat);
            lemma_count_upto_monotone(codes, l as nat, 16);
            let longer = scan@.subrange(start as int, start + l);
            assert(longer.drop_last() =~= scan@.subrange(start as int, start + (l - 1)));
            assert(longer.last() == bit);
            if l > 1 {
                vstd::arithmetic::power2::lemma_pow2_strictly_increases((l - 1) as nat, 17);
            }
        }
        code = code * 2 + (if bit { 1 } else { 0 });
        let count = table.codes[l - 1] as usize;
        if code >= first && code - first < count {
            let symbol = table.values[index + (code - first)];
            *offset = start + l;
            return Ok(symbol);
        }
        index = index + count;
        first = (first + count) * 2;
        l += 1;
    }
    Err(DecodeError::HuffmanDecodeFail)
}

/// The decoder of the DC coefficients of one component: each comes as its
/// difference from the one before.
pub struct DcDecoder<'a> {
    /// The DC coefficient that was decoded last; 0 at the start.
    pub sum: i16,
    pub huffman_table: &'a CachedHuffmanTable,
}

/// The decoder of the AC coefficients of a block.
pub struct AcDecoder<'a> {
    pub huffman_table: &'a CachedHuffmanTable,
}

/// The DC coefficient that is coded at `offset`, `sum` being the one before,
/// and the place behind its bits. The coefficient must fit 16 bits.
pub open spec fn decode_dc(table: TableSpec, bits: Seq<bool>, offset: int, sum: int) -> Result<
    (int, int),
    DecodeError,
> {
    match decode_symbol(table, bits, offset) {
        Err(e) => Err(e),
        Ok((category, behind_code)) => match decode_value_at(bits, behind_code, category) {
            Err(e) => Err(e),
            Ok((diff, behind_value)) => if -32768 <= dc_restored(sum, diff) <= 32767 {
                Ok((dc_restored(sum, diff), behind_value))
            } else {
                Err(DecodeError::UnsupportedFeature)
            },
        },
    }
}

/// The block with zeros at the places from `from` up to `to`.
pub open spec fn zeroed(du: Seq<i16>, from: int, to: int) -> Seq<i16> {
    Seq::new(du.len(), |i: int| if from <= i < to { 0i16 } else { du[i] })
}

/// The block that the AC coefficients coded from `offset` on make of `du`,
/// whose places before `idx` are filled, and the place behind their bits.
///
/// The symbol `00` fills the rest of the block with zeros. Any other symbol
/// gives a run of zeros in its high four bits and the category of the
/// coefficient behind them in its low four bits; `F0` so stands for sixteen
/// zeros. A run that leaves no place for its coefficient is an error.
pub open spec fn decode_ac(table: TableSpec, bits: Seq<bool>, offset: int, idx: int,
    du: Seq<i16>) -> Result<
    (Seq<i16>, int),
    DecodeError,
>
    decreases 64 - idx,
{
    if idx >= 64 {
        Ok((du, offset))
    } else {
        match decode_symbol(table, bits, offset) {
            Err(e) => Err(e),
            Ok((symbol, behind_code)) => if symbol == 0 {
                Ok((zeroed(du, idx, 64), behind_code))
            } else if idx + (symbol >> 4) >= 64 {
                Err(DecodeError::ScanOverflow)
            } else {
                match decode_value_at(bits, behind_code, symbol & 0x0F) {
                    Err(e) => Err(e),
                    Ok((value, behind_value)) => decode_ac(
                        table,
                        bits,
                        behind_value,
                        idx + (symbol >> 4) + 1,
                        zeroed(du, idx, idx + (symbol >> 4)).update(
                            idx + (symbol >> 4),
                            value as i16,
                        ),
                    ),
                }
            },
        }
    }
}

/// Decoding AC coefficients from place `idx` on leaves the places before
/// `idx` as they were, and the block at its length.
pub proof fn lemma_decode_ac_keeps(table: TableSpec, bits: Seq<bool>, offset: int, idx: int,
    du: Seq<i16>)
    requires
        0 <= idx,
        du.len() == 64,
        decode_ac(table, bits, offset, idx, du) is Ok,
    ensures
        decode_ac(table, bits, offset, idx, du)->Ok_0.0.len() == du.len(),
        forall|j: int|
            0 <= j < idx && j < du.len() ==> decode_ac(table, bits, offset, idx, du)->Ok_0.0[j]
                == du[j],
    decreases 64 - idx,
{
    if idx < 64 {
        let (symbol, behind_code) = decode_symbol(table, bits, offset)->Ok_0;
        if symbol != 0 {
            let run = symbol >> 4;
            let (value, behind_value) = decode_value_at(bits, behind_code, symbol & 0x0F)->Ok_0;
            let next = zeroed(du, idx, idx + run).update(idx + run, value as i16);
            lemma_decode_ac_keeps(table, bits, behind_value, idx + run + 1, next);
            assert forall|j: int| 0 <= j < idx implies decode_ac(
                table,
                bits,
                offset,
                idx,
                du,
            )->Ok_0.0[j] == du[j] by {
                assert(next[j] == du[j]);
            }
        }
    }
}

impl<'a> DcDecoder<'a> {
    /// A decoder whose first difference is added to 0.
    pub fn new(huffman_table: &'a CachedHuffmanTable) -> (r: Self)
        ensures
            r.sum == 0,
            r.huffman_table == huffman_table,
    {
        Self { sum: 0, huffman_table }
    }

    /// Reads the DC coefficient at `offset` of the scan: the difference that is
    /// coded there, added to the coefficient before. The decoder remembers the
    /// result, and `offset` moves past the bits read. On an error the decoder
    /// remembers what it did before.
    pub fn decode(&mut self, scan: &BitString, offset: &mut usize) -> (r: Result<i16, DecodeError>)
        requires
            old(self).huffman_table.wf(),
            *old(offset) <= scan@.len(),
        ensures
            final(self).huffman_table == old(self).huffman_table,
            *final(offset) <= scan@.len(),
            match r {
                Ok(value) => decode_dc(
                    table_spec(*old(self).huffman_table),
                    scan@,
                    *old(offset) as int,
                    old(self).sum as int,
                ) == Ok::<(int, int), DecodeError>((value as int, *final(offset) as int))
                    && final(self).sum == value,
                Err(e) => decode_dc(
                    table_spec(*old(self).huffman_table),
                    scan@,
                    *old(offset) as int,
                    old(self).sum as int,
                ) == Err::<(int, int), DecodeError>(e) && final(self).sum == old(self).sum,
            },
    {
        let category = entropy_decode_category(scan, offset, self.huffman_table)?;
        let diff = entropy_decode_value(scan, offset, category)?;
        let sum = self.sum as i32 + diff as i32;
        if sum < -32768 || sum > 32767 {
            return Err(DecodeError::UnsupportedFeature);
        }
        self.sum = sum as i16;
        Ok(self.sum)
    }
}

impl<'a> AcDecoder<'a> {
    /// A decoder with the given table.
    pub fn new(huffman_table: &'a CachedHuffmanTable) -> (r: Self)
        ensures
            r.huffman_table == huffman_table,
    {
        Self { huffman_table }
    }

    /// Reads the 63 AC coefficients of a block from `offset` of the scan into
    /// the places 1 to 63 of `du`, and moves `offset` past the bits read.
    pub fn decode(&self, scan: &BitString, offset: &mut usize, du: &mut [i16; 64]) -> (r: Result<
        (),
        DecodeError,
    >)
        requires
            self.huffman_table.wf(),
            *old(offset) <= scan@.len(),
        ensures
            *final(offset) <= scan@.len(),
            match r {
                Ok(_) => decode_ac(
                    table_spec(*self.huffman_table),
                    scan@,
                    *old(offset) as int,
                    1,
                    old(du)@,
                ) == Ok::<(Seq<i16>, int), DecodeError>((final(du)@, *final(offset) as int)),
                Err(e) => decode_ac(
                    table_spec(*self.huffman_table),
                    scan@,
                    *old(offset) as int,
                    1,
                    old(du)@,
                ) == Err::<(Seq<i16>, int), DecodeError>(e),
            },
    {
        let ghost table = table_spec(*self.huffman_table);
        let ghost whole = decode_ac(table, scan@, *offset as int, 1, du@);
        let mut idx: usize = 1;
        while idx < 64
            invariant
                1 <= idx <= 64,
                self.huffman_table.wf(),
                table == table_spec(*self.huffman_table),
                *offset <= scan@.len(),
                whole == decode_ac(table, scan@, *old(offset) as int, 1, old(du)@),
                whole == decode_ac(table, scan@, *offset as int, idx as int, du@),
            decreases 64 - idx,
        {
            let symbol = entropy_decode_category(scan, offset, self.huffman_table)?;
            if symbol == 0x00 {
                let ghost before = du@;
                let ghost from = idx;
                while idx < 64
                    invariant
                        from <= idx <= 64,
                        before.len() == 64,
                        du@ == zeroed(before, from as int, idx as int),
                    decreases 64 - idx,
                {
                    du[idx] = 0;
                    idx += 1;
                    assert(du@ =~= zeroed(before, from as int, idx as int));
                }
                return Ok(());
            }
            let zrl = (symbol >> 4) as usize;
            let category = symbol & 0x0F;
            assert(symbol >> 4 <= 15 && symbol & 0x0F <= 15) by (bit_vector);
            if idx + zrl >= 64 {
                return Err(DecodeError::ScanOverflow);
            }
            let ghost before = du@;
            let ghost from = idx;
            let mut filled: usize = 0;
            while filled < zrl
                invariant
                    filled <= zrl,
                    from + zrl < 64,
                    idx == from + filled,
                    before.len() == 64,
                    du@ == zeroed(before, from as int, idx as int),
                decreases zrl - filled,
            {
                du[idx] = 0;
                idx += 1;
                filled += 1;
                assert(du@ =~= zeroed(before, from as int, idx as int));
            }
            let value = entropy_decode_value(scan, offset, category)?;
            du[idx] = value;
            idx += 1;
        }
        Ok(())
    }
}

/// The blocks of a scan in the order of the scan, with what the headers say
/// of the image.
#[derive(Debug)]
pub struct DecodeZigzagMcuCollection {
    pub width: usize,
    pub height: usize,
    pub components: Vec<Component>,
    /// The blocks, each in zigzag order: MCU by MCU, within an MCU component by
    /// component.
    pub zigzag_dus: Vec<ZigzagDu>,
}

/// The block that is coded at `offset` with the tables `dc` and `ac`, `sum`
/// being the DC coefficient of the block before, and the place behind its
/// bits.
pub open spec fn decode_unit(dc: TableSpec, ac: TableSpec, bits: Seq<bool>, offset: int,
    sum: int) -> Result<
    (Seq<i16>, int),
    DecodeError,
> {
    match decode_dc(dc, bits, offset, sum) {
        Err(e) => Err(e),
        Ok((value, behind_dc)) => decode_ac(
            ac,
            bits,
            behind_dc,
            1,
            Seq::new(64, |i: int| 0i16).update(0, value as i16),
        ),
    }
}

/// How far the decoding of a scan has come.
pub struct ScanState {
    /// The place in the scan.
    pub offset: int,
    /// The last DC coefficient of each component.
    pub sums: Seq<int>,
    /// The blocks decoded so far.
    pub units: Seq<Seq<i16>>,
}

/// What the decoding of a scan goes by: for each component its two tables and
/// the number of its blocks in an MCU.
pub struct ScanPlan {
    pub dc: Seq<TableSpec>,
    pub ac: Seq<TableSpec>,
    pub counts: Seq<nat>,
}

/// The state after `remaining` more blocks of component `c`.
pub open spec fn run_component(plan: ScanPlan, bits: Seq<bool>, st: ScanState, c: int,
    remaining: nat) -> Result<
    ScanState,
    DecodeError,
>
    decreases remaining,
{
    if remaining == 0 {
        Ok(st)
    } else {
        match decode_unit(plan.dc[c], plan.ac[c], bits, st.offset, st.sums[c]) {
            Err(e) => Err(e),
            Ok((du, behind)) => run_component(
                plan,
                bits,
                ScanState {
                    offset: behind,
                    sums: st.sums.update(c, du[0] as int),
                    units: st.units.push(du),
                },
                c,
                (remaining - 1) as nat,
            ),
        }
    }
}

/// The state after the blocks of the components from `c` on of one MCU.
pub open spec fn run_mcu(plan: ScanPlan, bits: Seq<bool>, st: ScanState, c: int) -> Result<
    ScanState,
    DecodeError,
>
    decreases plan.counts.len() - c,
{
    if c < 0 || c >= plan.counts.len() {
        Ok(st)
    } else {
        match run_component(plan, bits, st, c, plan.counts[c]) {
            Err(e) => Err(e),
            Ok(after) => run_mcu(plan, bits, after, c + 1),
        }
    }
}

/// The state after `mcus` more MCUs.
pub open spec fn run_scan(plan: ScanPlan, bits: Seq<bool>, st: ScanState, mcus: nat) -> Result<
    ScanState,
    DecodeError,
>
    decreases mcus,
{
    if mcus == 0 {
        Ok(st)
    } else {
        match run_mcu(plan, bits, st, 0) {
            Err(e) => Err(e),
            Ok(after) => run_scan(plan, bits, after, (mcus - 1) as nat),
        }
    }
}

/// The largest horizontal sampling factor among the first `n` components.
pub open spec fn max_horizontal(components: Seq<Component>, n: int) -> int
    decreases n,
{
    if n <= 0 {
        0
    } else if components[n - 1].horizontal_sampling_factor > max_horizontal(components, n - 1) {
        components[n - 1].horizontal_sampling_factor as int
    } else {
        max_horizontal(components, n - 1)
    }
}

/// The largest vertical sampling factor among the first `n` components.
pub open spec fn max_vertical(components: Seq<Component>, n: int) -> int
    decreases n,
{
    if n <= 0 {
        0
    } else if components[n - 1].vertical_sampling_factor > max_vertical(components, n - 1) {
        components[n - 1].vertical_sampling_factor as int
    } else {
        max_vertical(components, n - 1)
    }
}

/// The number of pieces of `step` that cover `length`.
pub open spec fn pieces(length: int, step: int) -> int {
    (length + step - 1) / step
}

/// The number of MCUs of an image: an MCU covers eight pixels times the
/// largest sampling factor in each direction.
pub open spec fn mcu_count(data: CompleteJpegData) -> int {
    pieces(data.width as int, 8 * max_horizontal(data.components@, data.components@.len() as int))
        * pieces(
        data.height as int,
        8 * max_vertical(data.components@, data.components@.len() as int),
    )
}

/// Every component is sampled at least once in each direction, and there is
/// a component.
pub open spec fn sampling_valid(components: Seq<Component>) -> bool {
    components.len() > 0 && forall|i: int|
        0 <= i < components.len() ==> (#[trigger] components[i]).horizontal_sampling_factor >= 1
            && components[i].vertical_sampling_factor >= 1
}

/// The plan of the scan of an image.
pub open spec fn scan_plan(components: Seq<Component>) -> ScanPlan {
    ScanPlan {
        dc: Seq::new(components.len(), |i: int| table_spec(*components[i].dc_huffman_table)),
        ac: Seq::new(components.len(), |i: int| table_spec(*components[i].ac_huffman_table)),
        counts: Seq::new(
            components.len(),
            |i: int|
                (components[i].horizontal_sampling_factor
                    * components[i].vertical_sampling_factor) as nat,
        ),
    }
}

/// The blocks of the scan of an image, each in zigzag order. Trailing bits of
/// the scan, which fill its last byte, are not looked at.
pub open spec fn scan_units(data: CompleteJpegData) -> Result<Seq<Seq<i16>>, DecodeError> {
    if !sampling_valid(data.components@) {
        Err(DecodeError::UnsupportedFeature)
    } else {
        match run_scan(
            scan_plan(data.components@),
            data.scan@,
            ScanState {
                offset: 0,
                sums: Seq::new(data.components@.len(), |i: int| 0int),
                units: Seq::empty(),
            },
            mcu_count(data) as nat,
        ) {
            Err(e) => Err(e),
            Ok(st) => Ok(st.units),
        }
    }
}

impl CompleteJpegData {
    /// The size fits the 16 bits of a frame header, and the Huffman tables of
    /// the components are well formed.
    pub open spec fn wf(&self) -> bool {
        &&& self.width <= 65535
        &&& self.height <= 65535
        &&& forall|i: int|
            0 <= i < self.components@.len() ==> (#[trigger] self.components@[i]).dc_huffman_table.wf()
                && self.components@[i].ac_huffman_table.wf()
    }
}

/// A copy of the components, which shares their tables.
pub fn share_components(components: &Vec<Component>) -> (r: Vec<Component>)
    ensures
        r@ == components@,
{
    let mut out: Vec<Component> = Vec::new();
    let n = components.len();
    let mut i: usize = 0;
    while i < n
        invariant
            i <= n,
            n == components@.len(),
            out@ == components@.take(i as int),
        decreases n - i,
    {
        let c = &components[i];
        out.push(
            Component {
                horizontal_sampling_factor: c.horizontal_sampling_factor,
                vertical_sampling_factor: c.vertical_sampling_factor,
                quatization_table: share(&c.quatization_table),
                dc_huffman_table: share(&c.dc_huffman_table),
                ac_huffman_table: share(&c.ac_huffman_table),
            },
        );
        assert(out@ =~= components@.take(i + 1));
        i += 1;
    }
    assert(components@.take(n as int) =~= components@);
    out
}

/// The largest sampling factors of the components, or `None` where a factor
/// is zero or there is no component.
pub fn max_sampling(components: &Vec<Component>) -> (r: Option<(u8, u8)>)
    ensures
        match r {
            Some((h, v)) => sampling_valid(components@) && h == max_horizontal(
                components@,
                components@.len() as int,
            ) && v == max_vertical(components@, components@.len() as int) && h >= 1 && v >= 1,
            None => !sampling_valid(components@),
        },
{
    let n = components.len();
    if n == 0 {
        return None;
    }
    let mut h: u8 = 0;
    let mut v: u8 = 0;
    let mut i: usize = 0;
    while i < n
        invariant
            i <= n,
            n == components@.len(),
            h == max_horizontal(components@, i as int),
            v == max_vertical(components@, i as int),
            i > 0 ==> h >= 1 && v >= 1,
            forall|k: int|
                0 <= k < i ==> (#[trigger] components@[k]).horizontal_sampling_factor >= 1
                    && components@[k].vertical_sampling_factor >= 1,
        decreases n - i,
    {
        let c = &components[i];
        if c.horizontal_sampling_factor == 0 || c.vertical_sampling_factor == 0 {
            return None;
        }
        if c.horizontal_sampling_factor > h {
            h = c.horizontal_sampling_factor;
        }
        if c.vertical_sampling_factor > v {
            v = c.vertical_sampling_factor;
        }
        i += 1;
    }
    Some((h, v))
}

/// Decodes the scan: as many MCUs as the image's size calls for, each with
/// the blocks of its components in order.
pub fn decode_step2(jpeg_data: &CompleteJpegData) -> (r: Result<
    DecodeZigzagMcuCollection,
    DecodeError,
>)
    requires
        jpeg_data.wf(),
    ensures
        match r {
            Ok(c) => scan_units(*jpeg_data) is Ok && c.zigzag_dus@.len() == scan_units(
                *jpeg_data,
            )->Ok_0.len() && (forall|i: int|
                0 <= i < c.zigzag_dus@.len() ==> (#[trigger] c.zigzag_dus@[i]).0@ == scan_units(
                    *jpeg_data,
                )->Ok_0[i]) && c.width == jpeg_data.width && c.height == jpeg_data.height
                && c.components@ == jpeg_data.components@,
            Err(e) => scan_units(*jpeg_data) == Err::<Seq<Seq<i16>>, DecodeError>(e),
        },
{
    let mut zigzag_dus: Vec<ZigzagDu> = Vec::new();
    let scan = &jpeg_data.scan;
    let components = &jpeg_data.components;
    let n = components.len();
    let (h_max, v_max) = match max_sampling(components) {
        Some(factors) => factors,
        None => { return Err(DecodeError::UnsupportedFeature); },
    };
    let mcu_width = 8 * h_max as usize;
    let mcu_height = 8 * v_max as usize;
    let mcus_x = (jpeg_data.width + mcu_width - 1) / mcu_width;
    let mcus_y = (jpeg_data.height + mcu_height - 1) / mcu_height;
    assert(mcus_x <= 8192) by (nonlinear_arith)
        requires
            mcus_x == (jpeg_data.width + mcu_width - 1) / (mcu_width as int),
            jpeg_data.width <= 65535,
            mcu_width >= 8,
    ;
    assert(mcus_y <= 8192) by (nonlinear_arith)
        requires
            mcus_y == (jpeg_data.height + mcu_height - 1) / (mcu_height as int),
            jpeg_data.height <= 65535,
            mcu_height >= 8,
    ;
    assert(mcus_x * mcus_y <= 8192 * 8192) by (nonlinear_arith)
        requires
            mcus_x <= 8192,
            mcus_y <= 8192,
    ;
    let mcus = mcus_x * mcus_y;
    let mut sums: Vec<i16> = Vec::new();
    let mut k: usize = 0;
    while k < n
        invariant
            k <= n,
            sums@.len() == k,
            forall|j: int| 0 <= j < k ==> sums@[j] == 0,
        decreases n - k,
    {
        sums.push(0);
        k += 1;
    }
    let ghost plan = scan_plan(components@);
    let ghost bits = scan@;
    let ghost whole = run_scan(
        plan,
        bits,
        ScanState {
            offset: 0,
            sums: Seq::new(n as nat, |i: int| 0int),
            units: Seq::empty(),
        },
        mcus as nat,
    );
    let ghost mut st = ScanState {
        offset: 0,
        sums: Seq::new(n as nat, |i: int| 0int),
        units: Seq::empty(),
    };
    assert(st.sums =~= sums@.map_values(|s: i16| s as int));
    let ghost outcome = scan_units(*jpeg_data);
    assert(mcus == mcu_count(*jpeg_data));
    let mut offset: usize = 0;
    let mut m: usize = 0;
    while m < mcus
        invariant
            m <= mcus,
            n == components@.len(),
            components == &jpeg_data.components,
            scan == &jpeg_data.scan,
            jpeg_data.wf(),
            plan == scan_plan(components@),
            outcome == scan_units(*jpeg_data),
            outcome == (match whole {
                Err(e) => Err::<Seq<Seq<i16>>, DecodeError>(e),
                Ok(end) => Ok(end.units),
            }),
            bits == scan@,
            offset <= bits.len(),
            st.offset == offset,
            st.sums == sums@.map_values(|s: i16| s as int),
            sums@.len() == n,
            st.units.len() == zigzag_dus@.len(),
            forall|i: int| 0 <= i < zigzag_dus@.len() ==> (#[trigger] zigzag_dus@[i]).0@
                == st.units[i],
            whole == run_scan(plan, bits, st, (mcus - m) as nat),
        decreases mcus - m,
    {
        let ghost mcu_start = st;
        let mut i: usize = 0;
        while i < n
            invariant
                i <= n,
                m < mcus,
                n == components@.len(),
                components == &jpeg_data.components,
                scan == &jpeg_data.scan,
                jpeg_data.wf(),
                plan == scan_plan(components@),
                outcome == scan_units(*jpeg_data),
                outcome == (match whole {
                    Err(e) => Err::<Seq<Seq<i16>>, DecodeError>(e),
                    Ok(end) => Ok(end.units),
                }),
                bits == scan@,
                offset <= bits.len(),
                st.offset == offset,
                st.sums == sums@.map_values(|s: i16| s as int),
                sums@.len() == n,
                st.units.len() == zigzag_dus@.len(),
                forall|i: int|
                    0 <= i < zigzag_dus@.len() ==> (#[trigger] zigzag_dus@[i]).0@ == st.units[i],
                whole == run_scan(plan, bits, mcu_start, (mcus - m) as nat),
                run_mcu(plan, bits, mcu_start, 0) == run_mcu(plan, bits, st, i as int),
            decreases n - i,
        {
            let component = &components[i];
            let h = component.horizontal_sampling_factor as usize;
            let v = component.vertical_sampling_factor as usize;
            assert(h * v <= 65025) by (nonlinear_arith)
                requires
                    h <= 255,
                    v <= 255,
            ;
            let sf = h * v;
            let ghost component_start = st;
            let mut u: usize = 0;
            while u < sf
                invariant
                    u <= sf,
                    i < n,
                    m < mcus,
                    n == components@.len(),
                    components == &jpeg_data.components,
                    component == &components@[i as int],
                    scan == &jpeg_data.scan,
                    jpeg_data.wf(),
                    plan == scan_plan(components@),
                    outcome == scan_units(*jpeg_data),
                    outcome == (match whole {
                        Err(e) => Err::<Seq<Seq<i16>>, DecodeError>(e),
                        Ok(end) => Ok(end.units),
                    }),
                    sf == plan.counts[i as int],
                    bits == scan@,
                    offset <= bits.len(),
                    st.offset == offset,
                    st.sums == sums@.map_values(|s: i16| s as int),
                    sums@.len() == n,
                    st.units.len() == zigzag_dus@.len(),
                    forall|i: int|
                        0 <= i < zigzag_dus@.len() ==> (#[trigger] zigzag_dus@[i]).0@
                            == st.units[i],
                    whole == run_scan(plan, bits, mcu_start, (mcus - m) as nat),
                    run_mcu(plan, bits, mcu_start, 0) == run_mcu(
                        plan,
                        bits,
                        component_start,
                        i as int,
                    ),
                    run_component(plan, bits, component_start, i as int, sf as nat)
                        == run_component(plan, bits, st, i as int, (sf - u) as nat),
                decreases sf - u,
            {
                let mut du = [0i16;64];
                let ghost fresh = du@;
                assert(fresh =~= Seq::new(64, |i: int| 0i16));
                let mut dc_decoder = DcDecoder {
                    sum: sums[i],
                    huffman_table: &component.dc_huffman_table,
                };
                let dc = dc_decoder.decode(scan, &mut offset)?;
                let ghost behind_dc = offset;
                du[0] = dc;
                let ac_decoder = AcDecoder::new(&component.ac_huffman_table);
                ac_decoder.decode(scan, &mut offset, &mut du)?;
                sums[i] = dc;
                proof {
                    lemma_decode_ac_keeps(
                        plan.ac[i as int],
                        bits,
                        behind_dc as int,
                        1,
                        fresh.update(0, dc),
                    );
                    assert(plan.ac[i as int] == table_spec(*component.ac_huffman_table));
                    assert(decode_ac(
                        plan.ac[i as int],
                        bits,
                        behind_dc as int,
                        1,
                        fresh.update(0, dc),
                    )->Ok_0.0 == du@);
                    assert(du@[0] == fresh.update(0, dc)[0]);
                    assert(du@[0] == dc);
                    let next = ScanState {
                        offset: offset as int,
                        sums: st.sums.update(i as int, du@[0] as int),
                        units: st.units.push(du@),
                    };
                    assert(next.sums =~= sums@.map_values(|s: i16| s as int));
                    st = next;
                }
                zigzag_dus.push(ZigzagDu(du));
                u += 1;
            }
            i += 1;
        }
        m += 1;
    }
    Ok(
        DecodeZigzagMcuCollection {
            width: jpeg_data.width,
            height: jpeg_data.height,
            components: share_components(components),
            zigzag_dus,
        },
    )
}

} // verus!
