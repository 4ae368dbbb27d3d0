//! What the entropy coder writes, the entropy decoder reads back.

use crate::bits::lemma_msb0_round_trip;
use crate::bits::msb0_bits;
use crate::bits::msb0_value;
use crate::entropy::ac_block_bits;
use crate::entropy::ac_coded_bits;
use crate::entropy::ac_prefix_bits;
use crate::entropy::coded_bits;
use crate::entropy::coefficients_within;
use crate::entropy::dc_difference;
use crate::entropy::dc_restored;
use crate::entropy::du_bits;
use crate::entropy::entropy_symbol;
use crate::entropy::lemma_ac_symbol;
use crate::entropy::lemma_category_le;
use crate::entropy::lemma_dc_symbol;
use crate::entropy::lemma_symbol_codes_entry;
use crate::entropy::trailing_zeros;
use crate::entropy::zrl_bits;
use crate::entropy_decode::decode_ac;
use crate::entropy_decode::decode_dc;
use crate::entropy::mcu_bits;
use crate::entropy::mcu_within;
use crate::entropy::predictors;
use crate::entropy::scan_bits;
use crate::entropy::ScanCodes;
use crate::entropy_decode::decode_unit;
use crate::entropy_decode::run_component;
use crate::entropy_decode::run_mcu;
use crate::entropy_decode::run_scan;
use crate::entropy_decode::ScanPlan;
use crate::entropy_decode::ScanState;
use crate::zigzag::ZigzagMcu;
use crate::entropy_decode::zeroed;
use crate::error::DecodeError;
use crate::markers::pack_nibbles;
use crate::entropy::lemma_symbol_codes_dom;
use crate::huffman::lemma_codewords_len;
use crate::prefix::kraft_sum;
use crate::tables::is_ac_symbol;
use crate::tables::lemma_chroma_ac_complete;
use crate::tables::lemma_luminance_ac_complete;
use crate::tables::DEFAULT_CHROMA_AC_CODES;
use crate::tables::DEFAULT_CHROMA_AC_VALUES;
use crate::tables::DEFAULT_CHROMA_DC_CODES;
use crate::tables::DEFAULT_CHROMA_DC_VALUES;
use crate::tables::DEFAULT_LUMINANCE_AC_CODES;
use crate::tables::DEFAULT_LUMINANCE_AC_VALUES;
use crate::tables::DEFAULT_LUMINANCE_DC_CODES;
use crate::tables::DEFAULT_LUMINANCE_DC_VALUES;
use crate::vli::category;
use crate::vli::decode_value_at;
use crate::vli::decode_value_bits;
use crate::vli::lemma_value_bits_round_trip;
use crate::vli::value_bits;
use crate::entropy_decode::code_matches;
use crate::entropy_decode::decode_symbol;
use crate::entropy_decode::find_code;
use crate::entropy_decode::symbol_index;
use crate::huffman::canonical_codewords;
use crate::huffman::count_upto;
use crate::huffman::next_code;
use crate::huffman::symbol_codes;
use crate::huffman::table_codes;
use crate::parser::TableSpec;
use crate::prefix::counts_valid;
use crate::prefix::lemma_bits_take;
use crate::prefix::lemma_codes_fit;
use crate::prefix::lemma_codeword_at;
use crate::prefix::lemma_first_code_grows;
use crate::prefix::lemma_upto_len;
use vstd::arithmetic::power2::lemma_pow2_adds;
use vstd::arithmetic::power2::lemma_pow2_pos;
use vstd::arithmetic::power2::pow2;
use vstd::prelude::*;

verus! {

/// The first `l` of the `n` bits of a number below `2^n` spell the number
/// without its `n - l` lowest bits.
pub proof fn lemma_top_bits(v: nat, n: nat, l: nat)
    requires
        l <= n,
        v < pow2(n),
    ensures
        msb0_value(msb0_bits(v, n).take(l as int)) == v / pow2((n - l) as nat),
        v / pow2((n - l) as nat) < pow2(l),
{
    lemma_bits_take(v, l, n);
    let p = pow2((n - l) as nat);
    lemma_pow2_pos((n - l) as nat);
    lemma_pow2_adds(l, (n - l) as nat);
    vstd::arithmetic::div_mod::lemma_fundamental_div_mod(v as int, p as int);
    vstd::arithmetic::div_mod::lemma_mod_bound(v as int, p as int);
    let top = v / p;
    assert(top < pow2(l)) by (nonlinear_arith)
        requires
            v == p * top + v % p,
            0 <= v % p,
            v < pow2(l) * p,
            p > 0,
    ;
    lemma_msb0_round_trip(top, l);
}

/// Where codeword `k` of a table of valid counts stands in a string of bits,
/// no shorter codeword is found, and the codeword is found as number `k` of the
/// table.
pub proof fn lemma_find_codeword(codes: Seq<u8>, k: int, bits: Seq<bool>, offset: int, l: nat)
    requires
        counts_valid(codes),
        0 <= k < canonical_codewords(codes).len(),
        0 <= offset,
        offset + canonical_codewords(codes)[k].length <= bits.len(),
        bits.subrange(offset, offset + canonical_codewords(codes)[k].length)
            == canonical_codewords(codes)[k].bits(),
        1 <= l <= canonical_codewords(codes)[k].length,
    ensures
        find_code(codes, bits, offset, l) == Ok::<nat, crate::error::DecodeError>(
            canonical_codewords(codes)[k].length,
        ),
        symbol_index(codes, bits, offset, canonical_codewords(codes)[k].length) == k,
    decreases canonical_codewords(codes)[k].length - l,
{
    let word = canonical_codewords(codes)[k];
    let n = word.length;
    let v = word.value;
    lemma_codeword_at(codes, 16, k);
    lemma_codes_fit(codes, n);
    assert(count_upto(codes, n) == count_upto(codes, (n - 1) as nat) + codes[n - 1]);
    let whole = bits.subrange(offset, offset + n);
    lemma_msb0_round_trip(v, n);
    if l < n {
        lemma_top_bits(v, n, l);
        assert(bits.subrange(offset, offset + l) =~= whole.take(l as int));
        lemma_first_code_grows(codes, l, n);
        let p = pow2((n - l) as nat);
        lemma_pow2_pos((n - l) as nat);
        vstd::arithmetic::div_mod::lemma_fundamental_div_mod(v as int, p as int);
        vstd::arithmetic::div_mod::lemma_mod_bound(v as int, p as int);
        let end = next_code(codes, (l - 1) as nat) + codes[l - 1];
        assert(v / p >= end) by (nonlinear_arith)
            requires
                v == p * (v / p) + v % p,
                v % p < p,
                v >= end * p,
                p > 0,
        ;
        assert(!code_matches(codes, bits, offset, l));
        lemma_find_codeword(codes, k, bits, offset, l + 1);
    } else {
        assert(code_matches(codes, bits, offset, n));
    }
}

/// `piece` stands at `offset` of `bits`.
pub open spec fn holds_at(bits: Seq<bool>, offset: int, piece: Seq<bool>) -> bool {
    0 <= offset && offset + piece.len() <= bits.len() && bits.subrange(
        offset,
        offset + piece.len(),
    ) == piece
}

/// Where two pieces stand one behind the other, each stands in its place.
pub proof fn lemma_holds_at_parts(bits: Seq<bool>, offset: int, a: Seq<bool>, b: Seq<bool>)
    requires
        holds_at(bits, offset, a + b),
    ensures
        holds_at(bits, offset, a),
        holds_at(bits, offset + a.len(), b),
{
    let whole = bits.subrange(offset, offset + (a + b).len());
    assert(bits.subrange(offset, offset + a.len()) =~= whole.subrange(0, a.len() as int));
    assert(whole.subrange(0, a.len() as int) =~= a);
    assert(bits.subrange(offset + a.len(), offset + a.len() + b.len()) =~= whole.subrange(
        a.len() as int,
        (a + b).len() as int,
    ));
    assert(whole.subrange(a.len() as int, (a + b).len() as int) =~= b);
}

/// What stands in a piece that stands at the start of `bits` stands in
/// `bits`.
pub proof fn lemma_holds_at_inside(bits: Seq<bool>, whole: Seq<bool>, at: int, piece: Seq<bool>)
    requires
        holds_at(bits, 0, whole),
        holds_at(whole, at, piece),
    ensures
        holds_at(bits, at, piece),
{
    assert(bits.subrange(at, at + piece.len()) =~= bits.subrange(0, whole.len() as int).subrange(
        at,
        at + piece.len(),
    ));
}

/// A table that a decoder can go by: its counts are valid, and it has a
/// symbol for each codeword.
pub open spec fn decodable(table: TableSpec) -> bool {
    counts_valid(table.codes) && table.values.len() == canonical_codewords(table.codes).len()
}

/// The codewords of a table by its symbols.
pub open spec fn codes_of(table: TableSpec) -> Map<u8, Seq<bool>> {
    table_codes(table.codes, table.values)
}

/// The symbol of a codeword that stands at `offset` is read there.
pub proof fn lemma_symbol_at(table: TableSpec, s: u8, bits: Seq<bool>, offset: int)
    requires
        decodable(table),
        codes_of(table).dom().contains(s),
        holds_at(bits, offset, codes_of(table)[s]),
    ensures
        decode_symbol(table, bits, offset) == Ok::<(u8, int), DecodeError>(
            (s, offset + codes_of(table)[s].len()),
        ),
        1 <= codes_of(table)[s].len() <= 16,
{
    let words = canonical_codewords(table.codes);
    lemma_symbol_codes_entry(table.values, words, table.values.len(), s);
    let k = choose|k: int|
        0 <= k < table.values.len() && table.values[k] == s && symbol_codes(
            table.values,
            words,
            table.values.len(),
        )[s] == words[k].bits();
    lemma_codeword_at(table.codes, 16, k);
    lemma_find_codeword(table.codes, k, bits, offset, 1);
}

/// The value whose bits stand at `offset` is read there.
pub proof fn lemma_value_at(v: int, bits: Seq<bool>, offset: int)
    requires
        -32767 <= v <= 32767,
        holds_at(bits, offset, value_bits(v)),
    ensures
        decode_value_at(bits, offset, category(v) as u8) == Ok::<(int, int), DecodeError>(
            (v, offset + category(v)),
        ),
{
    lemma_value_bits_round_trip(v);
}

/// The DC coefficient that is coded at `offset` as its difference from `sum`
/// is read there.
pub proof fn lemma_dc_at(table: TableSpec, sum: int, value: int, bits: Seq<bool>, offset: int)
    requires
        decodable(table),
        -1023 <= sum <= 1023,
        -1023 <= value <= 1023,
        codes_of(table).dom().contains(entropy_symbol(dc_difference(sum, value), None)),
        holds_at(bits, offset, coded_bits(codes_of(table), dc_difference(sum, value), None)),
    ensures
        decode_dc(table, bits, offset, sum) == Ok::<(int, int), DecodeError>(
            (value, offset + coded_bits(codes_of(table), dc_difference(sum, value), None).len()),
        ),
{
    let diff = dc_difference(sum, value);
    let symbol = entropy_symbol(diff, None);
    let code = codes_of(table)[symbol];
    lemma_value_bits_round_trip(diff);
    lemma_dc_symbol(diff);
    lemma_holds_at_parts(bits, offset, code, value_bits(diff));
    lemma_symbol_at(table, symbol, bits, offset);
    lemma_value_at(diff, bits, offset + code.len());
    assert(dc_restored(sum, diff) == value);
}

/// A byte of two halves has the halves as its nibbles.
pub proof fn lemma_nibbles(hi: u8, lo: u8)
    requires
        hi < 16,
        lo < 16,
    ensures
        pack_nibbles(hi, lo) >> 4 == hi,
        pack_nibbles(hi, lo) & 0x0F == lo,
        pack_nibbles(hi, lo) == 0 <==> hi == 0 && lo == 0,
{
    assert(hi < 16 && lo < 16 ==> ((hi << 4) | lo) >> 4 == hi && ((hi << 4) | lo) & 0x0F == lo
        && (((hi
        << 4) | lo) == 0 <==> hi == 0 && lo == 0)) by (bit_vector);
}

/// Codewords for sixteen zeros each, standing at `offset`, are read as so
/// many zeros.
pub proof fn lemma_zrl_at(
    table: TableSpec,
    count: nat,
    bits: Seq<bool>,
    offset: int,
    idx: int,
    du: Seq<i16>,
)
    requires
        decodable(table),
        du.len() == 64,
        1 <= idx,
        idx + 16 * count < 64,
        count > 0 ==> codes_of(table).dom().contains(0xF0u8),
        holds_at(bits, offset, zrl_bits(codes_of(table), count)),
    ensures
        decode_ac(table, bits, offset, idx, du) == decode_ac(
            table,
            bits,
            offset + zrl_bits(codes_of(table), count).len(),
            idx + 16 * count,
            zeroed(du, idx, idx + 16 * count),
        ),
    decreases count,
{
    let codes = codes_of(table);
    if count == 0 {
        assert(zeroed(du, idx, idx) =~= du);
    } else {
        let head = zrl_bits(codes, (count - 1) as nat);
        lemma_holds_at_parts(bits, offset, head, codes[0xF0u8]);
        lemma_zrl_at(table, (count - 1) as nat, bits, offset, idx, du);
        let mid = idx + 16 * (count - 1);
        let du_mid = zeroed(du, idx, mid);
        lemma_symbol_at(table, 0xF0u8, bits, offset + head.len());
        assert(0xF0u8 >> 4 == 15 && 0xF0u8 & 0x0F == 0) by (bit_vector);
        let behind = offset + head.len() + codes[0xF0u8].len();
        assert(bits.subrange(behind, behind + 0) =~= Seq::<bool>::empty());
        assert(decode_value_at(bits, behind, 0) == Ok::<(int, int), DecodeError>((0, behind)));
        assert(zeroed(du_mid, mid, mid + 15).update(mid + 15, 0i16) =~= zeroed(
            du,
            idx,
            idx + 16 * count,
        ));
    }
}

/// A coefficient that is coded at `offset` with the zeros before it is read
/// there, behind the zeros.
pub proof fn lemma_ac_coefficient_at(
    table: TableSpec,
    value: int,
    run: nat,
    bits: Seq<bool>,
    offset: int,
    idx: int,
    du: Seq<i16>,
)
    requires
        decodable(table),
        du.len() == 64,
        1 <= idx,
        idx + run < 64,
        value != 0,
        -1023 <= value <= 1023,
        forall|s: u8| is_ac_symbol(s) ==> codes_of(table).dom().contains(s),
        holds_at(bits, offset, ac_coded_bits(codes_of(table), value, run)),
    ensures
        decode_ac(table, bits, offset, idx, du) == decode_ac(
            table,
            bits,
            offset + ac_coded_bits(codes_of(table), value, run).len(),
            idx + run + 1,
            zeroed(du, idx, idx + run).update(idx + run, value as i16),
        ),
{
    let codes = codes_of(table);
    let count = run / 16;
    let rest = (run % 16) as u8;
    let zrl = zrl_bits(codes, count);
    let coded = coded_bits(codes, value, Some(rest));
    let symbol = entropy_symbol(value, Some(rest));
    let code = codes[symbol];
    vstd::arithmetic::power2::lemma2_to64();
    lemma_category_le(value, 10);
    lemma_value_bits_round_trip(value);
    lemma_ac_symbol(value, rest);
    assert(is_ac_symbol(0xF0u8));
    lemma_nibbles(rest, category(value) as u8);
    lemma_holds_at_parts(bits, offset, zrl, coded);
    lemma_zrl_at(table, count, bits, offset, idx, du);
    let mid = idx + 16 * count;
    let du_mid = zeroed(du, idx, mid);
    let at = offset + zrl.len();
    lemma_holds_at_parts(bits, at, code, value_bits(value));
    lemma_symbol_at(table, symbol, bits, at);
    lemma_value_at(value, bits, at + code.len());
    assert(zeroed(du_mid, mid, mid + rest).update(mid + rest, value as i16) =~= zeroed(
        du,
        idx,
        idx + run,
    ).update(idx + run, value as i16));
}

/// The bits of the AC coefficients from place `from` on, `run` zeros standing
/// before them that have not gone out.
pub open spec fn ac_tail_bits(codes: Map<u8, Seq<bool>>, ac: Seq<i16>, from: int,
    run: nat) -> Seq<bool>
    decreases ac.len() - from,
{
    if from < 0 || from >= ac.len() {
        if run > 0 {
            codes[0u8]
        } else {
            Seq::empty()
        }
    } else if ac[from] == 0 {
        ac_tail_bits(codes, ac, from + 1, run + 1)
    } else {
        ac_coded_bits(codes, ac[from] as int, run) + ac_tail_bits(codes, ac, from + 1, 0)
    }
}

/// The bits of a block's AC coefficients are the bits of the first `from` of
/// them and the bits of the rest.
pub proof fn lemma_ac_bits_split(codes: Map<u8, Seq<bool>>, ac: Seq<i16>, from: int)
    requires
        0 <= from <= ac.len(),
    ensures
        ac_block_bits(codes, ac) == ac_prefix_bits(codes, ac.take(from)) + ac_tail_bits(
            codes,
            ac,
            from,
            trailing_zeros(ac.take(from)),
        ),
    decreases ac.len() - from,
{
    if from == ac.len() {
        assert(ac.take(from) =~= ac);
    } else {
        lemma_ac_bits_split(codes, ac, from + 1);
        assert(ac.take(from + 1).drop_last() =~= ac.take(from));
        assert(ac.take(from + 1).last() == ac[from]);
        let before = ac_prefix_bits(codes, ac.take(from));
        if ac[from] != 0 {
            let coded = ac_coded_bits(codes, ac[from] as int, trailing_zeros(ac.take(from)));
            let tail = ac_tail_bits(codes, ac, from + 1, 0);
            assert((before + coded) + tail =~= before + (coded + tail));
        }
    }
}

/// The AC coefficients from place `from` on that are coded at `offset`, `run`
/// zeros standing before them, are read there into the places of the block from
/// that of the first of the zeros on.
pub proof fn lemma_ac_tail_at(
    table: TableSpec,
    ac: Seq<i16>,
    from: int,
    run: nat,
    bits: Seq<bool>,
    offset: int,
    du: Seq<i16>,
)
    requires
        decodable(table),
        du.len() == 64,
        ac.len() == 63,
        0 <= from - run,
        from <= 63,
        coefficients_within(ac, 1023),
        forall|i: int| from - run <= i < from ==> ac[i] == 0,
        forall|s: u8| is_ac_symbol(s) ==> codes_of(table).dom().contains(s),
        holds_at(bits, offset, ac_tail_bits(codes_of(table), ac, from, run)),
    ensures
        decode_ac(table, bits, offset, 1 + from - run, du) == Ok::<(Seq<i16>, int), DecodeError>(
            (
                du.take(1 + from - run) + ac.skip(from - run),
                offset + ac_tail_bits(codes_of(table), ac, from, run).len(),
            ),
        ),
    decreases 63 - from,
{
    let codes = codes_of(table);
    let idx = 1 + from - run;
    if from == 63 {
        if run > 0 {
            assert(is_ac_symbol(0u8));
            lemma_symbol_at(table, 0u8, bits, offset);
            assert(zeroed(du, idx, 64) =~= du.take(idx) + ac.skip(from - run));
        } else {
            assert(du =~= du.take(64) + ac.skip(63));
        }
    } else if ac[from] == 0 {
        lemma_ac_tail_at(table, ac, from + 1, run + 1, bits, offset, du);
    } else {
        let value = ac[from] as int;
        let coded = ac_coded_bits(codes, value, run);
        let tail = ac_tail_bits(codes, ac, from + 1, 0);
        lemma_holds_at_parts(bits, offset, coded, tail);
        lemma_ac_coefficient_at(table, value, run, bits, offset, idx, du);
        let next = zeroed(du, idx, idx + run).update(idx + run, value as i16);
        lemma_ac_tail_at(table, ac, from + 1, 0, bits, offset + coded.len(), next);
        assert(next.take(2 + from) + ac.skip(from + 1) =~= du.take(idx) + ac.skip(from - run));
    }
}

/// A block that is coded at `offset` is read there: what the encoder writes
/// of a block whose coefficients are at most 1023 in magnitude, the decoder
/// reads back as the block.
pub proof fn lemma_block_round_trip(
    dc: TableSpec,
    ac: TableSpec,
    sum: int,
    du: Seq<i16>,
    bits: Seq<bool>,
    offset: int,
)
    requires
        decodable(dc),
        decodable(ac),
        du.len() == 64,
        coefficients_within(du, 1023),
        -1023 <= sum <= 1023,
        forall|c: u8| c <= 11 ==> codes_of(dc).dom().contains(c),
        forall|s: u8| is_ac_symbol(s) ==> codes_of(ac).dom().contains(s),
        holds_at(bits, offset, du_bits(codes_of(dc), codes_of(ac), sum, du)),
    ensures
        decode_unit(dc, ac, bits, offset, sum) == Ok::<(Seq<i16>, int), DecodeError>(
            (du, offset + du_bits(codes_of(dc), codes_of(ac), sum, du).len()),
        ),
{
    let diff = dc_difference(sum, du[0] as int);
    let dc_part = coded_bits(codes_of(dc), diff, None);
    let ac_part = ac_block_bits(codes_of(ac), du.skip(1));
    vstd::arithmetic::power2::lemma2_to64();
    lemma_category_le(diff, 11);
    lemma_dc_symbol(diff);
    lemma_holds_at_parts(bits, offset, dc_part, ac_part);
    lemma_dc_at(dc, sum, du[0] as int, bits, offset);
    let fresh = Seq::new(64, |i: int| 0i16).update(0, du[0]);
    lemma_ac_bits_split(codes_of(ac), du.skip(1), 0);
    assert(du.skip(1).take(0) =~= Seq::<i16>::empty());
    assert(ac_prefix_bits(codes_of(ac), Seq::<i16>::empty()) =~= Seq::<bool>::empty());
    assert(ac_part =~= ac_tail_bits(codes_of(ac), du.skip(1), 0, 0));
    assert(coefficients_within(du.skip(1), 1023)) by {
        assert forall|i: int| 0 <= i < du.skip(1).len() implies -1023 <= #[trigger] du.skip(1)[i]
            <= 1023 by {
            assert(du.skip(1)[i] == du[i + 1]);
        }
    }
    lemma_ac_tail_at(ac, du.skip(1), 0, 0, bits, offset + dc_part.len(), fresh);
    assert(fresh.take(1) + du.skip(1).skip(0) =~= du);
}

/// The blocks of an MCU in the order of the scan.
pub open spec fn mcu_units(mcu: ZigzagMcu) -> Seq<Seq<i16>> {
    seq![mcu.y0.0@, mcu.y1.0@, mcu.cb.0@, mcu.cr.0@]
}

/// The blocks of the MCUs in the order of the scan.
pub open spec fn scan_unit_list(mcus: Seq<ZigzagMcu>) -> Seq<Seq<i16>>
    decreases mcus.len(),
{
    if mcus.len() == 0 {
        Seq::empty()
    } else {
        scan_unit_list(mcus.drop_last()) + mcu_units(mcus.last())
    }
}

/// Where the decoding of a scan stands behind the MCUs `mcus`.
pub open spec fn state_behind(codes: ScanCodes, mcus: Seq<ZigzagMcu>) -> ScanState {
    ScanState {
        offset: scan_bits(codes, mcus).len() as int,
        sums: seq![predictors(mcus).0, predictors(mcus).1, predictors(mcus).2],
        units: scan_unit_list(mcus),
    }
}

/// The plan of a 4:2:2 scan with the tables `dc` and `ac` of luminance and
/// chrominance: two luminance blocks and one block of each chrominance in an
/// MCU.
pub open spec fn plan_422(
    luminance_dc: TableSpec,
    luminance_ac: TableSpec,
    chroma_dc: TableSpec,
    chroma_ac: TableSpec,
) -> ScanPlan {
    ScanPlan {
        dc: seq![luminance_dc, chroma_dc, chroma_dc],
        ac: seq![luminance_ac, chroma_ac, chroma_ac],
        counts: seq![2nat, 1nat, 1nat],
    }
}

/// The codewords of the four tables.
pub open spec fn codes_422(
    luminance_dc: TableSpec,
    luminance_ac: TableSpec,
    chroma_dc: TableSpec,
    chroma_ac: TableSpec,
) -> ScanCodes {
    ScanCodes {
        luminance_dc: codes_of(luminance_dc),
        luminance_ac: codes_of(luminance_ac),
        chroma_dc: codes_of(chroma_dc),
        chroma_ac: codes_of(chroma_ac),
    }
}

/// A table of DC codes that a scan can be coded and decoded with.
pub open spec fn usable_dc(table: TableSpec) -> bool {
    decodable(table) && forall|c: u8| c <= 11 ==> codes_of(table).dom().contains(c)
}

/// A table of AC codes that a scan can be coded and decoded with.
pub open spec fn usable_ac(table: TableSpec) -> bool {
    decodable(table) && forall|s: u8| is_ac_symbol(s) ==> codes_of(table).dom().contains(s)
}

/// The DC coefficients behind MCUs whose coefficients are at most 1023 in
/// magnitude are so.
pub proof fn lemma_predictors_within(mcus: Seq<ZigzagMcu>)
    requires
        forall|i: int| 0 <= i < mcus.len() ==> mcu_within(#[trigger] mcus[i], 1023),
    ensures
        -1023 <= predictors(mcus).0 <= 1023,
        -1023 <= predictors(mcus).1 <= 1023,
        -1023 <= predictors(mcus).2 <= 1023,
{
    if mcus.len() > 0 {
        assert(mcu_within(mcus[mcus.len() - 1], 1023));
        assert(mcus.last().y1.0@[0] <= 1023);
        assert(mcus.last().cb.0@[0] <= 1023);
        assert(mcus.last().cr.0@[0] <= 1023);
    }
}

/// The state behind one more block of component `c`.
pub open spec fn state_with(st: ScanState, c: int, unit: (Seq<i16>, int)) -> ScanState {
    ScanState {
        offset: unit.1,
        sums: st.sums.update(c, unit.0[0] as int),
        units: st.units.push(unit.0),
    }
}

/// Where a block of a component is read, the decoding goes on behind it.
pub proof fn lemma_run_component_step(
    plan: ScanPlan,
    bits: Seq<bool>,
    st: ScanState,
    c: int,
    remaining: nat,
    unit: (Seq<i16>, int),
)
    requires
        remaining > 0,
        decode_unit(plan.dc[c], plan.ac[c], bits, st.offset, st.sums[c]) == Ok::<
            (Seq<i16>, int),
            DecodeError,
        >(unit),
    ensures
        run_component(plan, bits, st, c, remaining) == run_component(
            plan,
            bits,
            state_with(st, c, unit),
            c,
            (remaining - 1) as nat,
        ),
{
}

/// Where the blocks of a component are read, the decoding of the MCU goes on
/// with the next component.
pub proof fn lemma_run_mcu_step(plan: ScanPlan, bits: Seq<bool>, st: ScanState, c: int,
    after: ScanState)
    requires
        0 <= c < plan.counts.len(),
        run_component(plan, bits, st, c, plan.counts[c]) == Ok::<ScanState, DecodeError>(after),
    ensures
        run_mcu(plan, bits, st, c) == run_mcu(plan, bits, after, c + 1),
{
}

/// Where the four blocks of an MCU are read one behind the other, the MCU
/// is read.
pub proof fn lemma_run_mcu(
    luminance_dc: TableSpec,
    luminance_ac: TableSpec,
    chroma_dc: TableSpec,
    chroma_ac: TableSpec,
    bits: Seq<bool>,
    start: ScanState,
    y0: (Seq<i16>, int),
    y1: (Seq<i16>, int),
    cb: (Seq<i16>, int),
    cr: (Seq<i16>, int),
)
    requires
        start.sums.len() == 3,
        decode_unit(luminance_dc, luminance_ac, bits, start.offset, start.sums[0]) == Ok::<
            (Seq<i16>, int),
            DecodeError,
        >(y0),
        decode_unit(luminance_dc, luminance_ac, bits, y0.1, y0.0[0] as int) == Ok::<
            (Seq<i16>, int),
            DecodeError,
        >(y1),
        decode_unit(chroma_dc, chroma_ac, bits, y1.1, start.sums[1]) == Ok::<
            (Seq<i16>, int),
            DecodeError,
        >(cb),
        decode_unit(chroma_dc, chroma_ac, bits, cb.1, start.sums[2]) == Ok::<
            (Seq<i16>, int),
            DecodeError,
        >(cr),
    ensures
        run_mcu(plan_422(luminance_dc, luminance_ac, chroma_dc, chroma_ac), bits, start, 0) == Ok::<
            ScanState,
            DecodeError,
        >(
            ScanState {
                offset: cr.1,
                sums: seq![y1.0[0] as int, cb.0[0] as int, cr.0[0] as int],
                units: start.units + seq![y0.0, y1.0, cb.0, cr.0],
            },
        ),
{
    let plan = plan_422(luminance_dc, luminance_ac, chroma_dc, chroma_ac);
    let s1 = state_with(start, 0, y0);
    let s2 = state_with(s1, 0, y1);
    let s3 = state_with(s2, 1, cb);
    let s4 = state_with(s3, 2, cr);
    lemma_run_component_step(plan, bits, start, 0, 2, y0);
    lemma_run_component_step(plan, bits, s1, 0, 1, y1);
    lemma_run_mcu_step(plan, bits, start, 0, s2);
    lemma_run_component_step(plan, bits, s2, 1, 1, cb);
    lemma_run_mcu_step(plan, bits, s2, 1, s3);
    lemma_run_component_step(plan, bits, s3, 2, 1, cr);
    lemma_run_mcu_step(plan, bits, s3, 2, s4);
    assert(run_mcu(plan, bits, s4, 3) == Ok::<ScanState, DecodeError>(s4));
    assert(s4.sums =~= seq![y1.0[0] as int, cb.0[0] as int, cr.0[0] as int]);
    assert(s4.units =~= start.units + seq![y0.0, y1.0, cb.0, cr.0]);
}

/// An MCU that is coded at the place where the decoding stands is read
/// there.
#[verifier::rlimit(40)]
pub proof fn lemma_mcu_at(
    luminance_dc: TableSpec,
    luminance_ac: TableSpec,
    chroma_dc: TableSpec,
    chroma_ac: TableSpec,
    start: ScanState,
    mcu: ZigzagMcu,
    bits: Seq<bool>,
)
    requires
        usable_dc(luminance_dc),
        usable_ac(luminance_ac),
        usable_dc(chroma_dc),
        usable_ac(chroma_ac),
        start.sums.len() == 3,
        -1023 <= start.sums[0] <= 1023,
        -1023 <= start.sums[1] <= 1023,
        -1023 <= start.sums[2] <= 1023,
        mcu_within(mcu, 1023),
        holds_at(
            bits,
            start.offset,
            mcu_bits(
                codes_422(luminance_dc, luminance_ac, chroma_dc, chroma_ac),
                (start.sums[0], start.sums[1], start.sums[2]),
                mcu,
            ),
        ),
    ensures
        run_mcu(plan_422(luminance_dc, luminance_ac, chroma_dc, chroma_ac), bits, start, 0) == Ok::<
            ScanState,
            DecodeError,
        >(
            ScanState {
                offset: start.offset + mcu_bits(
                    codes_422(luminance_dc, luminance_ac, chroma_dc, chroma_ac),
                    (start.sums[0], start.sums[1], start.sums[2]),
                    mcu,
                ).len(),
                sums: seq![mcu.y1.0@[0] as int, mcu.cb.0@[0] as int, mcu.cr.0@[0] as int],
                units: start.units + seq![mcu.y0.0@, mcu.y1.0@, mcu.cb.0@, mcu.cr.0@],
            },
        ),
{
    let codes = codes_422(luminance_dc, luminance_ac, chroma_dc, chroma_ac);
    let at = start.offset;
    let pred = (start.sums[0], start.sums[1], start.sums[2]);
    let b0 = du_bits(codes.luminance_dc, codes.luminance_ac, start.sums[0], mcu.y0.0@);
    let b1 = du_bits(codes.luminance_dc, codes.luminance_ac, mcu.y0.0@[0] as int, mcu.y1.0@);
    let b2 = du_bits(codes.chroma_dc, codes.chroma_ac, start.sums[1], mcu.cb.0@);
    let b3 = du_bits(codes.chroma_dc, codes.chroma_ac, start.sums[2], mcu.cr.0@);
    lemma_mcu_parts_at(codes, pred, mcu, bits, at);
    assert(mcu.y0.0@[0] <= 1023);
    lemma_block_round_trip(luminance_dc, luminance_ac, start.sums[0], mcu.y0.0@, bits, at);
    lemma_block_round_trip(
        luminance_dc,
        luminance_ac,
        mcu.y0.0@[0] as int,
        mcu.y1.0@,
        bits,
        at + b0.len(),
    );
    lemma_block_round_trip(
        chroma_dc,
        chroma_ac,
        start.sums[1],
        mcu.cb.0@,
        bits,
        at + b0.len() + b1.len(),
    );
    lemma_block_round_trip(
        chroma_dc,
        chroma_ac,
        start.sums[2],
        mcu.cr.0@,
        bits,
        at + b0.len() + b1.len() + b2.len(),
    );
    lemma_run_mcu(
        luminance_dc,
        luminance_ac,
        chroma_dc,
        chroma_ac,
        bits,
        start,
        (mcu.y0.0@, at + b0.len()),
        (mcu.y1.0@, at + b0.len() + b1.len()),
        (mcu.cb.0@, at + b0.len() + b1.len() + b2.len()),
        (mcu.cr.0@, at + b0.len() + b1.len() + b2.len() + b3.len()),
    );
}

/// Where an MCU stands, its four blocks stand one behind the other.
pub proof fn lemma_mcu_parts_at(
    codes: ScanCodes,
    pred: (int, int, int),
    mcu: ZigzagMcu,
    bits: Seq<bool>,
    at: int,
)
    requires
        holds_at(bits, at, mcu_bits(codes, pred, mcu)),
    ensures
        ({
            let b0 = du_bits(codes.luminance_dc, codes.luminance_ac, pred.0, mcu.y0.0@);
            let b1 = du_bits(
                codes.luminance_dc,
                codes.luminance_ac,
                mcu.y0.0@[0] as int,
                mcu.y1.0@,
            );
            let b2 = du_bits(codes.chroma_dc, codes.chroma_ac, pred.1, mcu.cb.0@);
            let b3 = du_bits(codes.chroma_dc, codes.chroma_ac, pred.2, mcu.cr.0@);
            &&& mcu_bits(codes, pred, mcu).len() == b0.len() + b1.len() + b2.len() + b3.len()
            &&& holds_at(bits, at, b0)
            &&& holds_at(bits, at + b0.len(), b1)
            &&& holds_at(bits, at + b0.len() + b1.len(), b2)
            &&& holds_at(bits, at + b0.len() + b1.len() + b2.len(), b3)
        }),
{
    let b0 = du_bits(codes.luminance_dc, codes.luminance_ac, pred.0, mcu.y0.0@);
    let b1 = du_bits(codes.luminance_dc, codes.luminance_ac, mcu.y0.0@[0] as int, mcu.y1.0@);
    let b2 = du_bits(codes.chroma_dc, codes.chroma_ac, pred.1, mcu.cb.0@);
    let b3 = du_bits(codes.chroma_dc, codes.chroma_ac, pred.2, mcu.cr.0@);
    assert(mcu_bits(codes, pred, mcu) == b0 + b1 + b2 + b3);
    lemma_holds_at_parts(bits, at, b0 + b1 + b2, b3);
    lemma_holds_at_parts(bits, at, b0 + b1, b2);
    lemma_holds_at_parts(bits, at, b0, b1);
}

/// An MCU that is coded behind the MCUs before it is read there.
pub proof fn lemma_mcu_round_trip(
    luminance_dc: TableSpec,
    luminance_ac: TableSpec,
    chroma_dc: TableSpec,
    chroma_ac: TableSpec,
    before: Seq<ZigzagMcu>,
    mcu: ZigzagMcu,
    bits: Seq<bool>,
)
    requires
        usable_dc(luminance_dc),
        usable_ac(luminance_ac),
        usable_dc(chroma_dc),
        usable_ac(chroma_ac),
        forall|i: int| 0 <= i < before.len() ==> mcu_within(#[trigger] before[i], 1023),
        mcu_within(mcu, 1023),
        holds_at(
            bits,
            scan_bits(
                codes_422(luminance_dc, luminance_ac, chroma_dc, chroma_ac),
                before,
            ).len() as int,
            mcu_bits(
                codes_422(luminance_dc, luminance_ac, chroma_dc, chroma_ac),
                predictors(before),
                mcu,
            ),
        ),
    ensures
        run_mcu(
            plan_422(luminance_dc, luminance_ac, chroma_dc, chroma_ac),
            bits,
            state_behind(codes_422(luminance_dc, luminance_ac, chroma_dc, chroma_ac), before),
            0,
        ) == Ok::<ScanState, DecodeError>(
            state_behind(
                codes_422(luminance_dc, luminance_ac, chroma_dc, chroma_ac),
                before.push(mcu),
            ),
        ),
{
    let codes = codes_422(luminance_dc, luminance_ac, chroma_dc, chroma_ac);
    let start = state_behind(codes, before);
    lemma_predictors_within(before);
    assert((start.sums[0], start.sums[1], start.sums[2]) == predictors(before));
    lemma_mcu_at(luminance_dc, luminance_ac, chroma_dc, chroma_ac, start, mcu, bits);
    lemma_state_step(codes, before, mcu);
}

/// The state behind one more MCU.
pub proof fn lemma_state_step(codes: ScanCodes, before: Seq<ZigzagMcu>, mcu: ZigzagMcu)
    ensures
        state_behind(codes, before.push(mcu)) == (ScanState {
            offset: state_behind(codes, before).offset + mcu_bits(
                codes,
                predictors(before),
                mcu,
            ).len(),
            sums: seq![mcu.y1.0@[0] as int, mcu.cb.0@[0] as int, mcu.cr.0@[0] as int],
            units: state_behind(codes, before).units + seq![
                mcu.y0.0@,
                mcu.y1.0@,
                mcu.cb.0@,
                mcu.cr.0@,
            ],
        }),
{
    assert(before.push(mcu).drop_last() =~= before);
    assert(before.push(mcu).last() == mcu);
}

/// Where a sequence is the start of another, so is its own start.
pub proof fn lemma_start_of_start<A>(whole: Seq<A>, longer: Seq<A>, shorter: Seq<A>, piece: Seq<A>)
    requires
        longer == shorter + piece,
        longer.len() <= whole.len(),
        whole.take(longer.len() as int) == longer,
    ensures
        whole.take(shorter.len() as int) == shorter,
        whole.subrange(shorter.len() as int, (shorter.len() + piece.len()) as int) == piece,
{
    assert(whole.take(shorter.len() as int) =~= whole.take(longer.len() as int).take(
        shorter.len() as int,
    ));
    assert(longer.take(shorter.len() as int) =~= shorter);
    assert(whole.subrange(shorter.len() as int, (shorter.len() + piece.len()) as int)
        =~= whole.take(longer.len() as int).subrange(
        shorter.len() as int,
        longer.len() as int,
    ));
    assert(longer.subrange(shorter.len() as int, longer.len() as int) =~= piece);
}

/// The scan of the first `j` MCUs is the start of the scan of all.
pub proof fn lemma_scan_bits_start(codes: ScanCodes, mcus: Seq<ZigzagMcu>, j: int)
    requires
        0 <= j <= mcus.len(),
    ensures
        scan_bits(codes, mcus.take(j)).len() <= scan_bits(codes, mcus).len(),
        scan_bits(codes, mcus).take(scan_bits(codes, mcus.take(j)).len() as int) == scan_bits(
            codes,
            mcus.take(j),
        ),
    decreases mcus.len() - j,
{
    let whole = scan_bits(codes, mcus);
    if j == mcus.len() {
        assert(mcus.take(j) =~= mcus);
        assert(whole.take(whole.len() as int) =~= whole);
    } else {
        lemma_scan_bits_start(codes, mcus, j + 1);
        lemma_scan_bits_step(codes, mcus, j);
        lemma_start_of_start(
            whole,
            scan_bits(codes, mcus.take(j + 1)),
            scan_bits(codes, mcus.take(j)),
            mcu_bits(codes, predictors(mcus.take(j)), mcus[j]),
        );
    }
}

/// The scan of one more MCU.
pub proof fn lemma_scan_bits_step(codes: ScanCodes, mcus: Seq<ZigzagMcu>, j: int)
    requires
        0 <= j < mcus.len(),
    ensures
        scan_bits(codes, mcus.take(j + 1)) == scan_bits(codes, mcus.take(j)) + mcu_bits(
            codes,
            predictors(mcus.take(j)),
            mcus[j],
        ),
{
    assert(mcus.take(j + 1).drop_last() =~= mcus.take(j));
    assert(mcus.take(j + 1).last() == mcus[j]);
}

/// MCU `j` of a scan stands behind the scan of the MCUs before it.
pub proof fn lemma_scan_bits_prefix(codes: ScanCodes, mcus: Seq<ZigzagMcu>, j: int)
    requires
        0 <= j < mcus.len(),
    ensures
        holds_at(
            scan_bits(codes, mcus),
            scan_bits(codes, mcus.take(j)).len() as int,
            mcu_bits(codes, predictors(mcus.take(j)), mcus[j]),
        ),
{
    lemma_scan_bits_start(codes, mcus, j + 1);
    lemma_scan_bits_step(codes, mcus, j);
    lemma_start_of_start(
        scan_bits(codes, mcus),
        scan_bits(codes, mcus.take(j + 1)),
        scan_bits(codes, mcus.take(j)),
        mcu_bits(codes, predictors(mcus.take(j)), mcus[j]),
    );
}

/// The MCUs from number `j` on of a scan that stands at the start of `bits`
/// are read there, whatever stands behind the scan.
pub proof fn lemma_scan_round_trip_from(
    luminance_dc: TableSpec,
    luminance_ac: TableSpec,
    chroma_dc: TableSpec,
    chroma_ac: TableSpec,
    mcus: Seq<ZigzagMcu>,
    bits: Seq<bool>,
    j: int,
)
    requires
        usable_dc(luminance_dc),
        usable_ac(luminance_ac),
        usable_dc(chroma_dc),
        usable_ac(chroma_ac),
        forall|i: int| 0 <= i < mcus.len() ==> mcu_within(#[trigger] mcus[i], 1023),
        holds_at(
            bits,
            0,
            scan_bits(codes_422(luminance_dc, luminance_ac, chroma_dc, chroma_ac), mcus),
        ),
        0 <= j <= mcus.len(),
    ensures
        run_scan(
            plan_422(luminance_dc, luminance_ac, chroma_dc, chroma_ac),
            bits,
            state_behind(
                codes_422(luminance_dc, luminance_ac, chroma_dc, chroma_ac),
                mcus.take(j),
            ),
            (mcus.len() - j) as nat,
        ) == Ok::<ScanState, DecodeError>(
            state_behind(codes_422(luminance_dc, luminance_ac, chroma_dc, chroma_ac), mcus),
        ),
    decreases mcus.len() - j,
{
    let codes = codes_422(luminance_dc, luminance_ac, chroma_dc, chroma_ac);
    if j == mcus.len() {
        assert(mcus.take(j) =~= mcus);
    } else {
        lemma_scan_bits_prefix(codes, mcus, j);
        lemma_holds_at_inside(
            bits,
            scan_bits(codes, mcus),
            scan_bits(codes, mcus.take(j)).len() as int,
            mcu_bits(codes, predictors(mcus.take(j)), mcus[j]),
        );
        lemma_mcu_round_trip(
            luminance_dc,
            luminance_ac,
            chroma_dc,
            chroma_ac,
            mcus.take(j),
            mcus[j],
            bits,
        );
        assert(mcus.take(j).push(mcus[j]) =~= mcus.take(j + 1));
        lemma_scan_round_trip_from(
            luminance_dc,
            luminance_ac,
            chroma_dc,
            chroma_ac,
            mcus,
            bits,
            j + 1,
        );
    }
}

/// The default luminance DC table.
pub open spec fn luminance_dc_table() -> TableSpec {
    TableSpec { codes: DEFAULT_LUMINANCE_DC_CODES@, values: DEFAULT_LUMINANCE_DC_VALUES@ }
}

/// The default luminance AC table.
pub open spec fn luminance_ac_table() -> TableSpec {
    TableSpec { codes: DEFAULT_LUMINANCE_AC_CODES@, values: DEFAULT_LUMINANCE_AC_VALUES@ }
}

/// The default chrominance DC table.
pub open spec fn chroma_dc_table() -> TableSpec {
    TableSpec { codes: DEFAULT_CHROMA_DC_CODES@, values: DEFAULT_CHROMA_DC_VALUES@ }
}

/// The default chrominance AC table.
pub open spec fn chroma_ac_table() -> TableSpec {
    TableSpec { codes: DEFAULT_CHROMA_AC_CODES@, values: DEFAULT_CHROMA_AC_VALUES@ }
}

/// The share of the code space that sixteen counts take, written out.
pub proof fn lemma_kraft_sum_value(codes: Seq<u8>)
    requires
        codes.len() == 16,
    ensures
        kraft_sum(codes, 16) == codes[0] * 32768 + codes[1] * 16384 + codes[2] * 8192 + codes[3]
            * 4096 + codes[4] * 2048 + codes[5] * 1024 + codes[6] * 512 + codes[7] * 256
            + codes[8] * 128 + codes[9] * 64 + codes[10] * 32 + codes[11] * 16 + codes[12] * 8
            + codes[13] * 4 + codes[14] * 2 + codes[15] * 1,
        count_upto(codes, 16) == codes[0] + codes[1] + codes[2] + codes[3] + codes[4] + codes[5]
            + codes[6] + codes[7] + codes[8] + codes[9] + codes[10] + codes[11] + codes[12]
            + codes[13] + codes[14] + codes[15],
{
    vstd::arithmetic::power2::lemma2_to64();
    reveal_with_fuel(kraft_sum, 17);
    reveal_with_fuel(count_upto, 17);
}

/// The counts of the default luminance DC table are valid, and the table has
/// a symbol for each of its codewords.
pub proof fn lemma_luminance_dc_decodable()
    ensures
        decodable(luminance_dc_table()),
{
    lemma_kraft_sum_value(DEFAULT_LUMINANCE_DC_CODES@);
    lemma_codewords_len(DEFAULT_LUMINANCE_DC_CODES@, 16);
}

/// The counts of the default luminance AC table are valid, and the table has
/// a symbol for each of its codewords.
pub proof fn lemma_luminance_ac_decodable()
    ensures
        decodable(luminance_ac_table()),
{
    lemma_kraft_sum_value(DEFAULT_LUMINANCE_AC_CODES@);
    lemma_codewords_len(DEFAULT_LUMINANCE_AC_CODES@, 16);
}

/// The counts of the default chrominance DC table are valid, and the table
/// has a symbol for each of its codewords.
pub proof fn lemma_chroma_dc_decodable()
    ensures
        decodable(chroma_dc_table()),
{
    lemma_kraft_sum_value(DEFAULT_CHROMA_DC_CODES@);
    lemma_codewords_len(DEFAULT_CHROMA_DC_CODES@, 16);
}

/// The counts of the default chrominance AC table are valid, and the table
/// has a symbol for each of its codewords.
pub proof fn lemma_chroma_ac_decodable()
    ensures
        decodable(chroma_ac_table()),
{
    lemma_kraft_sum_value(DEFAULT_CHROMA_AC_CODES@);
    lemma_codewords_len(DEFAULT_CHROMA_AC_CODES@, 16);
}

/// The four default tables are such as a scan can be coded and decoded
/// with.
pub proof fn lemma_default_tables_usable()
    ensures
        usable_dc(luminance_dc_table()),
        usable_ac(luminance_ac_table()),
        usable_dc(chroma_dc_table()),
        usable_ac(chroma_ac_table()),
{
    lemma_luminance_dc_decodable();
    lemma_luminance_ac_decodable();
    lemma_chroma_dc_decodable();
    lemma_chroma_ac_decodable();
    assert forall|c: u8| c <= 11 implies codes_of(luminance_dc_table()).dom().contains(c) by {
        assert(DEFAULT_LUMINANCE_DC_VALUES@[c as int] == c);
        lemma_symbol_codes_dom(
            DEFAULT_LUMINANCE_DC_VALUES@,
            canonical_codewords(DEFAULT_LUMINANCE_DC_CODES@),
            12,
            c as int,
        );
    }
    assert forall|c: u8| c <= 11 implies codes_of(chroma_dc_table()).dom().contains(c) by {
        assert(DEFAULT_CHROMA_DC_VALUES@[c as int] == c);
        lemma_symbol_codes_dom(
            DEFAULT_CHROMA_DC_VALUES@,
            canonical_codewords(DEFAULT_CHROMA_DC_CODES@),
            12,
            c as int,
        );
    }
    assert forall|s: u8| is_ac_symbol(s) implies codes_of(luminance_ac_table()).dom().contains(
        s,
    ) by {
        lemma_luminance_ac_complete(s);
        let k = choose|k: int| 0 <= k < 162 && DEFAULT_LUMINANCE_AC_VALUES@[k] == s;
        lemma_symbol_codes_dom(
            DEFAULT_LUMINANCE_AC_VALUES@,
            canonical_codewords(DEFAULT_LUMINANCE_AC_CODES@),
            162,
            k,
        );
    }
    assert forall|s: u8| is_ac_symbol(s) implies codes_of(chroma_ac_table()).dom().contains(s) by {
        lemma_chroma_ac_complete(s);
        let k = choose|k: int| 0 <= k < 162 && DEFAULT_CHROMA_AC_VALUES@[k] == s;
        lemma_symbol_codes_dom(
            DEFAULT_CHROMA_AC_VALUES@,
            canonical_codewords(DEFAULT_CHROMA_AC_CODES@),
            162,
            k,
        );
    }
}

} // verus!
