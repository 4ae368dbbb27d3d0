//! The entropy coder: DC differences and AC runs, written with Huffman codewords.

use crate::bits::max_bits;
use crate::bits::BitString;
use crate::error::EncodeError;
use crate::huffman::canonical_codewords;
use crate::huffman::codewords_upto;
use crate::huffman::symbol_codes;
use crate::huffman::CachedHuffmanTable;
use crate::huffman::Codeword;
use crate::huffman::table_codes;
use crate::markers::nibbles;
use crate::markers::pack_nibbles;
use crate::tables::default_chroma_ac_huffman_table;
use crate::tables::default_chroma_dc_huffman_table;
use crate::tables::default_luminance_ac_huffman_table;
use crate::tables::default_luminance_dc_huffman_table;
use crate::tables::is_ac_symbol;
use crate::tables::lemma_chroma_ac_complete;
use crate::tables::lemma_luminance_ac_complete;
use crate::tables::DEFAULT_CHROMA_AC_CODES;
use crate::tables::DEFAULT_CHROMA_AC_VALUES;
use crate::tables::DEFAULT_CHROMA_DC_CODES;
use crate::tables::DEFAULT_CHROMA_DC_VALUES;
use crate::tables::DEFAULT_LUMINANCE_AC_CODES;
use crate::tables::DEFAULT_LUMINANCE_AC_VALUES;
use crate::tables::DEFAULT_LUMINANCE_DC_CODES;
use crate::tables::DEFAULT_LUMINANCE_DC_VALUES;
use crate::vli::abs_i16;
use crate::vli::bit_length;
use crate::vli::lemma_bit_length_bounds;
use crate::vli::magnitude;
use crate::vli::category;
use crate::vli::encode_value;
use crate::vli::get_category;
use crate::vli::value_bits;
use crate::zigzag::ZigzagDu;
use crate::zigzag::ZigzagMcu;
use crate::zigzag::ZigzagMcuCollection;
use vstd::prelude::*;

verus! {

/// Every canonical codeword has between 1 and 16 bits.
pub proof fn lemma_codeword_lengths(codes: Seq<u8>, l: nat, k: int)
    requires
        0 <= k < codewords_upto(codes, l).len(),
    ensures
        1 <= codewords_upto(codes, l)[k].length <= l,
    decreases l,
{
    if l > 0 {
        if k < codewords_upto(codes, (l - 1) as nat).len() {
            lemma_codeword_lengths(codes, (l - 1) as nat, k);
        }
    }
}

/// Every codeword that a symbol has is one of the first `n` codewords.
pub proof fn lemma_symbol_codes_entry(values: Seq<u8>, words: Seq<Codeword>, n: nat, s: u8)
    requires
        n <= values.len(),
        n <= words.len(),
        symbol_codes(values, words, n).dom().contains(s),
    ensures
        exists|k: int| 0 <= k < n && values[k] == s && symbol_codes(values, words, n)[s]
            == words[k].bits(),
    decreases n,
{
    if n > 0 {
        if values[n - 1] == s {
            assert(symbol_codes(values, words, n)[s] == words[n - 1].bits());
        } else {
            lemma_symbol_codes_entry(values, words, (n - 1) as nat, s);
            let k = choose|k: int|
                0 <= k < n - 1 && values[k] == s && symbol_codes(values, words, (n - 1) as nat)[s]
                    == words[k].bits();
            assert(symbol_codes(values, words, n)[s] == words[k].bits());
        }
    }
}

impl CachedHuffmanTable {
    /// The codewords are those of the table held beside them, which has one
    /// symbol for each codeword.
    pub open spec fn wf(&self) -> bool {
        self.caches(self.1) && self.1.wf()
    }

    /// The table has a codeword for `s`.
    pub open spec fn has(&self, s: u8) -> bool {
        self.0@.dom().contains(s)
    }

    /// The table has a codeword for every category of a DC difference of up to
    /// eleven bits.
    pub open spec fn covers_dc(&self) -> bool {
        forall|c: u8| c <= 11 ==> self.has(c)
    }

    /// The table has a codeword for every symbol that the coding of AC
    /// coefficients of up to ten bits may need.
    pub open spec fn covers_ac(&self) -> bool {
        forall|s: u8| is_ac_symbol(s) ==> self.has(s)
    }

    /// In a well-formed table every codeword has between 1 and 16 bits.
    pub proof fn lemma_code_length(&self, s: u8)
        requires
            self.wf(),
            self.has(s),
        ensures
            1 <= self.code_map()[s].len() <= 16,
            self.code_map()[s] == self.0@[s]@,
    {
        let words = canonical_codewords(self.1.codes@);
        lemma_symbol_codes_entry(self.1.values@, words, self.1.values@.len(), s);
        let k = choose|k: int|
            0 <= k < self.1.values@.len() && self.1.values@[k] == s && symbol_codes(
                self.1.values@,
                words,
                self.1.values@.len(),
            )[s] == words[k].bits();
        lemma_codeword_lengths(self.1.codes@, 16, k);
    }
}

/// The symbol under which a coefficient is coded: the zero run before it in
/// the high four bits, its category in the low four bits.
pub open spec fn entropy_symbol(value: int, zrl: Option<u8>) -> u8 {
    pack_nibbles(
        match zrl {
            Some(run) => run,
            None => 0u8,
        },
        category(value) as u8,
    )
}

/// The bits of one coded coefficient: the codeword of its symbol, then its
/// value bits.
pub open spec fn coded_bits(codes: Map<u8, Seq<bool>>, value: int, zrl: Option<u8>) -> Seq<bool> {
    codes[entropy_symbol(value, zrl)] + value_bits(value)
}

/// Codes one coefficient, `zrl` zeros having gone before it.
pub fn entropy_encode_category(
    huffman_table: &CachedHuffmanTable,
    value: i16,
    zrl: Option<u8>,
) -> (r: BitString)
    requires
        huffman_table.wf(),
        huffman_table.has(entropy_symbol(value as int, zrl)),
    ensures
        r@ == coded_bits(huffman_table.code_map(), value as int, zrl),
        r@.len() <= 32,
{
    broadcast use vstd::std_specs::hash::group_hash_axioms;

    let abs_value = abs_i16(value);
    let category = get_category(abs_value);
    let run = match zrl {
        Some(run) => run,
        None => 0u8,
    };
    let symbol = nibbles(run, category);
    proof {
        huffman_table.lemma_code_length(symbol);
    }
    let prefix = huffman_table.0.get(&symbol).unwrap();
    let mut ret = prefix.duplicate();
    let mut bits = encode_value(value);
    ret.append(&mut bits);
    ret
}

/// The coder of the DC coefficients of one component: each is coded as its
/// difference from the one before.
pub struct DcEncoder<'a> {
    /// The DC coefficient that was coded last; 0 at the start.
    pub pred: i16,
    pub huffman_table: &'a CachedHuffmanTable,
}

/// The coder of the AC coefficients of one block: zeros are counted, and the
/// count goes out with the next coefficient that is not zero.
pub struct AcEncoder<'a> {
    /// The number of zeros since the last coefficient that was not zero.
    pub zero_run_length: usize,
    pub huffman_table: &'a CachedHuffmanTable,
}

/// The codeword of the symbol `F0`, which stands for sixteen zeros, `n` times.
pub open spec fn zrl_bits(codes: Map<u8, Seq<bool>>, n: nat) -> Seq<bool>
    decreases n,
{
    if n == 0 {
        Seq::empty()
    } else {
        zrl_bits(codes, (n - 1) as nat) + codes[0xF0u8]
    }
}

/// The bits with which a coefficient that is not zero goes out after `run`
/// zeros: one `F0` for each full sixteen of them, then the coefficient with the
/// rest of the run.
pub open spec fn ac_coded_bits(codes: Map<u8, Seq<bool>>, value: int, run: nat) -> Seq<bool> {
    zrl_bits(codes, run / 16) + coded_bits(codes, value, Some((run % 16) as u8))
}

/// What is coded of a DC coefficient: its difference from the one before.
pub open spec fn dc_difference(pred: int, value: int) -> int {
    value - pred
}

/// The DC coefficient that a coded difference stands for: the difference
/// added to the coefficient before.
pub open spec fn dc_restored(sum: int, difference: int) -> int {
    sum + difference
}

/// The differences that are coded of a sequence of DC coefficients, the
/// first one taken from 0.
pub open spec fn dc_differences(values: Seq<int>) -> Seq<int> {
    Seq::new(
        values.len(),
        |i: int|
            dc_difference(
                if i == 0 {
                    0
                } else {
                    values[i - 1]
                },
                values[i],
            ),
    )
}

/// The DC coefficients that a sequence of coded differences stands for, the
/// first one added to 0.
pub open spec fn dc_sums(differences: Seq<int>) -> Seq<int>
    decreases differences.len(),
{
    if differences.len() == 0 {
        Seq::empty()
    } else {
        let before = dc_sums(differences.drop_last());
        before.push(
            dc_restored(
                if before.len() == 0 {
                    0
                } else {
                    before.last()
                },
                differences.last(),
            ),
        )
    }
}

/// The differences of a sequence of DC coefficients are the first
/// coefficient and then each coefficient less the one before; and adding the
/// differences up from 0 gives the coefficients back.
pub proof fn lemma_dc_round_trip(values: Seq<int>)
    ensures
        dc_differences(values).len() == values.len(),
        values.len() > 0 ==> dc_differences(values)[0] == values[0],
        forall|i: int|
            0 < i < values.len() ==> #[trigger] dc_differences(values)[i] == values[i] - values[i
                - 1],
        dc_sums(dc_differences(values)) == values,
    decreases values.len(),
{
    if values.len() > 0 {
        lemma_dc_round_trip(values.drop_last());
        assert(dc_differences(values).drop_last() =~= dc_differences(values.drop_last()));
        assert(dc_sums(dc_differences(values)) =~= values);
    } else {
        assert(dc_sums(dc_differences(values)) =~= values);
    }
}

impl<'a> DcEncoder<'a> {
    /// A coder whose first difference is taken from 0.
    pub fn new(huffman_table: &'a CachedHuffmanTable) -> (r: Self)
        ensures
            r.pred == 0,
            r.huffman_table == huffman_table,
    {
        Self { pred: 0, huffman_table }
    }

    /// Codes the DC coefficient `value` as its difference from the last one,
    /// which `value` then replaces.
    pub fn next(&mut self, value: i16) -> (r: BitString)
        requires
            old(self).huffman_table.wf(),
            -32767 <= dc_difference(old(self).pred as int, value as int) <= 32767,
            old(self).huffman_table.has(
                entropy_symbol(dc_difference(old(self).pred as int, value as int), None),
            ),
        ensures
            r@ == coded_bits(
                old(self).huffman_table.code_map(),
                dc_difference(old(self).pred as int, value as int),
                None,
            ),
            r@.len() <= 32,
            final(self).pred == value,
            final(self).huffman_table == old(self).huffman_table,
    {
        let diff = value - self.pred;
        let ret = entropy_encode_category(self.huffman_table, diff, None);
        self.pred = value;
        ret
    }
}

impl<'a> AcEncoder<'a> {
    /// A coder at the start of a block.
    pub fn new(huffman_table: &'a CachedHuffmanTable) -> (r: Self)
        ensures
            r.zero_run_length == 0,
            r.huffman_table == huffman_table,
    {
        Self { zero_run_length: 0, huffman_table }
    }

    /// Takes the next AC coefficient. A zero is counted and nothing goes out;
    /// another coefficient goes out with the zeros counted before it.
    pub fn next(&mut self, value: i16) -> (r: BitString)
        requires
            old(self).huffman_table.wf(),
            value != i16::MIN,
            old(self).zero_run_length + 48 <= max_bits(),
            value != 0 ==> old(self).huffman_table.has(
                entropy_symbol(value as int, Some((old(self).zero_run_length % 16) as u8)),
            ),
            value != 0 && old(self).zero_run_length >= 16 ==> old(self).huffman_table.has(0xF0u8),
        ensures
            final(self).huffman_table == old(self).huffman_table,
            value == 0 ==> r@ == Seq::<bool>::empty() && final(self).zero_run_length
                == old(self).zero_run_length + 1,
            value != 0 ==> r@ == ac_coded_bits(
                old(self).huffman_table.code_map(),
                value as int,
                old(self).zero_run_length as nat,
            ) && final(self).zero_run_length == 0,
            r@.len() <= old(self).zero_run_length + 48,
    {
        if value == 0 {
            self.zero_run_length += 1;
            BitString::new()
        } else {
            let ghost run = self.zero_run_length;
            let mut ret = self.flush(false);
            let mut coded = entropy_encode_category(
                self.huffman_table,
                value,
                Some(self.zero_run_length as u8),
            );
            ret.append(&mut coded);
            self.zero_run_length = 0;
            ret
        }
    }

    /// Writes out what the count of zeros calls for.
    ///
    /// At the end of a block that is the end-of-block symbol `00`, if zeros are
    /// pending, and the count stays. Within a block it is one `F0` for each full
    /// sixteen zeros, which leave the count.
    pub fn flush(&mut self, is_end_of_block: bool) -> (r: BitString)
        requires
            old(self).huffman_table.wf(),
            old(self).zero_run_length + 48 <= max_bits(),
            is_end_of_block && old(self).zero_run_length != 0 ==> old(self).huffman_table.has(0u8),
            !is_end_of_block && old(self).zero_run_length >= 16 ==> old(self).huffman_table.has(
                0xF0u8,
            ),
        ensures
            final(self).huffman_table == old(self).huffman_table,
            is_end_of_block ==> final(self).zero_run_length == old(self).zero_run_length && r@ == (
            if old(self).zero_run_length != 0 {
                old(self).huffman_table.code_map()[0u8]
            } else {
                Seq::<bool>::empty()
            }),
            !is_end_of_block ==> final(self).zero_run_length == old(self).zero_run_length % 16
                && r@ == zrl_bits(
                old(self).huffman_table.code_map(),
                (old(self).zero_run_length / 16) as nat,
            ),
            r@.len() <= old(self).zero_run_length + 16,
    {
        if is_end_of_block {
            if self.zero_run_length != 0 {
                proof {
                    self.huffman_table.lemma_code_length(0u8);
                    assert(category(0) == 0);
                    assert(pack_nibbles(0u8, 0u8) == 0u8) by (bit_vector);
                    assert(value_bits(0) =~= Seq::<bool>::empty());
                    assert(coded_bits(self.huffman_table.code_map(), 0, None)
                        =~= self.huffman_table.code_map()[0u8]);
                }
                entropy_encode_category(self.huffman_table, 0, None)
            } else {
                BitString::new()
            }
        } else {
            let mut ret = BitString::new();
            let ghost start = self.zero_run_length;
            let ghost codes = self.huffman_table.code_map();
            let mut emitted: usize = 0;
            while self.zero_run_length >= 16
                invariant
                    self.huffman_table == old(self).huffman_table,
                    self.huffman_table.wf(),
                    codes == self.huffman_table.code_map(),
                    start == old(self).zero_run_length,
                    start + 48 <= max_bits(),
                    start >= 16 ==> self.huffman_table.has(0xF0u8),
                    self.zero_run_length + 16 * emitted == start,
                    ret@ == zrl_bits(codes, emitted as nat),
                    ret@.len() <= 16 * emitted,
                decreases self.zero_run_length,
            {
                proof {
                    self.huffman_table.lemma_code_length(0xF0u8);
                    assert(category(0) == 0);
                    assert(pack_nibbles(15u8, 0u8) == 0xF0u8) by (bit_vector);
                    assert(value_bits(0) =~= Seq::<bool>::empty());
                    assert(coded_bits(codes, 0, Some(15u8)) =~= codes[0xF0u8]);
                }
                let mut f0 = entropy_encode_category(self.huffman_table, 0, Some(15));
                ret.append(&mut f0);
                self.zero_run_length -= 16;
                emitted += 1;
            }
            ret
        }
    }
}

/// The number of zeros at the end of `ac`.
pub open spec fn trailing_zeros(ac: Seq<i16>) -> nat
    decreases ac.len(),
{
    if ac.len() == 0 || ac.last() != 0 {
        0
    } else {
        1 + trailing_zeros(ac.drop_last())
    }
}

/// The bits that the AC coefficients `ac` have given before the end of the
/// block: each coefficient that is not zero goes out with the zeros before it.
pub open spec fn ac_prefix_bits(codes: Map<u8, Seq<bool>>, ac: Seq<i16>) -> Seq<bool>
    decreases ac.len(),
{
    if ac.len() == 0 {
        Seq::empty()
    } else if ac.last() == 0 {
        ac_prefix_bits(codes, ac.drop_last())
    } else {
        ac_prefix_bits(codes, ac.drop_last()) + ac_coded_bits(
            codes,
            ac.last() as int,
            trailing_zeros(ac.drop_last()),
        )
    }
}

/// The bits of the AC coefficients of a block: zeros at the end of the block
/// are replaced by the end-of-block symbol `00`.
pub open spec fn ac_block_bits(codes: Map<u8, Seq<bool>>, ac: Seq<i16>) -> Seq<bool> {
    ac_prefix_bits(codes, ac) + if trailing_zeros(ac) > 0 {
        codes[0u8]
    } else {
        Seq::empty()
    }
}

/// The bits of a block: its DC coefficient as a difference from `pred`, then
/// its 63 AC coefficients.
pub open spec fn du_bits(
    dc_codes: Map<u8, Seq<bool>>,
    ac_codes: Map<u8, Seq<bool>>,
    pred: int,
    du: Seq<i16>,
) -> Seq<bool> {
    coded_bits(dc_codes, dc_difference(pred, du[0] as int), None) + ac_block_bits(
        ac_codes,
        du.skip(1),
    )
}

/// Every coefficient of the block is between `-bound` and `bound`.
pub open spec fn coefficients_within(du: Seq<i16>, bound: int) -> bool {
    forall|i: int| 0 <= i < du.len() ==> -bound <= #[trigger] du[i] <= bound
}

/// A magnitude below `2^n` has a category of at most `n`.
pub proof fn lemma_category_le(v: int, n: nat)
    requires
        magnitude(v) < vstd::arithmetic::power2::pow2(n),
    ensures
        category(v) <= n,
{
    let m = magnitude(v);
    lemma_bit_length_bounds(m);
    if m > 0 && bit_length(m) > n {
        if bit_length(m) - 1 > n {
            vstd::arithmetic::power2::lemma_pow2_strictly_increases(n, (bit_length(m) - 1) as nat);
        }
    }
}

/// The symbol of a coefficient without a run is its category.
pub proof fn lemma_dc_symbol(v: int)
    requires
        category(v) <= 15,
    ensures
        entropy_symbol(v, None) == category(v),
{
    let c = category(v) as u8;
    assert(pack_nibbles(0u8, c) == c) by (bit_vector);
}

/// The symbol of a coefficient of one to ten bits after a run below sixteen is
/// one that AC coding may need.
pub proof fn lemma_ac_symbol(v: int, run: u8)
    requires
        1 <= category(v) <= 10,
    ensures
        is_ac_symbol(entropy_symbol(v, Some(run))),
{
    let c = category(v) as u8;
    assert(c < 16 ==> pack_nibbles(run, c) % 16 == c) by (bit_vector);
}

/// The most bits that one block can take in the scan.
pub const DU_MAX_BITS: usize = 8192;

/// Codes one block: its DC coefficient with `dc_encoder`, which remembers it,
/// and its AC coefficients with the codewords of `ac_huffman_table`.
pub fn encode_du(
    du: &ZigzagDu,
    dc_encoder: &mut DcEncoder,
    ac_huffman_table: &CachedHuffmanTable,
) -> (r: BitString)
    requires
        old(dc_encoder).huffman_table.wf(),
        old(dc_encoder).huffman_table.covers_dc(),
        ac_huffman_table.wf(),
        ac_huffman_table.covers_ac(),
        coefficients_within(du.0@, 1023),
        -1023 <= old(dc_encoder).pred <= 1023,
    ensures
        r@ == du_bits(
            old(dc_encoder).huffman_table.code_map(),
            ac_huffman_table.code_map(),
            old(dc_encoder).pred as int,
            du.0@,
        ),
        r@.len() <= DU_MAX_BITS,
        final(dc_encoder).pred == du.0@[0],
        final(dc_encoder).huffman_table == old(dc_encoder).huffman_table,
{
    let ghost dc_codes = dc_encoder.huffman_table.code_map();
    let ghost ac_codes = ac_huffman_table.code_map();
    let ghost pred = dc_encoder.pred as int;
    let ghost ac = du.0@.skip(1);
    let mut ret = BitString::new();
    let mut ac_encoder = AcEncoder::new(ac_huffman_table);
    proof {
        vstd::arithmetic::power2::lemma2_to64();
        lemma_category_le(du.0@[0] - pred, 11);
        lemma_dc_symbol(du.0@[0] - pred);
    }
    let mut dc_bits = dc_encoder.next(du.0[0]);
    ret.append(&mut dc_bits);
    let ghost head = ret@;
    let mut i: usize = 1;
    assert(ac.take(0) =~= Seq::<i16>::empty());
    while i < 64
        invariant
            1 <= i <= 64,
            ac == du.0@.skip(1),
            ac_codes == ac_huffman_table.code_map(),
            ac_encoder.huffman_table == ac_huffman_table,
            ac_huffman_table.wf(),
            ac_huffman_table.covers_ac(),
            coefficients_within(du.0@, 1023),
            head.len() <= 32,
            ret@ == head + ac_prefix_bits(ac_codes, ac.take(i - 1)),
            ret@.len() <= 32 + (i - 1) * 112,
            ac_encoder.zero_run_length == trailing_zeros(ac.take(i - 1)),
            ac_encoder.zero_run_length <= i - 1,
        decreases 64 - i,
    {
        let value = du.0[i];
        let ghost run = ac_encoder.zero_run_length;
        proof {
            assert(ac.take(i as int).drop_last() =~= ac.take(i - 1));
            assert(ac.take(i as int).last() == value);
            vstd::arithmetic::power2::lemma2_to64();
            if value != 0 {
                lemma_category_le(value as int, 10);
                lemma_ac_symbol(value as int, (run % 16) as u8);
                assert(is_ac_symbol(0xF0u8));
            }
        }
        let mut bits = ac_encoder.next(value);
        ret.append(&mut bits);
        i += 1;
    }
    proof {
        assert(ac.take(63) =~= ac);
        assert(is_ac_symbol(0u8));
    }
    let mut end = ac_encoder.flush(true);
    ret.append(&mut end);
    ret
}

/// The codewords of the four tables that a scan is coded with.
pub struct ScanCodes {
    pub luminance_dc: Map<u8, Seq<bool>>,
    pub luminance_ac: Map<u8, Seq<bool>>,
    pub chroma_dc: Map<u8, Seq<bool>>,
    pub chroma_ac: Map<u8, Seq<bool>>,
}

/// The DC coefficients that the three components were coded with last, after
/// the MCUs `mcus`: those of the last MCU, or 0 at the start of the scan.
pub open spec fn predictors(mcus: Seq<ZigzagMcu>) -> (int, int, int) {
    if mcus.len() == 0 {
        (0, 0, 0)
    } else {
        (mcus.last().y1.0@[0] as int, mcus.last().cb.0@[0] as int, mcus.last().cr.0@[0] as int)
    }
}

/// The bits of one MCU: its two luminance blocks, then its two chrominance
/// blocks, the DC coefficient of each taken from the last one of its component.
pub open spec fn mcu_bits(codes: ScanCodes, pred: (int, int, int), mcu: ZigzagMcu) -> Seq<bool> {
    du_bits(codes.luminance_dc, codes.luminance_ac, pred.0, mcu.y0.0@) + du_bits(
        codes.luminance_dc,
        codes.luminance_ac,
        mcu.y0.0@[0] as int,
        mcu.y1.0@,
    ) + du_bits(codes.chroma_dc, codes.chroma_ac, pred.1, mcu.cb.0@) + du_bits(
        codes.chroma_dc,
        codes.chroma_ac,
        pred.2,
        mcu.cr.0@,
    )
}

/// The bits of a scan: those of its MCUs, one after the other.
pub open spec fn scan_bits(codes: ScanCodes, mcus: Seq<ZigzagMcu>) -> Seq<bool>
    decreases mcus.len(),
{
    if mcus.len() == 0 {
        Seq::empty()
    } else {
        scan_bits(codes, mcus.drop_last()) + mcu_bits(
            codes,
            predictors(mcus.drop_last()),
            mcus.last(),
        )
    }
}

/// The codewords of the four default tables.
pub open spec fn default_scan_codes() -> ScanCodes {
    ScanCodes {
        luminance_dc: table_codes(DEFAULT_LUMINANCE_DC_CODES@, DEFAULT_LUMINANCE_DC_VALUES@),
        luminance_ac: table_codes(DEFAULT_LUMINANCE_AC_CODES@, DEFAULT_LUMINANCE_AC_VALUES@),
        chroma_dc: table_codes(DEFAULT_CHROMA_DC_CODES@, DEFAULT_CHROMA_DC_VALUES@),
        chroma_ac: table_codes(DEFAULT_CHROMA_AC_CODES@, DEFAULT_CHROMA_AC_VALUES@),
    }
}

/// Every coefficient of every block of the MCU is between `-bound` and `bound`.
pub open spec fn mcu_within(mcu: ZigzagMcu, bound: int) -> bool {
    &&& coefficients_within(mcu.y0.0@, bound)
    &&& coefficients_within(mcu.y1.0@, bound)
    &&& coefficients_within(mcu.cb.0@, bound)
    &&& coefficients_within(mcu.cr.0@, bound)
}

/// What the entropy coder hands to the file writer: the scan, and the size of
/// the image. The sampling and the tables are the fixed ones of the encoder.
#[derive(Debug)]
pub struct JpegOutputData {
    pub original_width: usize,
    pub original_height: usize,
    /// The entropy-coded scan.
    pub scan: BitString,
}

/// Codes all MCUs with the four default tables.
///
/// The coefficients must be such as quantizing 8-bit samples gives, of at most
/// ten bits, and the scan must fit a bit string of this machine.
pub fn encode_step6(zigzag_mcu_collection: &ZigzagMcuCollection) -> (r: Result<
    JpegOutputData,
    EncodeError,
>)
    requires
        forall|i: int|
            0 <= i < zigzag_mcu_collection.zigzag_mcus@.len() ==> mcu_within(
                #[trigger] zigzag_mcu_collection.zigzag_mcus@[i],
                1023,
            ),
        zigzag_mcu_collection.zigzag_mcus@.len() * 32768 <= max_bits(),
    ensures
        r is Ok,
        r->Ok_0.original_width == zigzag_mcu_collection.original_width,
        r->Ok_0.original_height == zigzag_mcu_collection.original_height,
        r->Ok_0.scan@ == scan_bits(default_scan_codes(), zigzag_mcu_collection.zigzag_mcus@),
{
    let mut scan = BitString::new();
    let mcus = &zigzag_mcu_collection.zigzag_mcus;
    let luminance_dc_huffman_table = default_luminance_dc_huffman_table().to_cached();
    let chroma_dc_huffman_table = default_chroma_dc_huffman_table().to_cached();
    let luminance_ac_huffman_table = default_luminance_ac_huffman_table().to_cached();
    let chroma_ac_huffman_table = default_chroma_ac_huffman_table().to_cached();
    let ghost codes = default_scan_codes();
    proof {
        lemma_default_tables_cover(
            luminance_dc_huffman_table,
            luminance_ac_huffman_table,
            chroma_dc_huffman_table,
            chroma_ac_huffman_table,
        );
    }
    let mut dc_encoder_y = DcEncoder::new(&luminance_dc_huffman_table);
    let mut dc_encoder_u = DcEncoder::new(&chroma_dc_huffman_table);
    let mut dc_encoder_v = DcEncoder::new(&chroma_dc_huffman_table);
    let n = mcus.len();
    let mut i: usize = 0;
    while i < n
        invariant
            i <= n,
            n == mcus@.len(),
            mcus@ == zigzag_mcu_collection.zigzag_mcus@,
            n * 32768 <= max_bits(),
            forall|k: int| 0 <= k < n ==> mcu_within(#[trigger] mcus@[k], 1023),
            codes == default_scan_codes(),
            dc_encoder_y.huffman_table == &luminance_dc_huffman_table,
            dc_encoder_u.huffman_table == &chroma_dc_huffman_table,
            dc_encoder_v.huffman_table == &chroma_dc_huffman_table,
            luminance_dc_huffman_table.wf(),
            luminance_dc_huffman_table.covers_dc(),
            luminance_dc_huffman_table.code_map() == codes.luminance_dc,
            chroma_dc_huffman_table.wf(),
            chroma_dc_huffman_table.covers_dc(),
            chroma_dc_huffman_table.code_map() == codes.chroma_dc,
            luminance_ac_huffman_table.wf(),
            luminance_ac_huffman_table.covers_ac(),
            luminance_ac_huffman_table.code_map() == codes.luminance_ac,
            chroma_ac_huffman_table.wf(),
            chroma_ac_huffman_table.covers_ac(),
            chroma_ac_huffman_table.code_map() == codes.chroma_ac,
            scan@ == scan_bits(codes, mcus@.take(i as int)),
            scan@.len() <= i * 32768,
            (dc_encoder_y.pred as int, dc_encoder_u.pred as int, dc_encoder_v.pred as int)
                == predictors(mcus@.take(i as int)),
            -1023 <= dc_encoder_y.pred <= 1023,
            -1023 <= dc_encoder_u.pred <= 1023,
            -1023 <= dc_encoder_v.pred <= 1023,
        decreases n - i,
    {
        let mcu = &mcus[i];
        proof {
            assert(mcus@.take(i + 1).drop_last() =~= mcus@.take(i as int));
            assert(mcus@.take(i + 1).last() == mcus@[i as int]);
            assert(mcu_within(mcus@[i as int], 1023));
        }
        let mut y0 = encode_du(&mcu.y0, &mut dc_encoder_y, &luminance_ac_huffman_table);
        scan.append(&mut y0);
        let mut y1 = encode_du(&mcu.y1, &mut dc_encoder_y, &luminance_ac_huffman_table);
        scan.append(&mut y1);
        let mut cb = encode_du(&mcu.cb, &mut dc_encoder_u, &chroma_ac_huffman_table);
        scan.append(&mut cb);
        let mut cr = encode_du(&mcu.cr, &mut dc_encoder_v, &chroma_ac_huffman_table);
        scan.append(&mut cr);
        proof {
            assert(scan@ =~= scan_bits(codes, mcus@.take(i + 1)));
        }
        i += 1;
    }
    proof {
        assert(mcus@.take(n as int) =~= mcus@);
    }
    Ok(
        JpegOutputData {
            original_width: zigzag_mcu_collection.original_width,
            original_height: zigzag_mcu_collection.original_height,
            scan,
        },
    )
}

/// Every symbol among the first `n` has a codeword.
pub proof fn lemma_symbol_codes_dom(values: Seq<u8>, words: Seq<Codeword>, n: nat, k: int)
    requires
        0 <= k < n <= values.len(),
    ensures
        symbol_codes(values, words, n).dom().contains(values[k]),
    decreases n,
{
    if k < n - 1 {
        lemma_symbol_codes_dom(values, words, (n - 1) as nat, k);
    }
}

/// The ready forms of the four default tables have the codewords that the
/// coding of a scan needs.
pub proof fn lemma_default_tables_cover(
    luminance_dc: CachedHuffmanTable,
    luminance_ac: CachedHuffmanTable,
    chroma_dc: CachedHuffmanTable,
    chroma_ac: CachedHuffmanTable,
)
    requires
        luminance_dc.wf(),
        luminance_dc.1.codes@ == DEFAULT_LUMINANCE_DC_CODES@,
        luminance_dc.1.values@ == DEFAULT_LUMINANCE_DC_VALUES@,
        luminance_ac.wf(),
        luminance_ac.1.codes@ == DEFAULT_LUMINANCE_AC_CODES@,
        luminance_ac.1.values@ == DEFAULT_LUMINANCE_AC_VALUES@,
        chroma_dc.wf(),
        chroma_dc.1.codes@ == DEFAULT_CHROMA_DC_CODES@,
        chroma_dc.1.values@ == DEFAULT_CHROMA_DC_VALUES@,
        chroma_ac.wf(),
        chroma_ac.1.codes@ == DEFAULT_CHROMA_AC_CODES@,
        chroma_ac.1.values@ == DEFAULT_CHROMA_AC_VALUES@,
    ensures
        luminance_dc.covers_dc(),
        chroma_dc.covers_dc(),
        luminance_ac.covers_ac(),
        chroma_ac.covers_ac(),
        luminance_dc.code_map() == default_scan_codes().luminance_dc,
        luminance_ac.code_map() == default_scan_codes().luminance_ac,
        chroma_dc.code_map() == default_scan_codes().chroma_dc,
        chroma_ac.code_map() == default_scan_codes().chroma_ac,
{
    assert forall|c: u8| c <= 11 implies luminance_dc.has(c) by {
        assert(DEFAULT_LUMINANCE_DC_VALUES@[c as int] == c);
        lemma_symbol_codes_dom(
            luminance_dc.1.values@,
            canonical_codewords(luminance_dc.1.codes@),
            12,
            c as int,
        );
    }
    assert forall|c: u8| c <= 11 implies chroma_dc.has(c) by {
        assert(DEFAULT_CHROMA_DC_VALUES@[c as int] == c);
        lemma_symbol_codes_dom(
            chroma_dc.1.values@,
            canonical_codewords(chroma_dc.1.codes@),
            12,
            c as int,
        );
    }
    assert forall|s: u8| is_ac_symbol(s) implies luminance_ac.has(s) by {
        lemma_luminance_ac_complete(s);
        let k = choose|k: int| 0 <= k < 162 && DEFAULT_LUMINANCE_AC_VALUES@[k] == s;
        lemma_symbol_codes_dom(
            luminance_ac.1.values@,
            canonical_codewords(luminance_ac.1.codes@),
            162,
            k,
        );
    }
    assert forall|s: u8| is_ac_symbol(s) implies chroma_ac.has(s) by {
        lemma_chroma_ac_complete(s);
        let k = choose|k: int| 0 <= k < 162 && DEFAULT_CHROMA_AC_VALUES@[k] == s;
        lemma_symbol_codes_dom(
            chroma_ac.1.values@,
            canonical_codewords(chroma_ac.1.codes@),
            162,
            k,
        );
    }
}

} // verus!
