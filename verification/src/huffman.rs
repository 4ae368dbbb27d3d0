//! Canonical Huffman tables and the codewords that they stand for.

use crate::bits::msb0_bits;
use crate::bits::BitString;
use std::collections::HashMap;
use vstd::prelude::*;

verus! {

/// A Huffman table in the form in which a JPEG file carries it.
#[derive(Debug, Clone)]
pub struct JpegHuffmanTable {
    /// `codes[i]` is the number of codewords of `i + 1` bits.
    pub codes: [u8; 16],
    /// The symbols, in the order of their codewords.
    pub values: Vec<u8>,
}

/// A Huffman table made ready for use: the codeword of each symbol, for
/// encoding, and the table itself, whose counts and symbols in code order let a
/// decoder match a codeword by its length and value.
#[derive(Debug)]
pub struct CachedHuffmanTable(pub HashMap<u8, BitString>, pub JpegHuffmanTable);

/// A codeword: its number of bits and its value.
pub struct Codeword {
    pub length: nat,
    pub value: nat,
}

/// The code that the canonical rule has reached before it hands out the
/// codewords of `l + 1` bits: it starts at 0, moves on by one with each codeword
/// and doubles with each step to the next length.
pub open spec fn next_code(codes: Seq<u8>, l: nat) -> nat
    decreases l,
{
    if l == 0 {
        0
    } else {
        ((next_code(codes, (l - 1) as nat) + codes[l - 1]) * 2) as nat
    }
}

/// The codewords of at most `l` bits, in the order in which the canonical rule
/// hands them out.
pub open spec fn codewords_upto(codes: Seq<u8>, l: nat) -> Seq<Codeword>
    decreases l,
{
    if l == 0 {
        Seq::empty()
    } else {
        codewords_upto(codes, (l - 1) as nat) + Seq::new(
            codes[l - 1] as nat,
            |j: int|
                Codeword { length: l, value: (next_code(codes, (l - 1) as nat) + j) as nat },
        )
    }
}

/// All the codewords of a table with the given counts per length.
pub open spec fn canonical_codewords(codes: Seq<u8>) -> Seq<Codeword> {
    codewords_upto(codes, 16)
}

impl Codeword {
    /// The bits of the codeword, the most significant first.
    pub open spec fn bits(self) -> Seq<bool> {
        msb0_bits(self.value, self.length)
    }
}

/// The number of codewords of at most `l` bits.
pub open spec fn count_upto(codes: Seq<u8>, l: nat) -> nat
    decreases l,
{
    if l == 0 {
        0
    } else {
        count_upto(codes, (l - 1) as nat) + codes[l - 1] as nat
    }
}

/// [`codewords_upto`] holds [`count_upto`] codewords.
pub proof fn lemma_codewords_len(codes: Seq<u8>, l: nat)
    requires
        codes.len() == 16,
        l <= 16,
    ensures
        codewords_upto(codes, l).len() == count_upto(codes, l),
        count_upto(codes, l) <= 255 * l,
    decreases l,
{
    if l > 0 {
        lemma_codewords_len(codes, (l - 1) as nat);
    }
}

/// The running code stays small: below `510 * 2^l`.
pub proof fn lemma_next_code_bound(codes: Seq<u8>, l: nat)
    requires
        codes.len() == 16,
        l <= 16,
    ensures
        next_code(codes, l) + 510 <= 510 * vstd::arithmetic::power2::pow2(l),
    decreases l,
{
    vstd::arithmetic::power2::lemma2_to64();
    if l > 0 {
        lemma_next_code_bound(codes, (l - 1) as nat);
        vstd::arithmetic::power2::lemma_pow2_unfold(l);
    }
}

/// The codeword of each of the first `n` symbols. Where a symbol occurs more
/// than once, its last codeword stands.
pub open spec fn symbol_codes(values: Seq<u8>, words: Seq<Codeword>, n: nat) -> Map<u8, Seq<bool>>
    decreases n,
{
    if n == 0 {
        Map::empty()
    } else {
        symbol_codes(values, words, (n - 1) as nat).insert(values[n - 1], words[n - 1].bits())
    }
}

/// The codeword of each symbol of the table with the given counts and symbols.
pub open spec fn table_codes(codes: Seq<u8>, values: Seq<u8>) -> Map<u8, Seq<bool>> {
    symbol_codes(values, canonical_codewords(codes), values.len())
}

impl CachedHuffmanTable {
    /// The codeword of each symbol, as plain bits.
    pub open spec fn code_map(&self) -> Map<u8, Seq<bool>> {
        Map::new(|s: u8| self.0@.dom().contains(s), |s: u8| self.0@[s]@)
    }

    /// This is the ready form of `table`.
    pub open spec fn caches(&self, table: JpegHuffmanTable) -> bool {
        &&& self.1.codes@ == table.codes@
        &&& self.1.values@ == table.values@
        &&& self.code_map() == table_codes(table.codes@, table.values@)
    }
}

impl JpegHuffmanTable {
    /// A table without codewords.
    pub fn new() -> (r: Self)
        ensures
            r.codes@ == Seq::new(16, |i: int| 0u8),
            r.values@ == Seq::<u8>::empty(),
    {
        let r = Self { codes: [0;16], values: Vec::new() };
        assert(r.codes@ =~= Seq::new(16, |i: int| 0u8));
        r
    }

    /// The table has one symbol for each of its codewords.
    pub open spec fn wf(&self) -> bool {
        self.values@.len() == canonical_codewords(self.codes@).len()
    }

    /// The codewords of the table: `ret[i]` is the codeword of `values[i]`.
    pub fn generate_bits(&self) -> (ret: Vec<BitString>)
        ensures
            ret@.len() == canonical_codewords(self.codes@).len(),
            forall|k: int|
                0 <= k < ret@.len() ==> (#[trigger] ret@[k])@ == canonical_codewords(
                    self.codes@,
                )[k].bits(),
    {
        let mut ret: Vec<BitString> = Vec::new();
        let mut c: usize = 0;
        let mut i: usize = 0;
        while i < 16
            invariant
                i <= 16,
                self.codes@.len() == 16,
                c == next_code(self.codes@, i as nat),
                ret@.len() == codewords_upto(self.codes@, i as nat).len(),
                forall|k: int|
                    0 <= k < ret@.len() ==> (#[trigger] ret@[k])@ == codewords_upto(
                        self.codes@,
                        i as nat,
                    )[k].bits(),
            decreases 16 - i,
        {
            let length = i + 1;
            let count = self.codes[i];
            let ghost before = codewords_upto(self.codes@, i as nat);
            let ghost after = codewords_upto(self.codes@, (i + 1) as nat);
            let ghost first = c;
            proof {
                lemma_next_code_bound(self.codes@, i as nat);
                lemma_next_code_bound(self.codes@, (i + 1) as nat);
                vstd::arithmetic::power2::lemma2_to64();
                if i < 16 {
                    vstd::arithmetic::power2::lemma_pow2_strictly_increases(
                        (i + 1) as nat,
                        17,
                    );
                }
            }
            let mut j: u8 = 0;
            while j < count
                invariant
                    j <= count,
                    i < 16,
                    length == i + 1,
                    self.codes@.len() == 16,
                    count == self.codes@[i as int],
                    first == next_code(self.codes@, i as nat),
                    c == first + j,
                    (first + count) * 2 <= usize::MAX,
                    before == codewords_upto(self.codes@, i as nat),
                    after == codewords_upto(self.codes@, (i + 1) as nat),
                    ret@.len() == before.len() + j,
                    forall|k: int|
                        0 <= k < ret@.len() ==> (#[trigger] ret@[k])@ == after[k].bits(),
                decreases count - j,
            {
                let bits = BitString::from_value(c, length);
                ret.push(bits);
                c += 1;
                j += 1;
            }
            c *= 2;
            i += 1;
        }
        ret
    }

    /// The ready form of the table.
    pub fn to_cached(&self) -> (r: CachedHuffmanTable)
        requires
            self.wf(),
        ensures
            r.caches(*self),
    {
        broadcast use vstd::std_specs::hash::group_hash_axioms;

        let mut ret: HashMap<u8, BitString> = HashMap::new();
        let bits = self.generate_bits();
        let ghost words = canonical_codewords(self.codes@);
        let n = self.values.len();
        let mut i: usize = 0;
        while i < n
            invariant
                i <= n,
                n == self.values@.len(),
                n == bits@.len(),
                words == canonical_codewords(self.codes@),
                forall|k: int| 0 <= k < bits@.len() ==> (#[trigger] bits@[k])@ == words[k].bits(),
                Map::new(|s: u8| ret@.dom().contains(s), |s: u8| ret@[s]@) == symbol_codes(
                    self.values@,
                    words,
                    i as nat,
                ),
            decreases n - i,
        {
            let symbol = self.values[i];
            let word = bits[i].duplicate();
            let ghost before = ret@;
            ret.insert(symbol, word);
            proof {
                assert(Map::new(|s: u8| ret@.dom().contains(s), |s: u8| ret@[s]@)
                    =~= Map::new(|s: u8| before.dom().contains(s), |s: u8| before[s]@).insert(
                    symbol,
                    words[i as int].bits(),
                ));
            }
            i += 1;
        }
        let values = self.values.clone();
        CachedHuffmanTable(ret, JpegHuffmanTable { codes: self.codes, values })
    }
}

} // verus!
