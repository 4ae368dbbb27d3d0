//! Bit strings: the codewords of the Huffman tables and the entropy-coded scan.
//!
//! The bits live in a `bitvec` bit vector. Each method of this module that is
//! marked `external_body` makes one call into `bitvec`; its contract is taken on
//! trust from that crate's documentation and source.

use bitvec::field::BitField;
use bitvec::order::Lsb0;
use bitvec::order::Msb0;
use bitvec::vec::BitVec;
use bitvec::view::BitView;
use vstd::arithmetic::div_mod::lemma_basic_div;
use vstd::arithmetic::div_mod::lemma_breakdown;
use vstd::arithmetic::div_mod::lemma_div_denominator;
use vstd::arithmetic::div_mod::lemma_small_mod;
use vstd::arithmetic::power2::lemma_pow2_unfold;
use vstd::arithmetic::power2::lemma_pow2_pos;
use vstd::arithmetic::power2::lemma_pow2_strictly_increases;
use vstd::arithmetic::power2::pow2;
use vstd::layout::unsigned_int_max_values;
use vstd::prelude::*;

verus! {

/// A growable string of bits, kept in a `bitvec::vec::BitVec<usize, Lsb0>`.
///
/// The bit vector is opaque to the verifier; [`bit_seq`] names what it holds.
#[verifier::external_body]
#[derive(Debug)]
pub struct BitString {
    inner: BitVec<usize, Lsb0>,
}

/// The bits that a bit string holds, first bit first.
pub uninterp spec fn bit_seq(b: BitString) -> Seq<bool>;

impl View for BitString {
    type V = Seq<bool>;

    open spec fn view(&self) -> Seq<bool> {
        bit_seq(*self)
    }
}

/// The largest number of bits that a bit string can hold on this machine.
pub open spec fn max_bits() -> nat {
    (usize::MAX / 8) as nat
}

/// Bit `i` of `v`, bit 0 being the least significant.
pub open spec fn bit_of(v: nat, i: nat) -> bool {
    (v / pow2(i)) % 2 == 1
}

/// The `n` low bits of `v`, least significant first.
pub open spec fn lsb0_bits(v: nat, n: nat) -> Seq<bool> {
    Seq::new(n, |i: int| bit_of(v, i as nat))
}

/// The `n` low bits of `v`, most significant first.
pub open spec fn msb0_bits(v: nat, n: nat) -> Seq<bool> {
    Seq::new(n, |i: int| bit_of(v, (n - 1 - i) as nat))
}

/// The number that a string of bits spells, least significant bit first.
pub open spec fn lsb0_value(s: Seq<bool>) -> nat
    decreases s.len(),
{
    if s.len() == 0 {
        0
    } else {
        (if s[0] { 1nat } else { 0nat }) + 2 * lsb0_value(s.skip(1))
    }
}

/// The number that a string of bits spells, most significant bit first.
pub open spec fn msb0_value(s: Seq<bool>) -> nat
    decreases s.len(),
{
    if s.len() == 0 {
        0
    } else {
        2 * msb0_value(s.drop_last()) + (if s.last() { 1nat } else { 0nat })
    }
}

/// What `resize` leaves of `s`: its first `n` bits, or `s` padded with `fill`.
pub open spec fn resized(s: Seq<bool>, n: nat, fill: bool) -> Seq<bool> {
    if n <= s.len() {
        s.take(n as int)
    } else {
        s + Seq::new((n - s.len()) as nat, |i: int| fill)
    }
}

impl BitString {
    /// `BitVec::new`: a bit vector without bits.
    #[verifier::external_body]
    pub(crate) fn new() -> (r: BitString)
        ensures
            bit_seq(r) == Seq::<bool>::empty(),
    {
        BitString { inner: BitVec::new() }
    }

    /// `BitVec::len`: the number of bits held, which `bitvec` never lets exceed
    /// its `MAX_BITS` (`usize::MAX >> 3`).
    #[verifier::external_body]
    pub(crate) fn len(&self) -> (r: usize)
        ensures
            r == bit_seq(*self).len(),
            r <= max_bits(),
    {
        self.inner.len()
    }

    /// Indexing a `BitVec`: the bit at position `i`. The index must be in range,
    /// as `bitvec` panics otherwise.
    #[verifier::external_body]
    pub(crate) fn get(&self, i: usize) -> (r: bool)
        requires
            i < bit_seq(*self).len(),
        ensures
            r == bit_seq(*self)[i as int],
    {
        self.inner[i]
    }

    /// `BitVec::push`: appends one bit. `bitvec` panics when the new length
    /// would pass `MAX_BITS`, so the caller keeps below it.
    #[verifier::external_body]
    pub(crate) fn push(&mut self, bit: bool)
        requires
            bit_seq(*old(self)).len() < max_bits(),
        ensures
            bit_seq(*final(self)) == bit_seq(*old(self)).push(bit),
    {
        self.inner.push(bit)
    }

    /// `BitVec::append`: moves the bits of `other` to the end of `self` and
    /// leaves `other` empty. The joint length must stay within `MAX_BITS`.
    #[verifier::external_body]
    pub(crate) fn append(&mut self, other: &mut BitString)
        requires
            bit_seq(*old(self)).len() + bit_seq(*old(other)).len() <= max_bits(),
        ensures
            bit_seq(*final(self)) == bit_seq(*old(self)) + bit_seq(*old(other)),
            bit_seq(*final(other)) == Seq::<bool>::empty(),
    {
        self.inner.append(&mut other.inner)
    }

    /// `BitVec::resize`: truncates to `new_len` bits, or pads with `value` up to
    /// `new_len` bits. The new length must stay within `MAX_BITS`.
    #[verifier::external_body]
    pub(crate) fn resize(&mut self, new_len: usize, value: bool)
        requires
            new_len <= max_bits(),
        ensures
            bit_seq(*final(self)) == resized(bit_seq(*old(self)), new_len as nat, value),
    {
        self.inner.resize(new_len, value)
    }

    /// `BitSlice::reverse`: reverses the order of the bits in place.
    #[verifier::external_body]
    pub(crate) fn reverse(&mut self)
        ensures
            bit_seq(*final(self)) == bit_seq(*old(self)).reverse(),
    {
        self.inner.reverse()
    }

    /// `BitView::view_bits::<Lsb0>` on a `usize`, copied into a bit vector: all
    /// the bits of `v`, the least significant first.
    #[verifier::external_body]
    pub(crate) fn from_usize(v: usize) -> (r: BitString)
        ensures
            bit_seq(r) == lsb0_bits(v as nat, usize::BITS as nat),
    {
        BitString { inner: v.view_bits::<Lsb0>().to_bitvec() }
    }

    /// `BitField::load_le::<u16>` on `Lsb0` bits: the number that the bits spell,
    /// the first bit being the least significant. `bitvec` panics on an empty
    /// string and on one longer than 16 bits.
    #[verifier::external_body]
    pub(crate) fn load_u16(&self) -> (r: u16)
        requires
            1 <= bit_seq(*self).len() <= 16,
        ensures
            r == lsb0_value(bit_seq(*self)),
    {
        self.inner.load_le::<u16>()
    }

    /// `Clone::clone` of the bit vector: a bit string with the same bits.
    #[verifier::external_body]
    pub(crate) fn duplicate(&self) -> (r: BitString)
        ensures
            bit_seq(r) == bit_seq(*self),
    {
        BitString { inner: self.inner.clone() }
    }
}

/// A number has no set bit at or above a place whose weight exceeds it.
pub proof fn lemma_high_bits_clear(v: nat, n: nat, i: nat)
    requires
        v < pow2(n),
        n <= i,
    ensures
        !bit_of(v, i),
{
    if n < i {
        lemma_pow2_strictly_increases(n, i);
    }
    lemma_basic_div(v as int, pow2(i) as int);
}

/// Bit `i` of half a number is bit `i + 1` of the number.
pub proof fn lemma_bit_of_half(v: nat, i: nat)
    ensures
        bit_of(v / 2, i) == bit_of(v, i + 1),
{
    lemma_pow2_pos(i);
    lemma_pow2_unfold(i + 1);
    lemma_div_denominator(v as int, 2, pow2(i) as int);
}

/// The `n` low bits of a number spell the number modulo `2^n`.
pub proof fn lemma_msb0_value_of_bits(v: nat, n: nat)
    ensures
        msb0_value(msb0_bits(v, n)) == v % pow2(n),
    decreases n,
{
    vstd::arithmetic::power2::lemma2_to64();
    if n > 0 {
        let s = msb0_bits(v, n);
        assert(s.drop_last() =~= msb0_bits(v / 2, (n - 1) as nat)) by {
            assert forall|i: int| 0 <= i < n - 1 implies s[i] == bit_of(
                v / 2,
                (n - 1 - 1 - i) as nat,
            ) by {
                lemma_bit_of_half(v, (n - 1 - 1 - i) as nat);
            }
        }
        lemma_msb0_value_of_bits(v / 2, (n - 1) as nat);
        lemma_pow2_pos((n - 1) as nat);
        lemma_pow2_unfold(n);
        lemma_breakdown(v as int, 2, pow2((n - 1) as nat) as int);
        assert(s.last() == bit_of(v, 0));
        assert(v / pow2(0) == v);
    }
}

/// Bits that spell a number below `2^n` spell that number.
pub proof fn lemma_msb0_round_trip(v: nat, n: nat)
    requires
        v < pow2(n),
    ensures
        msb0_value(msb0_bits(v, n)) == v,
{
    lemma_msb0_value_of_bits(v, n);
    lemma_small_mod(v, pow2(n));
}

/// A string of `n` bits spells a number below `2^n`.
pub proof fn lemma_msb0_value_bound(s: Seq<bool>)
    ensures
        msb0_value(s) < pow2(s.len()),
    decreases s.len(),
{
    vstd::arithmetic::power2::lemma2_to64();
    if s.len() > 0 {
        lemma_msb0_value_bound(s.drop_last());
        lemma_pow2_unfold(s.len());
    }
}

/// Read from its far end, a string of bits spells the same number.
pub proof fn lemma_lsb0_value_reverse(s: Seq<bool>)
    ensures
        lsb0_value(s.reverse()) == msb0_value(s),
    decreases s.len(),
{
    if s.len() > 0 {
        let r = s.reverse();
        assert(r[0] == s.last());
        assert(r.skip(1) =~= s.drop_last().reverse());
        lemma_lsb0_value_reverse(s.drop_last());
    }
}

impl BitString {
    /// The `n` low bits of `v`, the most significant first: the way in which
    /// codewords and coefficient bits go into the scan.
    pub fn from_value(v: usize, n: usize) -> (r: BitString)
        requires
            n <= max_bits(),
        ensures
            r@ == msb0_bits(v as nat, n as nat),
    {
        let mut bits = BitString::from_usize(v);
        bits.resize(n, false);
        let ghost low = bits@;
        bits.reverse();
        proof {
            unsigned_int_max_values();
            assert(low =~= lsb0_bits(v as nat, n as nat)) by {
                assert forall|i: int| 0 <= i < n implies low[i] == bit_of(v as nat, i as nat) by {
                    if i >= usize::BITS {
                        lemma_high_bits_clear(v as nat, usize::BITS as nat, i as nat);
                    }
                }
            }
            assert(bits@ =~= msb0_bits(v as nat, n as nat));
        }
        bits
    }

    /// The bit string that holds the given bits.
    pub fn from_bools(bools: &[bool]) -> (r: BitString)
        requires
            bools@.len() <= max_bits(),
        ensures
            r@ == bools@,
    {
        let mut bits = BitString::new();
        let mut i: usize = 0;
        while i < bools.len()
            invariant
                i <= bools@.len() <= max_bits(),
                bits@ == bools@.take(i as int),
            decreases bools@.len() - i,
        {
            bits.push(bools[i]);
            assert(bits@ =~= bools@.take(i + 1));
            i += 1;
        }
        assert(bools@.take(bools@.len() as int) =~= bools@);
        bits
    }

    /// The bits of the string, one `bool` each.
    pub fn to_bools(&self) -> (r: Vec<bool>)
        ensures
            r@ == self@,
    {
        let mut out: Vec<bool> = Vec::new();
        let n = self.len();
        let mut i: usize = 0;
        while i < n
            invariant
                i <= n,
                n == self@.len(),
                out@ == self@.take(i as int),
            decreases n - i,
        {
            out.push(self.get(i));
            assert(out@ =~= self@.take(i + 1));
            i += 1;
        }
        assert(self@.take(n as int) =~= self@);
        out
    }
}

/// `BitSlice::first_one` on the `Msb0` view of a `u16`: the distance of the
/// highest set bit from the top, or `None` for zero. So `Some(p)` says that
/// `v` has exactly `16 - p` significant bits.
#[verifier::external_body]
pub(crate) fn leading_one(v: u16) -> (r: Option<usize>)
    ensures
        match r {
            None => v == 0,
            Some(p) => p < 16 && pow2((15 - p) as nat) <= v < pow2((16 - p) as nat),
        },
{
    v.view_bits::<Msb0>().first_one()
}

} // verus!
