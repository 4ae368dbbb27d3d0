//! Canonical codewords of valid counts: none is the start of another.

use crate::bits::lemma_bit_of_half;
use crate::bits::lemma_msb0_round_trip;
use crate::bits::msb0_bits;
use crate::huffman::canonical_codewords;
use crate::huffman::codewords_upto;
use crate::huffman::count_upto;
use crate::huffman::next_code;
use vstd::arithmetic::power2::lemma2_to64;
use vstd::arithmetic::power2::lemma_pow2_adds;
use vstd::arithmetic::power2::lemma_pow2_pos;
use vstd::arithmetic::power2::lemma_pow2_unfold;
use vstd::arithmetic::power2::pow2;
use vstd::prelude::*;

verus! {

/// The share of the code space that the codewords of at most `l` bits take,
/// in parts of `2^16`: a codeword of `n` bits takes `2^(16 - n)` parts.
pub open spec fn kraft_sum(codes: Seq<u8>, l: nat) -> nat
    decreases l,
{
    if l == 0 {
        0
    } else {
        kraft_sum(codes, (l - 1) as nat) + codes[l - 1] as nat * pow2((16 - l) as nat)
    }
}

/// The counts describe a code: the codewords take no more than the whole
/// code space.
pub open spec fn counts_valid(codes: Seq<u8>) -> bool {
    codes.len() == 16 && kraft_sum(codes, 16) <= 65536
}

/// `a` is the start of `b`.
pub open spec fn is_prefix(a: Seq<bool>, b: Seq<bool>) -> bool {
    a.len() <= b.len() && b.take(a.len() as int) == a
}

/// The running code, scaled to 16 bits, is twice the share taken so far.
pub proof fn lemma_next_code_kraft(codes: Seq<u8>, l: nat)
    requires
        l <= 16,
    ensures
        next_code(codes, l) * pow2((16 - l) as nat) == 2 * kraft_sum(codes, l),
    decreases l,
{
    if l > 0 {
        lemma_next_code_kraft(codes, (l - 1) as nat);
        let before = next_code(codes, (l - 1) as nat);
        let count = codes[l - 1] as nat;
        let p = pow2((16 - l) as nat);
        lemma_pow2_unfold((17 - l) as nat);
        let doubled = pow2((17 - l) as nat);
        assert(doubled == 2 * p);
        assert(before * doubled == 2 * kraft_sum(codes, (l - 1) as nat));
        let now = next_code(codes, l);
        assert(now == (before + count) * 2);
        assert(now * p == before * doubled + 2 * (count * p)) by (nonlinear_arith)
            requires
                now == (before + count) * 2,
                doubled == 2 * p,
        ;
        assert(kraft_sum(codes, l) == kraft_sum(codes, (l - 1) as nat) + count * p);
        assert(now * p == 2 * kraft_sum(codes, l));
    } else {
        assert(next_code(codes, 0) == 0);
        assert(kraft_sum(codes, 0) == 0);
        assert(0 * pow2(16) == 0);
    }
}

/// The share taken grows with the length.
pub proof fn lemma_kraft_monotone(codes: Seq<u8>, a: nat, b: nat)
    requires
        a <= b,
    ensures
        kraft_sum(codes, a) <= kraft_sum(codes, b),
    decreases b,
{
    if a < b {
        lemma_kraft_monotone(codes, a, (b - 1) as nat);
        lemma_pow2_pos((16 - b) as nat);
        assert(codes[b - 1] as nat * pow2((16 - b) as nat) >= 0) by (nonlinear_arith)
            requires
                codes[b - 1] as nat >= 0,
                pow2((16 - b) as nat) > 0,
        ;
    }
}

/// With valid counts the codewords of `m` bits end within `m` bits.
pub proof fn lemma_codes_fit(codes: Seq<u8>, m: nat)
    requires
        counts_valid(codes),
        1 <= m <= 16,
    ensures
        next_code(codes, (m - 1) as nat) + codes[m - 1] <= pow2(m),
{
    lemma_next_code_kraft(codes, m);
    lemma_kraft_monotone(codes, m, 16);
    lemma2_to64();
    lemma_pow2_adds(m, (16 - m) as nat);
    lemma_pow2_pos((16 - m) as nat);
    let end = next_code(codes, (m - 1) as nat) + codes[m - 1];
    let p = pow2((16 - m) as nat);
    assert(next_code(codes, m) == end * 2);
    assert(end <= pow2(m)) by (nonlinear_arith)
        requires
            (end * 2) * p <= 2 * 65536,
            pow2(m) * p == 65536,
            p > 0,
    ;
}

/// The first code of a length is at least the code behind the last codeword
/// of a shorter length, shifted up to the length.
pub proof fn lemma_first_code_grows(codes: Seq<u8>, a: nat, b: nat)
    requires
        1 <= a < b,
    ensures
        next_code(codes, (b - 1) as nat) >= (next_code(codes, (a - 1) as nat) + codes[a - 1])
            * pow2((b - a) as nat),
    decreases b,
{
    lemma2_to64();
    let end = next_code(codes, (a - 1) as nat) + codes[a - 1];
    if b == a + 1 {
        assert(next_code(codes, a) == end * 2);
    } else {
        lemma_first_code_grows(codes, a, (b - 1) as nat);
        lemma_pow2_unfold((b - a) as nat);
        let p = pow2((b - 1 - a) as nat);
        let before = next_code(codes, (b - 2) as nat);
        assert(next_code(codes, (b - 1) as nat) == (before + codes[b - 2]) * 2);
        assert((before + codes[b - 2]) * 2 >= end * (2 * p)) by (nonlinear_arith)
            requires
                before >= end * p,
                codes[b - 2] >= 0,
        ;
    }
}

/// Where codeword `k` stands: its length is the `m` with
/// `count_upto(m - 1) <= k < count_upto(m)`, and its value is as far from the
/// first code of that length as `k` is from the first codeword of that length.
pub proof fn lemma_codeword_at(codes: Seq<u8>, l: nat, k: int)
    requires
        0 <= k < codewords_upto(codes, l).len(),
    ensures
        1 <= codewords_upto(codes, l)[k].length <= l,
        count_upto(codes, (codewords_upto(codes, l)[k].length - 1) as nat) <= k < count_upto(
            codes,
            codewords_upto(codes, l)[k].length,
        ),
        codewords_upto(codes, l)[k].value == next_code(
            codes,
            (codewords_upto(codes, l)[k].length - 1) as nat,
        ) + k - count_upto(codes, (codewords_upto(codes, l)[k].length - 1) as nat),
    decreases l,
{
    if l > 0 {
        lemma_upto_len(codes, (l - 1) as nat);
        if k < codewords_upto(codes, (l - 1) as nat).len() {
            lemma_codeword_at(codes, (l - 1) as nat, k);
        }
    }
}

/// [`codewords_upto`] holds [`count_upto`] codewords.
pub proof fn lemma_upto_len(codes: Seq<u8>, l: nat)
    ensures
        codewords_upto(codes, l).len() == count_upto(codes, l),
    decreases l,
{
    if l > 0 {
        lemma_upto_len(codes, (l - 1) as nat);
    }
}

/// The first `a` of the `b` low bits of a number are the `a` low bits of the
/// number without its `b - a` lowest bits.
pub proof fn lemma_bits_take(v: nat, a: nat, b: nat)
    requires
        a <= b,
    ensures
        msb0_bits(v, b).take(a as int) == msb0_bits(v / pow2((b - a) as nat), a),
    decreases b - a,
{
    lemma2_to64();
    if a == b {
        assert(v / 1 == v);
        assert(msb0_bits(v, b).take(a as int) =~= msb0_bits(v, a));
    } else {
        lemma_bits_take(v / 2, a, (b - 1) as nat);
        lemma_pow2_unfold((b - a) as nat);
        lemma_pow2_pos((b - 1 - a) as nat);
        vstd::arithmetic::div_mod::lemma_div_denominator(
            v as int,
            2,
            pow2((b - 1 - a) as nat) as int,
        );
        assert forall|i: int| 0 <= i < a implies msb0_bits(v, b).take(a as int)[i] == msb0_bits(
            v / 2,
            (b - 1) as nat,
        ).take(a as int)[i] by {
            lemma_bit_of_half(v, (b - 1 - 1 - i) as nat);
        }
        assert(msb0_bits(v, b).take(a as int) =~= msb0_bits(v / 2, (b - 1) as nat).take(a as int));
    }
}

/// Two numbers below `2^n` with the same `n` bits are the same number.
pub proof fn lemma_bits_injective(v: nat, w: nat, n: nat)
    requires
        v < pow2(n),
        w < pow2(n),
        msb0_bits(v, n) == msb0_bits(w, n),
    ensures
        v == w,
{
    lemma_msb0_round_trip(v, n);
    lemma_msb0_round_trip(w, n);
}

/// With valid counts, no canonical codeword is the start of another.
pub proof fn lemma_canonical_prefix_free(codes: Seq<u8>, i: int, j: int)
    requires
        counts_valid(codes),
        0 <= i < canonical_codewords(codes).len(),
        0 <= j < canonical_codewords(codes).len(),
        i != j,
    ensures
        !is_prefix(canonical_codewords(codes)[i].bits(), canonical_codewords(codes)[j].bits()),
{
    let words = canonical_codewords(codes);
    let a = words[i].length;
    let b = words[j].length;
    let va = words[i].value;
    let vb = words[j].value;
    lemma_codeword_at(codes, 16, i);
    lemma_codeword_at(codes, 16, j);
    lemma_codes_fit(codes, a);
    lemma_codes_fit(codes, b);
    let end_a = next_code(codes, (a - 1) as nat) + codes[a - 1];
    assert(count_upto(codes, a) == count_upto(codes, (a - 1) as nat) + codes[a - 1]);
    assert(count_upto(codes, b) == count_upto(codes, (b - 1) as nat) + codes[b - 1]);
    assert(va < end_a);
    if a == b {
        if is_prefix(words[i].bits(), words[j].bits()) {
            assert(words[j].bits().take(a as int) =~= words[j].bits());
            lemma_bits_injective(va, vb, a);
        }
    } else if a < b {
        if is_prefix(words[i].bits(), words[j].bits()) {
            lemma_bits_take(vb, a, b);
            let p = pow2((b - a) as nat);
            lemma_pow2_pos((b - a) as nat);
            lemma_pow2_adds(a, (b - a) as nat);
            lemma_first_code_grows(codes, a, b);
            vstd::arithmetic::div_mod::lemma_fundamental_div_mod(vb as int, p as int);
            vstd::arithmetic::div_mod::lemma_mod_bound(vb as int, p as int);
            let top = vb / p;
            assert(top >= end_a) by (nonlinear_arith)
                requires
                    vb == p * top + vb % p,
                    vb % p < p,
                    vb >= end_a * p,
                    p > 0,
            ;
            assert(top < pow2(a)) by (nonlinear_arith)
                requires
                    vb == p * top + vb % p,
                    0 <= vb % p,
                    vb < pow2(a) * p,
                    p > 0,
            ;
            lemma_bits_injective(va, top, a);
        }
    }
}

/// Codewords of one length go up by one from each to the next.
pub proof fn lemma_canonical_ascending(codes: Seq<u8>, i: int, j: int)
    requires
        0 <= i < j < canonical_codewords(codes).len(),
        canonical_codewords(codes)[i].length == canonical_codewords(codes)[j].length,
    ensures
        canonical_codewords(codes)[j].value == canonical_codewords(codes)[i].value + (j - i),
        canonical_codewords(codes)[i].value < canonical_codewords(codes)[j].value,
{
    lemma_codeword_at(codes, 16, i);
    lemma_codeword_at(codes, 16, j);
}

} // verus!
