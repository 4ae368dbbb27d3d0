//! The category of a coefficient and the bits that spell its value.

use crate::bits::bit_of;
use crate::bits::lemma_lsb0_value_reverse;
use crate::bits::lemma_msb0_round_trip;
use crate::bits::lemma_msb0_value_bound;
use crate::bits::msb0_value;
use crate::error::DecodeError;
use crate::bits::leading_one;
use crate::bits::msb0_bits;
use crate::bits::BitString;
use vstd::arithmetic::power2::lemma2_to64;
use vstd::arithmetic::power2::lemma_pow2_pos;
use vstd::arithmetic::power2::lemma_pow2_strictly_increases;
use vstd::arithmetic::power2::lemma_pow2_unfold;
use vstd::arithmetic::power2::pow2;
use vstd::prelude::*;

verus! {

/// The number of significant bits of `m`: 0 for 0, and `n` where
/// `2^(n-1) <= m < 2^n`.
pub open spec fn bit_length(m: nat) -> nat
    decreases m,
{
    if m == 0 {
        0
    } else {
        1 + bit_length(m / 2)
    }
}

/// The magnitude of a coefficient.
pub open spec fn magnitude(v: int) -> nat {
    if v < 0 {
        (-v) as nat
    } else {
        v as nat
    }
}

/// The category of a coefficient: the number of significant bits of its
/// magnitude.
pub open spec fn category(v: int) -> nat {
    bit_length(magnitude(v))
}

/// The bits that follow the category's codeword: for a positive coefficient the
/// low `category` bits of its magnitude, the most significant first; for a
/// negative one the same bits, each inverted. Zero has none.
pub open spec fn value_bits(v: int) -> Seq<bool> {
    Seq::new(
        category(v),
        |i: int|
            if v > 0 {
                bit_of(magnitude(v), (category(v) - 1 - i) as nat)
            } else {
                !bit_of(magnitude(v), (category(v) - 1 - i) as nat)
            },
    )
}

/// A number lies between the two powers of two that its bit length names.
pub proof fn lemma_bit_length_bounds(m: nat)
    ensures
        m < pow2(bit_length(m)),
        m > 0 ==> pow2((bit_length(m) - 1) as nat) <= m,
    decreases m,
{
    lemma2_to64();
    if m > 0 {
        lemma_bit_length_bounds(m / 2);
        lemma_pow2_unfold(bit_length(m));
        if m / 2 > 0 {
            lemma_pow2_unfold(bit_length(m / 2));
        }
    }
}

/// The bit length is the only `n` with `2^(n-1) <= m < 2^n`.
pub proof fn lemma_bit_length_unique(m: nat, n: nat)
    requires
        n > 0,
        pow2((n - 1) as nat) <= m < pow2(n),
    ensures
        bit_length(m) == n,
{
    lemma_bit_length_bounds(m);
    lemma_pow2_pos((n - 1) as nat);
    let k = bit_length(m);
    if k < n {
        if k < n - 1 {
            lemma_pow2_strictly_increases(k, (n - 1) as nat);
        }
    } else if k > n {
        if n < k - 1 {
            lemma_pow2_strictly_increases(n, (k - 1) as nat);
        }
    }
}

/// The category of a magnitude.
pub fn get_category(abs_value: u16) -> (r: u8)
    ensures
        r == bit_length(abs_value as nat),
        r <= 16,
{
    match leading_one(abs_value) {
        None => 0,
        Some(p) => {
            proof {
                lemma_bit_length_unique(abs_value as nat, (16 - p) as nat);
            }
            (16 - p) as u8
        },
    }
}

/// The magnitude of a coefficient.
pub fn abs_i16(value: i16) -> (r: u16)
    ensures
        r == magnitude(value as int),
{
    if value < 0 {
        (-(value as i32)) as u16
    } else {
        value as u16
    }
}

/// The bits that spell `value` behind its category's codeword.
pub fn encode_value(value: i16) -> (r: BitString)
    ensures
        r@ == value_bits(value as int),
        r@.len() <= 16,
{
    let abs_value = abs_i16(value);
    let n = get_category(abs_value);
    let plain = BitString::from_value(abs_value as usize, n as usize);
    if value > 0 {
        assert(plain@ =~= value_bits(value as int));
        plain
    } else {
        let mut inverted = BitString::new();
        let mut i: usize = 0;
        while i < n as usize
            invariant
                i <= n <= 16,
                plain@ == msb0_bits(abs_value as nat, n as nat),
                inverted@ == Seq::new(i as nat, |k: int| !plain@[k]),
            decreases n - i,
        {
            inverted.push(!plain.get(i));
            assert(inverted@ =~= Seq::new((i + 1) as nat, |k: int| !plain@[k]));
            i += 1;
        }
        assert(inverted@ =~= value_bits(value as int));
        inverted
    }
}

/// The coefficient that a string of value bits spells: a first bit of 1 marks a
/// positive number, spelled by the bits; a first bit of 0 marks a negative one,
/// whose magnitude the inverted bits spell. No bits spell zero.
pub open spec fn decode_value_bits(bits: Seq<bool>) -> int {
    if bits.len() == 0 {
        0
    } else if bits[0] {
        msb0_value(bits) as int
    } else {
        -(msb0_value(Seq::new(bits.len(), |i: int| !bits[i])) as int)
    }
}

/// Every coefficient from -32767 to 32767 comes back from its value bits, and
/// its category is 0 only where the coefficient is 0, which has no value bits.
pub proof fn lemma_value_bits_round_trip(v: int)
    requires
        -32767 <= v <= 32767,
    ensures
        decode_value_bits(value_bits(v)) == v,
        value_bits(v).len() == category(v),
        category(v) <= 15,
        category(v) == 0 <==> v == 0,
{
    let m = magnitude(v);
    let n = category(v);
    lemma_bit_length_bounds(m);
    lemma2_to64();
    if n > 15 {
        if n > 16 {
            lemma_pow2_strictly_increases(15, (n - 1) as nat);
        }
    }
    if v != 0 {
        let plain = msb0_bits(m, n);
        lemma_msb0_round_trip(m, n);
        assert(bit_of(m, (n - 1) as nat)) by {
            let p = pow2((n - 1) as nat);
            lemma_pow2_unfold(n);
            lemma_pow2_pos((n - 1) as nat);
            assert(m / p == 1) by (nonlinear_arith)
                requires
                    p <= m < 2 * p,
                    p > 0,
            ;
        }
        if v > 0 {
            assert(value_bits(v) =~= plain);
        } else {
            let bits = value_bits(v);
            assert(Seq::new(bits.len(), |i: int| !bits[i]) =~= plain);
        }
    }
}

/// The coefficient that the `category` value bits at `offset` spell, and the
/// place behind them. A category above 15 is not one of a baseline file, and
/// the scan may end before the last of the bits.
pub open spec fn decode_value_at(bits: Seq<bool>, offset: int, category: u8) -> Result<
    (int, int),
    DecodeError,
> {
    if category > 15 {
        Err(DecodeError::UnsupportedFeature)
    } else if offset + category > bits.len() {
        Err(DecodeError::TruncatedInput)
    } else {
        Ok((decode_value_bits(bits.subrange(offset, offset + category)), offset + category))
    }
}

/// Reads the `category` value bits at `offset` of the scan and moves `offset`
/// past them. On an error `offset` stays.
pub fn entropy_decode_value(scan: &BitString, offset: &mut usize, category: u8) -> (r: Result<
    i16,
    DecodeError,
>)
    requires
        *old(offset) <= scan@.len(),
    ensures
        match r {
            Ok(value) => decode_value_at(scan@, *old(offset) as int, category) == Ok::<
                (int, int),
                DecodeError,
            >((value as int, *final(offset) as int)) && *final(offset) == *old(offset) + category
                && -32767 <= value <= 32767,
            Err(e) => decode_value_at(scan@, *old(offset) as int, category) == Err::<
                (int, int),
                DecodeError,
            >(e) && *final(offset) == *old(offset),
        },
{
    if category > 15 {
        return Err(DecodeError::UnsupportedFeature);
    }
    if category == 0 {
        assert(scan@.subrange(*offset as int, *offset + 0).len() == 0);
        return Ok(0);
    }
    let n = category as usize;
    let len = scan.len();
    if n > len - *offset {
        return Err(DecodeError::TruncatedInput);
    }
    let start = *offset;
    let ghost bits = scan@.subrange(start as int, start + n);
    let is_positive = scan.get(start);
    let ghost plain = Seq::new(n as nat, |i: int| bits[i] == is_positive);
    let mut field = BitString::new();
    let mut i: usize = 0;
    while i < n
        invariant
            i <= n <= 15,
            len == scan@.len(),
            start + n <= scan@.len(),
            bits == scan@.subrange(start as int, start + n),
            plain == Seq::new(n as nat, |k: int| bits[k] == is_positive),
            field@ == Seq::new(i as nat, |k: int| plain[n - 1 - k]),
        decreases n - i,
    {
        let bit = scan.get(start + (n - 1 - i));
        field.push(bit == is_positive);
        assert(field@ =~= Seq::new((i + 1) as nat, |k: int| plain[n - 1 - k]));
        i += 1;
    }
    let abs_value = field.load_u16();
    proof {
        assert(field@ =~= plain.reverse());
        lemma_lsb0_value_reverse(plain);
        lemma_msb0_value_bound(plain);
        lemma2_to64();
        if n < 15 {
            lemma_pow2_strictly_increases(n as nat, 15);
        }
        if is_positive {
            assert(plain =~= bits);
        } else {
            assert(plain =~= Seq::new(bits.len(), |k: int| !bits[k]));
        }
    }
    *offset = start + n;
    if is_positive {
        Ok(abs_value as i16)
    } else {
        Ok(-(abs_value as i16))
    }
}

} // verus!
