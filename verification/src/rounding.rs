//! Division that rounds to the nearest integer, ties to the even one.

use vstd::prelude::*;

verus! {

/// `n / d` rounded to the nearest integer, a tie going to the even one.
pub open spec fn round_half_even(n: nat, d: int) -> int {
    let q = n as int / d;
    let r = n as int % d;
    if 2 * r < d {
        q
    } else if 2 * r > d {
        q + 1
    } else if q % 2 == 0 {
        q
    } else {
        q + 1
    }
}

/// `n / d` rounded to the nearest integer, a tie going to the even one; the
/// quotient of a negative number is the negative of the quotient of its
/// magnitude.
pub open spec fn round_div(n: int, d: int) -> int {
    if n >= 0 {
        round_half_even(n as nat, d)
    } else {
        -round_half_even((-n) as nat, d)
    }
}

/// `v`, or the nearer of `lo` and `hi` where it lies outside them.
pub open spec fn clamp(v: int, lo: int, hi: int) -> int {
    if v < lo {
        lo
    } else if v > hi {
        hi
    } else {
        v
    }
}

/// [`round_half_even`], computed.
pub fn rounded_quotient(n: u128, d: u128) -> (r: u128)
    requires
        0 < d <= 0x1_0000_0000_0000_0000_0000,
    ensures
        r == round_half_even(n as nat, d as int),
        r <= n,
{
    let q = n / d;
    let rem = n % d;
    proof {
        vstd::arithmetic::div_mod::lemma_fundamental_div_mod(n as int, d as int);
        assert(q * d <= n && (d >= 2 ==> 2 * q <= n)) by (nonlinear_arith)
            requires
                n == d * q + rem,
                0 <= rem,
                0 <= q,
                0 < d,
        ;
    }
    if 2 * rem < d {
        q
    } else if 2 * rem > d {
        q + 1
    } else if q % 2 == 0 {
        q
    } else {
        q + 1
    }
}

/// The rounded quotient grows with the number that is divided.
pub proof fn lemma_round_half_even_monotone(a: nat, b: nat, d: int)
    requires
        a <= b,
        d > 0,
    ensures
        round_half_even(a, d) <= round_half_even(b, d),
{
    let qa = a as int / d;
    let qb = b as int / d;
    let ra = a as int % d;
    let rb = b as int % d;
    vstd::arithmetic::div_mod::lemma_fundamental_div_mod(a as int, d);
    vstd::arithmetic::div_mod::lemma_fundamental_div_mod(b as int, d);
    vstd::arithmetic::div_mod::lemma_mod_bound(a as int, d);
    vstd::arithmetic::div_mod::lemma_mod_bound(b as int, d);
    vstd::arithmetic::div_mod::lemma_div_is_ordered(a as int, b as int, d);
    if qa < qb {
        assert(qa + 1 <= qb);
    } else {
        assert(qa == qb);
        assert(ra <= rb) by (nonlinear_arith)
            requires
                a == d * qa + ra,
                b == d * qb + rb,
                qa == qb,
                a <= b,
        ;
    }
}

/// Of two numbers of one sign, the one of the larger magnitude has the
/// rounded quotient of the larger magnitude.
pub proof fn lemma_round_div_monotone(a: int, b: int, d: int)
    requires
        d > 0,
        (0 <= a <= b) || (b <= a <= 0),
    ensures
        (0 <= round_div(a, d) <= round_div(b, d)) || (round_div(b, d) <= round_div(a, d) <= 0),
{
    if 0 <= a {
        lemma_round_half_even_monotone(a as nat, b as nat, d);
        lemma_round_half_even_monotone(0, a as nat, d);
        assert(round_half_even(0, d) == 0) by {
            vstd::arithmetic::div_mod::lemma_small_mod(0, d as nat);
            vstd::arithmetic::div_mod::lemma_basic_div(0, d);
        }
    } else {
        lemma_round_half_even_monotone((-a) as nat, (-b) as nat, d);
        lemma_round_half_even_monotone(0, (-a) as nat, d);
        assert(round_half_even(0, d) == 0) by {
            vstd::arithmetic::div_mod::lemma_small_mod(0, d as nat);
            vstd::arithmetic::div_mod::lemma_basic_div(0, d);
        }
        if b == 0 {
        }
    }
}

} // verus!
