//! The bit-reversal permutation that orders the input of a
//! decimation-in-time transform.

use vstd::prelude::*;
use vstd::arithmetic::power2::{
    pow2,
    lemma_pow2_unfold,
    lemma_pow2_pos,
    lemma2_to64,
    lemma_pow2_strictly_increases,
};
use vstd::arithmetic::div_mod::{lemma_fundamental_div_mod_converse, lemma_breakdown, lemma_div_denominator};

verus! {

/// The number whose lowest `bits` binary digits are those of `i` in the
/// opposite order: digit `k` of `i` becomes digit `bits - 1 - k`. Digits of
/// `i` from position `bits` on play no part.
pub open spec fn reverse_bits(i: nat, bits: nat) -> nat
    decreases bits,
{
    if bits == 0 {
        0
    } else {
        (i % 2) * pow2((bits - 1) as nat) + reverse_bits(i / 2, (bits - 1) as nat)
    }
}

/// A reversal over `bits` digits is a number of `bits` digits.
pub proof fn lemma_reverse_bound(i: nat, bits: nat)
    ensures
        reverse_bits(i, bits) < pow2(bits),
    decreases bits,
{
    if bits == 0 {
        lemma2_to64();
    } else {
        lemma_reverse_bound(i / 2, (bits - 1) as nat);
        lemma_pow2_unfold(bits);
        let p = pow2((bits - 1) as nat);
        assert((i % 2) * p <= p) by (nonlinear_arith)
            requires
                i % 2 <= 1,
        ;
    }
}

/// The reversal read from the top digit down: the top digit of `i` becomes
/// the lowest digit of its reversal, above it stands the reversal of the rest.
pub proof fn lemma_reverse_top(i: nat, bits: nat)
    requires
        bits > 0,
        i < pow2(bits),
    ensures
        reverse_bits(i, bits) == 2 * reverse_bits(i % pow2((bits - 1) as nat), (bits - 1) as nat)
            + i / pow2((bits - 1) as nat),
    decreases bits,
{
    lemma2_to64();
    if bits == 1 {
        assert(reverse_bits(i / 2, 0) == 0);
        assert(reverse_bits(i % 1, 0) == 0);
        assert((i % 2) * 1 == i);
        assert(reverse_bits(i, 1) == (i % 2) * pow2(0) + reverse_bits(i / 2, 0));
    } else {
        let half = pow2((bits - 1) as nat);
        let quarter = pow2((bits - 2) as nat);
        lemma_pow2_unfold(bits);
        lemma_pow2_unfold((bits - 1) as nat);
        lemma_pow2_pos((bits - 2) as nat);
        assert(half == 2 * quarter);
        // the rest of i after its lowest digit
        lemma_reverse_top(i / 2, (bits - 1) as nat);
        let inner = reverse_bits((i / 2) % quarter, (bits - 2) as nat);
        assert(reverse_bits(i / 2, (bits - 1) as nat) == 2 * inner + (i / 2) / quarter);
        assert(reverse_bits(i, bits) == (i % 2) * half + reverse_bits(i / 2, (bits - 1) as nat));
        // i % half, digit by digit
        lemma_breakdown(i as int, 2, quarter as int);
        assert(i as int % (2 * quarter as int) == 2 * ((i as int / 2) % quarter as int) + i as int % 2);
        let low = i % half;
        assert(low % 2 == i % 2);
        assert(low / 2 == (i / 2) % quarter);
        lemma_div_denominator(i as int, 2, quarter as int);
        assert((i / 2) / quarter == i / half);
        assert(reverse_bits(low, (bits - 1) as nat) == (low % 2) * quarter + inner);
        assert(2 * ((i % 2) * quarter) == (i % 2) * half) by (nonlinear_arith)
            requires
                half == 2 * quarter,
        ;
    }
}

/// Reversing twice gives the number back.
pub proof fn lemma_reverse_involution(i: nat, bits: nat)
    requires
        i < pow2(bits),
    ensures
        reverse_bits(reverse_bits(i, bits), bits) == i,
    decreases bits,
{
    lemma2_to64();
    if bits == 0 {
    } else {
        let half = pow2((bits - 1) as nat);
        lemma_pow2_unfold(bits);
        lemma_pow2_pos((bits - 1) as nat);
        let low = i % 2;
        let rest = reverse_bits(i / 2, (bits - 1) as nat);
        let r = reverse_bits(i, bits);
        assert(r == low * half + rest);
        lemma_reverse_bound(i / 2, (bits - 1) as nat);
        lemma_reverse_bound(i, bits);
        lemma_fundamental_div_mod_converse(r as int, half as int, low as int, rest as int);
        lemma_reverse_top(r, bits);
        lemma_reverse_involution(i / 2, (bits - 1) as nat);
    }
}

/// Two numbers of `bits` digits with the same reversal are the same number:
/// together with `lemma_reverse_bound` and `lemma_reverse_involution`, the
/// reversal is a permutation of the numbers below `2^bits`.
pub proof fn lemma_reverse_injective(i: nat, j: nat, bits: nat)
    requires
        i < pow2(bits),
        j < pow2(bits),
        reverse_bits(i, bits) == reverse_bits(j, bits),
    ensures
        i == j,
{
    lemma_reverse_involution(i, bits);
    lemma_reverse_involution(j, bits);
}

/// Reverses the lowest `bits` binary digits of `i`.
pub fn reverse(i: u32, bits: u32) -> (r: u32)
    requires
        bits <= 32,
    ensures
        r == reverse_bits(i as nat, bits as nat),
{
    let mut r: u32 = 0;
    let mut rest: u32 = i;
    let mut done: u32 = 0;
    proof {
        lemma2_to64();
        lemma_pow2_pos(bits as nat);
        assert(0 * pow2(bits as nat) == 0) by (nonlinear_arith);
    }
    while done < bits
        invariant
            done <= bits <= 32,
            r < pow2(done as nat),
            r as nat * pow2((bits - done) as nat) + reverse_bits(rest as nat, (bits - done) as nat)
                == reverse_bits(i as nat, bits as nat),
        decreases bits - done,
    {
        proof {
            let left = (bits - done) as nat;
            let p = pow2((left - 1) as nat);
            lemma_pow2_unfold(left);
            lemma_pow2_unfold((done + 1) as nat);
            lemma2_to64();
            if done + 1 < 32 {
                lemma_pow2_strictly_increases((done + 1) as nat, 32);
            }
            assert(reverse_bits(rest as nat, left) == (rest as nat % 2) * p + reverse_bits(
                rest as nat / 2,
                (left - 1) as nat,
            ));
            assert((2 * r + rest % 2) * p == r * (2 * p) + (rest % 2) * p) by (nonlinear_arith);
        }
        r = 2 * r + rest % 2;
        rest = rest / 2;
        done = done + 1;
    }
    proof {
        assert(reverse_bits(rest as nat, 0) == 0);
        assert(r as nat * 1 == r as nat);
    }
    r
}

} // verus!
