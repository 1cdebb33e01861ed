//! Bit counts and arithmetic flags.

use crate::insn::binop::{flag, truth};
use crate::insn::bits::{
    lemma_mask, lemma_modulus_bounds, lemma_one_shl, lemma_truncated_wraps, mask_for_size, modulus,
    signed, truncated, width_bits,
};
use crate::value::LocalValueId;
use vstd::arithmetic::power2::{lemma2_to64, lemma_pow2_adds, pow2};
use vstd::prelude::*;

verus! {

/// Tests whether the float `src` is a NaN.
#[derive(Clone, Copy, Debug, PartialEq, Eq, Structural, Hash)]
pub struct IsFloatNaN {
    pub src: LocalValueId,
}

/// Counts the leading zero bits of `src`.
#[derive(Clone, Copy, Debug, PartialEq, Eq, Structural, Hash)]
pub struct LzCount {
    pub src: LocalValueId,
}

/// The number of binary digits of `n`, without leading zeros.
pub open spec fn bit_length(n: int) -> nat
    decreases n,
{
    if n <= 0 {
        0
    } else {
        1 + bit_length(n / 2)
    }
}

/// The number of ones among the binary digits of `n`.
pub open spec fn ones(n: int) -> nat
    decreases n,
{
    if n <= 0 {
        0
    } else {
        ((n % 2) + ones(n / 2)) as nat
    }
}

/// A number below `2^w` has at most `w` digits and at most `w` ones.
proof fn lemma_digits_bound(n: int, w: nat)
    requires
        0 <= n < pow2(w),
    ensures
        bit_length(n) <= w,
        ones(n) <= w,
    decreases w,
{
    lemma2_to64();
    if n > 0 {
        if w == 0 {
            assert(false);
        }
        lemma_pow2_adds((w - 1) as nat, 1);
        lemma_digits_bound(n / 2, (w - 1) as nat);
    }
}

impl LzCount {
    /// The number of leading zero bits of a `size`-byte pattern.
    pub open spec fn result(value: u128, size: int) -> int {
        width_bits(size) - bit_length(truncated(value as int, size))
    }

    /// Counts the leading zero bits of `value` as a `size`-byte integer. A
    /// zero has as many as the width has bits.
    pub fn eval(value: u128, size: usize) -> (result: u128)
        ensures
            result == width_bits(size as int) - bit_length(truncated(value as int, size as int)),
            result == LzCount::result(value, size as int),
    {
        let mask: u128 = mask_for_size(size);
        let masked: u128 = value & mask;
        proof {
            lemma_mask(value, mask, size);
            lemma_digits_bound(masked as int, width_bits(size as int));
        }
        let bits: u128 = if size >= 16 {
            128
        } else {
            (size * 8) as u128
        };
        let mut rest: u128 = masked;
        let mut count: u128 = 0;
        while rest != 0
            invariant
                count + bit_length(rest as int) == bit_length(masked as int),
                bit_length(masked as int) <= bits,
                bits <= 128,
            decreases rest,
        {
            rest = rest / 2;
            count = count + 1;
        }
        bits - count
    }
}

/// Counts the set bits of `src`.
#[derive(Clone, Copy, Debug, PartialEq, Eq, Structural, Hash)]
pub struct PopCount {
    pub src: LocalValueId,
}

impl PopCount {
    /// The number of set bits of a `size`-byte pattern.
    pub open spec fn result(value: u128, size: int) -> int {
        ones(truncated(value as int, size)) as int
    }

    /// Counts the set bits of `value` as a `size`-byte integer.
    pub fn eval(value: u128, size: usize) -> (result: u128)
        ensures
            result == ones(truncated(value as int, size as int)),
            result == PopCount::result(value, size as int),
    {
        let mask: u128 = mask_for_size(size);
        let masked: u128 = value & mask;
        proof {
            lemma_mask(value, mask, size);
            lemma_digits_bound(masked as int, width_bits(size as int));
        }
        let mut rest: u128 = masked;
        let mut count: u128 = 0;
        while rest != 0
            invariant
                count + ones(rest as int) == ones(masked as int),
                ones(masked as int) <= 128,
            decreases rest,
        {
            count = count + rest % 2;
            rest = rest / 2;
        }
        count
    }
}

/// The carry out of an unsigned addition.
#[derive(Clone, Copy, Debug, PartialEq, Eq, Structural, Hash)]
pub struct Carry {
    pub lhs: LocalValueId,
    pub rhs: LocalValueId,
}

impl Carry {
    /// Whether the unsigned sum of two `size`-byte patterns does not fit.
    pub open spec fn result(lhs: u128, rhs: u128, size: int) -> int {
        truth(truncated(lhs as int, size) + truncated(rhs as int, size) >= modulus(size))
    }

    /// Returns 1 if the unsigned sum of `lhs` and `rhs` does not fit in
    /// `size` bytes.
    pub fn eval(lhs: u128, rhs: u128, size: usize) -> (result: u128)
        ensures
            result == truth(
                truncated(lhs as int, size as int) + truncated(rhs as int, size as int) >= modulus(
                    size as int,
                ),
            ),
            result == Carry::result(lhs, rhs, size as int),
    {
        let mask: u128 = mask_for_size(size);
        let a: u128 = lhs & mask;
        let b: u128 = rhs & mask;
        proof {
            lemma_mask(lhs, mask, size);
            lemma_mask(rhs, mask, size);
        }
        flag(a > mask - b)
    }
}

/// Whether `n` is a signed number of `size` bytes.
pub open spec fn fits_signed(n: int, size: int) -> bool {
    -modulus(size) <= 2 * n < modulus(size)
}

/// The overflow of a signed addition.
#[derive(Clone, Copy, Debug, PartialEq, Eq, Structural, Hash)]
pub struct SCarry {
    pub lhs: LocalValueId,
    pub rhs: LocalValueId,
}

/// The overflow of a signed subtraction.
#[derive(Clone, Copy, Debug, PartialEq, Eq, Structural, Hash)]
pub struct SBorrow {
    pub lhs: LocalValueId,
    pub rhs: LocalValueId,
}

/// The sign bit of a `size`-byte pattern; 1 for a pattern of no bytes.
fn sign_bit(size: usize) -> (sign: u128)
    requires
        size <= 16,
    ensures
        size > 0 ==> 2 * sign == modulus(size as int),
        size == 0 ==> sign == 1,
        exists|n: u128| n < 128 && sign == #[trigger] (1u128 << n),
{
    let n: u128 = if size == 0 {
        0
    } else {
        (size * 8 - 1) as u128
    };
    proof {
        lemma_one_shl(n);
        lemma_modulus_bounds(size as int);
        lemma2_to64();
    }
    1u128 << n
}

/// Testing the sign bit of three patterns of one width by masking is
/// comparing each with the sign bit.
proof fn lemma_sign_tests(x: u128, y: u128, z: u128, sign: u128, mask: u128)
    requires
        exists|n: u128| n < 128 && sign == #[trigger] (1u128 << n),
        mask == 2 * sign - 1,
        x <= mask,
        y <= mask,
        z <= mask,
    ensures
        ((x ^ y) & (x ^ z)) & sign != 0 <==> (x >= sign) != (y >= sign) && (x >= sign) != (z
            >= sign),
{
    let n = choose|n: u128| n < 128 && sign == #[trigger] (1u128 << n);
    assert(((x ^ y) & (x ^ z)) & sign != 0 <==> (x & sign != 0) != (y & sign != 0) && (x & sign
        != 0) != (z & sign != 0)) by (bit_vector)
        requires
            n < 128,
            sign == 1u128 << n,
    ;
    lemma_sign_test(x, sign, mask, n);
    lemma_sign_test(y, sign, mask, n);
    lemma_sign_test(z, sign, mask, n);
}

proof fn lemma_sign_test(x: u128, sign: u128, mask: u128, n: u128)
    requires
        n < 128,
        sign == 1u128 << n,
        mask == 2 * sign - 1,
        x <= mask,
    ensures
        x & sign != 0 <==> x >= sign,
{
    assert(x & sign != 0 <==> x >= sign) by (bit_vector)
        requires
            n < 128,
            sign == 1u128 << n,
            x <= (2 * sign - 1) as u128,
    ;
}

impl SCarry {
    /// Whether the signed sum of two `size`-byte patterns does not fit.
    pub open spec fn result(lhs: u128, rhs: u128, size: int) -> int {
        truth(
            !fits_signed(
                signed(truncated(lhs as int, size), size) + signed(
                    truncated(rhs as int, size),
                    size,
                ),
                size,
            ),
        )
    }

    /// Returns 1 if the signed sum of `lhs` and `rhs` overflows `size`-byte
    /// integers.
    pub fn eval(lhs: u128, rhs: u128, size: usize) -> (result: u128)
        requires
            size <= 16,
        ensures
            result == truth(
                !fits_signed(
                    signed(truncated(lhs as int, size as int), size as int) + signed(
                        truncated(rhs as int, size as int),
                        size as int,
                    ),
                    size as int,
                ),
            ),
            result == SCarry::result(lhs, rhs, size as int),
    {
        let mask: u128 = mask_for_size(size);
        let a: u128 = lhs & mask;
        let b: u128 = rhs & mask;
        let sum: u128 = a.wrapping_add(b);
        let result: u128 = sum & mask;
        let sign: u128 = sign_bit(size);
        proof {
            lemma_modulus_bounds(size as int);
            lemma_mask(lhs, mask, size);
            lemma_mask(rhs, mask, size);
            lemma_mask(sum, mask, size);
            let turns: int = if a + b > u128::MAX {
                1
            } else {
                0
            };
            lemma_truncated_wraps(sum as int, turns, size as int);
            lemma_wrap_once(a + b, modulus(size as int));
            if size == 0 {
                assert((result ^ a) & (result ^ b) & sign == 0) by (bit_vector)
                    requires
                        a == 0,
                        b == 0,
                        result == 0,
                ;
            } else {
                lemma_sign_tests(result, a, b, sign, mask);
            }
        }
        flag((result ^ a) & (result ^ b) & sign != 0)
    }
}

/// A sum or difference of two patterns wraps at most once.
proof fn lemma_wrap_once(n: int, m: int)
    requires
        m > 0,
        -m < n < 2 * m,
    ensures
        n % m == (if n < 0 {
            n + m
        } else if n >= m {
            n - m
        } else {
            n
        }),
{
    if n < 0 {
        vstd::arithmetic::div_mod::lemma_mod_multiples_vanish(1, n, m);
        vstd::arithmetic::div_mod::lemma_small_mod((n + m) as nat, m as nat);
    } else if n >= m {
        vstd::arithmetic::div_mod::lemma_mod_multiples_vanish(1, n - m, m);
        vstd::arithmetic::div_mod::lemma_small_mod((n - m) as nat, m as nat);
    } else {
        vstd::arithmetic::div_mod::lemma_small_mod(n as nat, m as nat);
    }
}

impl SBorrow {
    /// Whether the signed difference of two `size`-byte patterns does not fit.
    pub open spec fn result(lhs: u128, rhs: u128, size: int) -> int {
        truth(
            !fits_signed(
                signed(truncated(lhs as int, size), size) - signed(
                    truncated(rhs as int, size),
                    size,
                ),
                size,
            ),
        )
    }

    /// Returns 1 if the signed difference `lhs - rhs` overflows `size`-byte
    /// integers.
    pub fn eval(lhs: u128, rhs: u128, size: usize) -> (result: u128)
        requires
            size <= 16,
        ensures
            result == truth(
                !fits_signed(
                    signed(truncated(lhs as int, size as int), size as int) - signed(
                        truncated(rhs as int, size as int),
                        size as int,
                    ),
                    size as int,
                ),
            ),
            result == SBorrow::result(lhs, rhs, size as int),
    {
        let mask: u128 = mask_for_size(size);
        let a: u128 = lhs & mask;
        let b: u128 = rhs & mask;
        let difference: u128 = a.wrapping_sub(b);
        let result: u128 = difference & mask;
        let sign: u128 = sign_bit(size);
        proof {
            lemma_modulus_bounds(size as int);
            lemma_mask(lhs, mask, size);
            lemma_mask(rhs, mask, size);
            lemma_mask(difference, mask, size);
            let turns: int = if a < b {
                -1
            } else {
                0
            };
            lemma_truncated_wraps(difference as int, turns, size as int);
            lemma_wrap_once(a - b, modulus(size as int));
            if size == 0 {
                assert((a ^ b) & (a ^ result) & sign == 0) by (bit_vector)
                    requires
                        a == 0,
                        b == 0,
                        result == 0,
                ;
            } else {
                lemma_sign_tests(a, b, result, sign, mask);
            }
        }
        flag((a ^ b) & (a ^ result) & sign != 0)
    }
}

} // verus!
