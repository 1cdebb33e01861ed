//! Casts and byte extraction.

use crate::insn::bits::{
    as_unsigned, lemma_mask, lemma_modulus_bounds, lemma_truncated_idem, lemma_truncated_wraps,
    mask_for_size, modulus, signed, signed_value, truncated,
};
use crate::value::LocalValueId;
use vstd::arithmetic::power2::pow2;
use vstd::prelude::*;

verus! {

/// Zero-extends `src` to `size` bytes.
#[derive(Clone, Copy, Debug, PartialEq, Eq, Structural, Hash)]
pub struct Zext {
    pub src: LocalValueId,
    pub size: usize,
}

impl Zext {
    /// The low `dst_size` bytes of `value`.
    pub open spec fn result(value: u128, dst_size: int) -> int {
        truncated(value as int, dst_size)
    }

    /// Zero-extends `value` to `dst_size` bytes by masking off any higher
    /// bits.
    pub fn eval(value: u128, dst_size: usize) -> (result: u128)
        ensures
            result == truncated(value as int, dst_size as int),
            result == Zext::result(value, dst_size as int),
    {
        let mask: u128 = mask_for_size(dst_size);
        proof {
            lemma_mask(value, mask, dst_size);
        }
        value & mask
    }
}

/// Sign-extends `src` to `size` bytes.
#[derive(Clone, Copy, Debug, PartialEq, Eq, Structural, Hash)]
pub struct Sext {
    pub src: LocalValueId,
    pub size: usize,
}

impl Sext {
    /// The `dst_size`-byte pattern of the number that the low `src_size`
    /// bytes of `value` spell.
    pub open spec fn result(value: u128, src_size: int, dst_size: int) -> int {
        truncated(signed(truncated(value as int, src_size), src_size), dst_size)
    }

    /// Sign-extends `value` from `src_size` bytes to `dst_size` bytes.
    pub fn eval(value: u128, src_size: usize, dst_size: usize) -> (result: u128)
        ensures
            result == Sext::result(value, src_size as int, dst_size as int),
    {
        proof {
            lemma_modulus_bounds(src_size as int);
            lemma_modulus_bounds(dst_size as int);
            lemma_truncated_idem(value as int, src_size as int);
            lemma_truncated_idem(0, dst_size as int);
        }
        if src_size == 0 {
            return 0;
        }
        let mask: u128 = mask_for_size(src_size);
        let low: u128 = value & mask;
        proof {
            lemma_mask(value, mask, src_size);
        }
        let number: i128 = signed_value(low, src_size);
        let pattern: u128 = as_unsigned(number);
        let dst_mask: u128 = mask_for_size(dst_size);
        proof {
            lemma_mask(pattern, dst_mask, dst_size);
            let turns: int = if number < 0 {
                1
            } else {
                0
            };
            lemma_truncated_wraps(number as int, turns, dst_size as int);
        }
        pattern & dst_mask
    }
}

/// Extracts `size` bytes of `src` from byte offset `start`.
#[derive(Clone, Copy, Debug, PartialEq, Eq, Structural, Hash)]
pub struct Range {
    pub src: LocalValueId,
    pub start: usize,
    pub size: usize,
}

impl Range {
    /// Bytes `start` up to `start + size` of `value`; bytes past the 16th
    /// are zero.
    pub open spec fn result(value: u128, start: int, size: int) -> int {
        if start >= 16 {
            0
        } else {
            truncated(value as int / pow2((start * 8) as nat) as int, size)
        }
    }

    /// Extracts `size` bytes starting at byte offset `start` from `value`.
    pub fn eval(value: u128, start: usize, size: usize) -> (result: u128)
        ensures
            result == Range::result(value, start as int, size as int),
    {
        if start >= 16 {
            0
        } else {
            let shift: u128 = (start * 8) as u128;
            let mask: u128 = mask_for_size(size);
            let shifted: u128 = value >> shift;
            proof {
                vstd::bits::lemma_u128_shr_is_div(value, shift);
                lemma_mask(shifted, mask, size);
            }
            shifted & mask
        }
    }
}

/// Converts the integer `src` to a float of `size` bytes.
#[derive(Clone, Copy, Debug, PartialEq, Eq, Structural, Hash)]
pub struct IntToFloat {
    pub src: LocalValueId,
    pub size: usize,
}

/// Converts the float `src` to a float of `size` bytes.
#[derive(Clone, Copy, Debug, PartialEq, Eq, Structural, Hash)]
pub struct FloatToFloat {
    pub src: LocalValueId,
    pub size: usize,
}

/// Converts the float `src` to an integer of `size` bytes, toward zero.
#[derive(Clone, Copy, Debug, PartialEq, Eq, Structural, Hash)]
pub struct FloatToInt {
    pub src: LocalValueId,
    pub size: usize,
}

/// Zero extension keeps the number that the source spells unsigned, and sign
/// extension the one it spells signed, wherever the destination is at least
/// as wide as the source.
pub proof fn law_extension_keeps_the_number(value: u128, src_size: int, dst_size: int)
    requires
        0 < src_size <= dst_size,
    ensures
        truncated(truncated(value as int, src_size), dst_size) == truncated(value as int, src_size),
        signed(Sext::result(value, src_size, dst_size), dst_size) == signed(
            truncated(value as int, src_size),
            src_size,
        ),
{
    lemma_modulus_bounds(src_size);
    lemma_modulus_bounds(dst_size);
    lemma_truncated_idem(value as int, src_size);
    let v = truncated(value as int, src_size);
    let ms = modulus(src_size);
    let md = modulus(dst_size);
    if crate::insn::bits::width_bits(src_size) < crate::insn::bits::width_bits(dst_size) {
        vstd::arithmetic::power2::lemma_pow2_strictly_increases(
            crate::insn::bits::width_bits(src_size),
            crate::insn::bits::width_bits(dst_size),
        );
    }
    assert(ms <= md);
    lemma_truncated_idem(v, dst_size);
    let s = signed(v, src_size);
    if s < 0 {
        vstd::arithmetic::div_mod::lemma_mod_multiples_vanish(1, s, md);
        lemma_truncated_idem(s + md, dst_size);
    } else {
        lemma_truncated_idem(s, dst_size);
    }
}

} // verus!
