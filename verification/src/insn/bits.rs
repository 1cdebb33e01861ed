//! Fixed-width bit patterns held in a `u128`.
//!
//! A value of `size` bytes is a `u128` whose meaning lies in its low
//! `8 * size` bits. The functions here cut a pattern down to its width and
//! read it as a signed number; the specification functions say the same in
//! plain arithmetic, which is what the evaluators' contracts speak of.

use vstd::arithmetic::div_mod::{lemma_fundamental_div_mod, lemma_small_mod};
use vstd::arithmetic::power2::{
    lemma2_to64, lemma_pow2_adds, lemma_pow2_pos, lemma_pow2_strictly_increases, pow2,
};
use vstd::prelude::*;

verus! {

/// The number of 128-bit patterns, `2^128`.
pub open spec fn patterns() -> int {
    u128::MAX + 1
}

/// The number of bits of a `size`-byte value that a `u128` can hold.
pub open spec fn width_bits(size: int) -> nat {
    if size >= 16 {
        128
    } else if size <= 0 {
        0
    } else {
        (size * 8) as nat
    }
}

/// `2^(8 * size)`, with the width capped at 128 bits.
pub open spec fn modulus(size: int) -> int {
    pow2(width_bits(size)) as int
}

/// The low `size` bytes of `value`.
pub open spec fn truncated(value: int, size: int) -> int {
    value % modulus(size)
}

/// A 128-bit pattern read as a two's-complement number.
pub open spec fn twos_complement(bits: u128) -> int {
    if bits >= 0x8000_0000_0000_0000_0000_0000_0000_0000u128 {
        bits - patterns()
    } else {
        bits as int
    }
}

/// A `size`-byte pattern, below `modulus(size)`, read as a two's-complement
/// number of that width.
pub open spec fn signed(bits: int, size: int) -> int {
    if 2 * bits >= modulus(size) && width_bits(size) > 0 {
        bits - modulus(size)
    } else {
        bits
    }
}

/// What [`signed_value`] returns for any pattern: a negative number of the
/// given width when the width's sign bit is set, and otherwise the whole
/// pattern, bits above the width included.
pub open spec fn signed_pattern(bits: u128, size: int) -> int {
    if width_bits(size) == 0 {
        0
    } else if 2 * truncated(bits as int, size) >= modulus(size) {
        truncated(bits as int, size) - modulus(size)
    } else {
        twos_complement(bits)
    }
}

/// The powers of two at the ends, in digits.
pub proof fn lemma_pow2_128()
    ensures
        pow2(128) == patterns(),
        pow2(127) == 0x8000_0000_0000_0000_0000_0000_0000_0000,
        pow2(0) == 1,
{
    lemma2_to64();
    lemma_pow2_adds(64, 64);
    lemma_pow2_adds(127, 1);
}

/// A left shift that loses nothing is a multiplication.
pub proof fn lemma_shl_exact(x: u128, n: u128)
    requires
        n < 128,
        x * pow2(n as nat) <= u128::MAX,
    ensures
        x << n == x * pow2(n as nat),
    decreases n,
{
    lemma_pow2_128();
    lemma_pow2_pos(n as nat);
    if n == 0 {
        assert(x << 0u128 == x) by (bit_vector);
        assert(x * pow2(0) == x);
    } else {
        let k = (n - 1) as u128;
        lemma_pow2_pos(k as nat);
        lemma2_to64();
        lemma_pow2_adds(k as nat, 1);
        assert(pow2(n as nat) == pow2(k as nat) * 2);
        assert(x * pow2(n as nat) == (x * pow2(k as nat)) * 2) by (nonlinear_arith)
            requires
                pow2(n as nat) == pow2(k as nat) * 2,
        ;
        assert(x * pow2(k as nat) >= 0) by (nonlinear_arith)
            requires
                pow2(k as nat) > 0,
        ;
        lemma_shl_exact(x, k);
        let y: u128 = x << k;
        assert(x << n == y << 1u128) by (bit_vector)
            requires
                y == x << k,
                n == (k + 1) as u128,
                n < 128,
                k < 127,
        ;
        assert(y << 1u128 == (y + y) as u128) by (bit_vector);
        assert(y + y <= u128::MAX);
    }
}

/// `1 << n` is `2^n`.
pub proof fn lemma_one_shl(n: u128)
    requires
        n < 128,
    ensures
        (1u128 << n) == pow2(n as nat),
        pow2(n as nat) < patterns(),
{
    lemma_pow2_128();
    lemma_pow2_strictly_increases(n as nat, 128);
    assert(1 * pow2(n as nat) == pow2(n as nat));
    lemma_shl_exact(1, n);
}

/// Masking with `2^n - 1` takes the remainder by `2^n`.
pub proof fn lemma_and_low_mask(x: u128, n: u128)
    requires
        n < 128,
    ensures
        x & ((1u128 << n) - 1) as u128 == x as int % pow2(n as nat) as int,
{
    lemma_one_shl(n);
    lemma_pow2_pos(n as nat);
    let p = pow2(n as nat) as int;
    let q: u128 = x >> n;
    vstd::bits::lemma_u128_shr_is_div(x, n);
    lemma_fundamental_div_mod(x as int, p);
    assert(q as int == x as int / p);
    assert(q * p == p * (x as int / p)) by (nonlinear_arith)
        requires
            q as int == x as int / p,
    ;
    vstd::arithmetic::div_mod::lemma_mod_bound(x as int, p);
    lemma_shl_exact(q, n);
    let high: u128 = 0xffff_ffff_ffff_ffff_ffff_ffff_ffff_ffffu128 << n;
    assert(((1u128 << n) - 1) as u128 == !high && q << n == x & high) by (bit_vector)
        requires
            high == 0xffff_ffff_ffff_ffff_ffff_ffff_ffff_ffffu128 << n,
            q == x >> n,
            n < 128,
    ;
    assert(x & !high == (x - (x & high)) as u128) by (bit_vector);
}

/// Masking with a size's mask takes the remainder by its modulus.
pub proof fn lemma_mask(x: u128, mask: u128, size: usize)
    requires
        mask == modulus(size as int) - 1,
    ensures
        (x & mask) == truncated(x as int, size as int),
        0 <= truncated(x as int, size as int) < modulus(size as int),
        (x & mask) <= mask,
{
    lemma_pow2_128();
    lemma_pow2_pos(width_bits(size as int));
    vstd::arithmetic::div_mod::lemma_mod_bound(x as int, modulus(size as int));
    if size >= 16 {
        assert(mask == u128::MAX);
        assert(x & 0xffff_ffff_ffff_ffff_ffff_ffff_ffff_ffffu128 == x) by (bit_vector);
        lemma_small_mod(x as nat, modulus(size as int) as nat);
    } else {
        let n: u128 = (size * 8) as u128;
        lemma_one_shl(n);
        lemma_and_low_mask(x, n);
        assert(mask == ((1u128 << n) - 1) as u128);
    }
}

/// The modulus of every size lies between 1 and `2^128`.
pub proof fn lemma_modulus_bounds(size: int)
    ensures
        1 <= modulus(size) <= patterns(),
        size >= 16 ==> modulus(size) == patterns(),
        size <= 0 ==> modulus(size) == 1,
        size > 0 ==> modulus(size) >= 256 && modulus(size) % 2 == 0,
        width_bits(size) > 0 ==> modulus(size) == 2 * pow2((width_bits(size) - 1) as nat),
{
    lemma_pow2_128();
    lemma2_to64();
    lemma_pow2_pos(width_bits(size));
    if width_bits(size) > 0 {
        lemma_pow2_adds((width_bits(size) - 1) as nat, 1);
        if size != 1 {
            lemma_pow2_strictly_increases(8, width_bits(size));
        }
        if size < 16 {
            lemma_pow2_strictly_increases(width_bits(size), 128);
        }
    }
}

/// Returns a bitmask covering the low `size` bytes.
pub fn mask_for_size(size: usize) -> (mask: u128)
    ensures
        mask == modulus(size as int) - 1,
{
    proof {
        lemma_pow2_128();
        lemma_modulus_bounds(size as int);
    }
    if size >= 16 {
        u128::MAX
    } else if size == 0 {
        0u128
    } else {
        let bits: u128 = (size * 8) as u128;
        proof {
            lemma_one_shl(bits);
        }
        (1u128 << bits) - 1
    }
}

/// Adding a multiple of `2^128` changes no truncation.
pub proof fn lemma_truncated_wraps(x: int, k: int, size: int)
    ensures
        truncated(x + k * patterns(), size) == truncated(x, size),
{
    lemma_pow2_128();
    lemma_modulus_bounds(size);
    let w = width_bits(size);
    let c = pow2((128 - w) as nat) as int;
    lemma_pow2_adds(w, (128 - w) as nat);
    assert(k * (modulus(size) * c) == modulus(size) * (k * c)) by (nonlinear_arith);
    vstd::arithmetic::div_mod::lemma_mod_multiples_vanish(k * c, x, modulus(size));
    assert(x + k * (modulus(size) * c) == modulus(size) * (k * c) + x);
}

/// A truncation is its own truncation.
pub proof fn lemma_truncated_idem(x: int, size: int)
    ensures
        0 <= truncated(x, size) < modulus(size),
        truncated(truncated(x, size), size) == truncated(x, size),
        0 <= x < modulus(size) ==> truncated(x, size) == x,
{
    lemma_modulus_bounds(size);
    vstd::arithmetic::div_mod::lemma_mod_bound(x, modulus(size));
    lemma_small_mod(truncated(x, size) as nat, modulus(size) as nat);
    if 0 <= x < modulus(size) {
        lemma_small_mod(x as nat, modulus(size) as nat);
    }
}

/// A 128-bit pattern as the signed number it spells.
pub fn as_signed(bits: u128) -> (value: i128)
    ensures
        value == twos_complement(bits),
{
    if bits < 0x8000_0000_0000_0000_0000_0000_0000_0000u128 {
        bits as i128
    } else {
        ((bits - 0x8000_0000_0000_0000_0000_0000_0000_0000u128) as i128) + i128::MIN
    }
}

/// The 128-bit pattern that spells a signed number.
pub fn as_unsigned(value: i128) -> (bits: u128)
    ensures
        twos_complement(bits) == value,
        bits == if value >= 0 {
            value as int
        } else {
            value + patterns()
        },
{
    if value >= 0 {
        value as u128
    } else {
        ((value - i128::MIN) as u128) + 0x8000_0000_0000_0000_0000_0000_0000_0000u128
    }
}

/// Interprets a raw bit pattern as a signed integer of the given byte width.
pub fn signed_value(bits: u128, size: usize) -> (value: i128)
    ensures
        value == signed_pattern(bits, size as int),
        bits < modulus(size as int) ==> value == signed(bits as int, size as int),
{
    proof {
        lemma_pow2_128();
        lemma_modulus_bounds(size as int);
        lemma_truncated_idem(bits as int, size as int);
    }
    if size == 0 {
        return 0;
    }
    if size >= 16 {
        return as_signed(bits);
    }
    let shift: u128 = (size * 8 - 1) as u128;
    let sign_bit: u128 = 1u128 << shift;
    let mask: u128 = mask_for_size(size);
    proof {
        lemma_one_shl(shift);
        lemma_mask(bits, mask, size);
        assert(mask == (2 * sign_bit - 1) as u128);
        assert((bits & sign_bit) != 0 <==> (bits & mask) >= sign_bit) by (bit_vector)
            requires
                sign_bit == 1u128 << shift,
                shift < 127,
                mask == (2 * sign_bit - 1) as u128,
        ;
        assert((bits | !mask) == (bits & mask) + !mask && !mask + mask
            == 0xffff_ffff_ffff_ffff_ffff_ffff_ffff_ffff) by (bit_vector);
        vstd::arithmetic::power2::lemma_pow2_strictly_increases(width_bits(size as int), 127);
    }
    let extended: u128 = if (bits & sign_bit) != 0 {
        bits | !mask
    } else {
        bits
    };
    as_signed(extended)
}

} // verus!
