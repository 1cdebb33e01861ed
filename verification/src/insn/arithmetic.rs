//! What the evaluated operations come to, said of their results alone.

use crate::insn::binop::{
    int_binop_result, magnitude, quotient_toward_zero, remainder_toward_zero, shift_width,
    IntBinop,
};
use crate::insn::bits::{
    lemma_modulus_bounds, lemma_pow2_128, lemma_truncated_idem, lemma_truncated_wraps, modulus,
    patterns, signed, signed_pattern, truncated, width_bits,
};
use crate::insn::casting::{Range, Sext, Zext};
use crate::insn::flags::{bit_length, ones, Carry, LzCount, PopCount, SBorrow, SCarry};
use crate::insn::unop::{int_unop_result, Unop};
use vstd::arithmetic::div_mod::{
    lemma_add_mod_noop, lemma_fundamental_div_mod, lemma_fundamental_div_mod_converse,
    lemma_mod_bound, lemma_mod_multiples_vanish, lemma_small_mod, lemma_sub_mod_noop,
};
use vstd::arithmetic::power2::{lemma2_to64, lemma_pow2_adds, lemma_pow2_pos, pow2};
use vstd::prelude::*;

verus! {

/// A value of one byte more has 256 times as many patterns; from sixteen bytes
/// on it has all those of a `u128`.
pub proof fn law_a_byte_has_256_values(size: int)
    ensures
        modulus(0) == 1,
        0 <= size < 16 ==> modulus(size + 1) == 256 * modulus(size),
        size >= 16 ==> modulus(size) == u128::MAX + 1,
        0 <= size < 0x2000_0000 ==> shift_width(size) == 8 * size,
{
    lemma_pow2_128();
    lemma2_to64();
    if 0 <= size < 16 {
        lemma_pow2_adds((size * 8) as nat, 8);
        assert(width_bits(size + 1) == size * 8 + 8);
        assert(width_bits(size) == size * 8);
        assert(pow2((size * 8) as nat) * 256 == 256 * pow2((size * 8) as nat));
    }
}

/// Two numbers are cut down to one pattern exactly where they differ by a
/// multiple of the modulus, and a pattern is its own.
pub proof fn law_a_pattern_is_a_remainder(x: int, y: int, size: int)
    ensures
        0 <= truncated(x, size) < modulus(size),
        (x - truncated(x, size)) % modulus(size) == 0,
        truncated(x, size) == truncated(y, size) <==> (x - y) % modulus(size) == 0,
        0 <= x < modulus(size) ==> truncated(x, size) == x,
{
    let m = modulus(size);
    lemma_modulus_bounds(size);
    lemma_truncated_idem(x, size);
    lemma_truncated_idem(y, size);
    lemma_congruent(x, y, m);
    lemma_congruent(x, truncated(x, size), m);
}

/// Numbers have one remainder exactly where the divisor divides their
/// difference.
proof fn lemma_congruent(x: int, y: int, m: int)
    requires
        m > 0,
    ensures
        x % m == y % m <==> (x - y) % m == 0,
{
    lemma_sub_mod_noop(x, y, m);
    lemma_mod_bound(x, m);
    lemma_mod_bound(y, m);
    let d = x % m - y % m;
    if d == 0 {
        lemma_small_mod(0, m as nat);
    } else if d > 0 {
        lemma_small_mod(d as nat, m as nat);
    } else {
        lemma_mod_multiples_vanish(1, d, m);
        lemma_small_mod((d + m) as nat, m as nat);
    }
}

/// A pattern and the number it spells differ by nothing or by the modulus, and
/// half of the numbers are negative.
pub proof fn law_half_of_the_numbers_are_negative(bits: int, size: int)
    requires
        0 <= bits < modulus(size),
        size > 0,
    ensures
        signed(bits, size) == bits || signed(bits, size) == bits - modulus(size),
        -modulus(size) <= 2 * signed(bits, size) < modulus(size),
{
    lemma_modulus_bounds(size);
}

/// The unsigned comparisons order the patterns, of which zero is the first.
pub proof fn law_unsigned_comparisons_order_the_patterns(a: u128, b: u128, c: u128, size: int)
    ensures
        int_binop_result(IntBinop::Equal, a, b, size) == 1 <==> (a - b) % modulus(size) == 0,
        int_binop_result(IntBinop::NotEqual, a, b, size) == 1 - int_binop_result(
            IntBinop::Equal,
            a,
            b,
            size,
        ),
        int_binop_result(IntBinop::LessEqual, a, b, size) == 1 <==> int_binop_result(
            IntBinop::Less,
            a,
            b,
            size,
        ) == 1 || int_binop_result(IntBinop::Equal, a, b, size) == 1,
        int_binop_result(IntBinop::Less, a, b, size) == 1 - int_binop_result(
            IntBinop::LessEqual,
            b,
            a,
            size,
        ),
        !(int_binop_result(IntBinop::Less, a, b, size) == 1 && int_binop_result(
            IntBinop::Less,
            b,
            a,
            size,
        ) == 1),
        int_binop_result(IntBinop::Less, a, b, size) == 1 && int_binop_result(
            IntBinop::Less,
            b,
            c,
            size,
        ) == 1 ==> int_binop_result(IntBinop::Less, a, c, size) == 1,
        int_binop_result(IntBinop::LessEqual, 0, b, size) == 1,
        a < modulus(size) && b < modulus(size) ==> (int_binop_result(IntBinop::Less, a, b, size)
            == 1 <==> a < b),
{
    lemma_modulus_bounds(size);
    law_a_pattern_is_a_remainder(a as int, b as int, size);
    law_a_pattern_is_a_remainder(b as int, a as int, size);
    law_a_pattern_is_a_remainder(c as int, 0, size);
    law_a_pattern_is_a_remainder(0, 0, size);
}

/// The signed comparisons order the patterns as the unsigned ones do once each
/// is moved up by half of the modulus; so the negative numbers come first.
pub proof fn law_signed_comparisons_order_the_numbers(
    a: u128,
    b: u128,
    half: u128,
    size: int,
    a_up: u128,
    b_up: u128,
)
    requires
        size > 0,
        2 * half == modulus(size),
        a_up == int_binop_result(IntBinop::Add, a, half, size),
        b_up == int_binop_result(IntBinop::Add, b, half, size),
    ensures
        int_binop_result(IntBinop::SLess, a, b, size) == int_binop_result(
            IntBinop::Less,
            a_up,
            b_up,
            size,
        ),
        int_binop_result(IntBinop::SLessEqual, a, b, size) == int_binop_result(
            IntBinop::LessEqual,
            a_up,
            b_up,
            size,
        ),
        int_binop_result(IntBinop::SLessEqual, a, b, size) == 1 <==> int_binop_result(
            IntBinop::SLess,
            a,
            b,
            size,
        ) == 1 || int_binop_result(IntBinop::Equal, a, b, size) == 1,
        int_binop_result(IntBinop::SLess, a, b, size) == 1 - int_binop_result(
            IntBinop::SLessEqual,
            b,
            a,
            size,
        ),
        int_binop_result(IntBinop::SLess, a, 0, size) == int_binop_result(
            IntBinop::LessEqual,
            half,
            a,
            size,
        ),
{
    let m = modulus(size);
    lemma_modulus_bounds(size);
    let x = truncated(a as int, size);
    let y = truncated(b as int, size);
    lemma_truncated_idem(a as int, size);
    lemma_truncated_idem(b as int, size);
    lemma_truncated_idem(half as int, size);
    lemma_truncated_idem(0, size);
    lemma_lifted(x, half as int, size);
    lemma_lifted(y, half as int, size);
    lemma_truncated_idem(a_up as int, size);
    lemma_truncated_idem(b_up as int, size);
}

/// Moved up by half of the modulus, a pattern is the number it spells, counted
/// from the least one.
proof fn lemma_lifted(x: int, half: int, size: int)
    requires
        size > 0,
        2 * half == modulus(size),
        0 <= x < modulus(size),
    ensures
        truncated(x + half, size) == signed(x, size) + half,
{
    let m = modulus(size);
    lemma_modulus_bounds(size);
    if 2 * x >= m {
        lemma_mod_multiples_vanish(1, x + half - m, m);
        lemma_small_mod((x + half - m) as nat, m as nat);
    } else {
        lemma_small_mod((x + half) as nat, m as nat);
    }
}

/// Sums, differences and products differ from the numbers that are meant by a
/// multiple of the modulus, and a difference is undone by a sum.
pub proof fn law_sums_and_products_wrap(a: u128, b: u128, size: int)
    ensures
        ({
            let m = modulus(size);
            let sum = int_binop_result(IntBinop::Add, a, b, size);
            let difference = int_binop_result(IntBinop::Sub, a, b, size);
            let product = int_binop_result(IntBinop::Mul, a, b, size);
            &&& 0 <= sum < m && (sum - (a + b)) % m == 0
            &&& 0 <= difference < m && (difference - (a - b)) % m == 0
            &&& 0 <= product < m && (product - a * b) % m == 0
            &&& forall|d: u128|
                d == difference ==> (#[trigger] int_binop_result(IntBinop::Add, d, b, size) - a) % m
                    == 0
            &&& int_binop_result(IntBinop::Add, b, a, size) == sum
            &&& int_binop_result(IntBinop::Mul, b, a, size) == product
        }),
{
    let m = modulus(size);
    lemma_modulus_bounds(size);
    let x = truncated(a as int, size);
    let y = truncated(b as int, size);
    lemma_truncated_idem(a as int, size);
    lemma_truncated_idem(b as int, size);
    lemma_add_mod_noop(a as int, b as int, m);
    lemma_sub_mod_noop(a as int, b as int, m);
    vstd::arithmetic::div_mod::lemma_mul_mod_noop_general(a as int, b as int, m);
    lemma_truncated_idem(x + y, size);
    lemma_truncated_idem(x - y, size);
    lemma_truncated_idem(x * y, size);
    let sum = int_binop_result(IntBinop::Add, a, b, size);
    let difference = int_binop_result(IntBinop::Sub, a, b, size);
    let product = int_binop_result(IntBinop::Mul, a, b, size);
    assert(sum % m == (a + b) % m);
    assert(difference % m == (a - b) % m);
    assert(product % m == (a * b) % m);
    lemma_congruent(sum, a + b, m);
    lemma_congruent(difference, a - b, m);
    lemma_congruent(product, a * b, m);
    assert(x * y == y * x) by (nonlinear_arith);
    assert forall|d: u128| d == difference implies (#[trigger] int_binop_result(
        IntBinop::Add,
        d,
        b,
        size,
    ) - a) % m == 0 by {
        lemma_truncated_idem(d as int, size);
        lemma_truncated_idem(d + y, size);
        lemma_add_mod_noop(x - y, y, m);
        assert((d + y) % m == x % m) by {
            lemma_small_mod(y as nat, m as nat);
            assert(((x - y) % m + y % m) % m == (x - y + y) % m);
        }
        let again = int_binop_result(IntBinop::Add, d, b, size);
        assert(again == x % m);
        assert(x % m == x);
        lemma_congruent(x, a as int, m);
    }
}

/// A dividend is its quotient times the divisor and a remainder that is smaller
/// than the divisor; by zero both are zero.
pub proof fn law_a_quotient_and_its_remainder(a: u128, b: u128, size: int)
    ensures
        ({
            let x = truncated(a as int, size);
            let y = truncated(b as int, size);
            let q = int_binop_result(IntBinop::Div, a, b, size);
            let r = int_binop_result(IntBinop::Rem, a, b, size);
            if y == 0 {
                q == 0 && r == 0
            } else {
                x == q * y + r && 0 <= r < y
            }
        }),
{
    let x = truncated(a as int, size);
    let y = truncated(b as int, size);
    lemma_modulus_bounds(size);
    lemma_truncated_idem(b as int, size);
    if y != 0 {
        lemma_fundamental_div_mod(x, y);
        lemma_mod_bound(x, y);
        assert(y * (x / y) == (x / y) * y) by (nonlinear_arith);
    }
}

/// Read as signed numbers, a dividend is a quotient, which the result is
/// congruent to, times the divisor and a remainder that is nearer to zero than
/// the divisor and not on the other side of zero than the dividend.
pub proof fn law_a_signed_quotient_and_its_remainder(a: u128, b: u128, size: int) -> (q: int)
    requires
        size > 0,
    ensures
        ({
            let m = modulus(size);
            let x = signed(truncated(a as int, size), size);
            let y = signed(truncated(b as int, size), size);
            let d = int_binop_result(IntBinop::Sdiv, a, b, size);
            let r = signed(int_binop_result(IntBinop::Srem, a, b, size), size);
            if y == 0 {
                d == 0 && r == 0
            } else {
                &&& (d - q) % m == 0
                &&& x == q * y + r
                &&& magnitude(r) < magnitude(y)
                &&& x >= 0 ==> r >= 0
                &&& x <= 0 ==> r <= 0
            }
        }),
{
    let m = modulus(size);
    lemma_modulus_bounds(size);
    let x = signed(truncated(a as int, size), size);
    let y = signed(truncated(b as int, size), size);
    lemma_truncated_idem(a as int, size);
    lemma_truncated_idem(b as int, size);
    lemma_truncated_idem(0, size);
    if y == 0 {
        return 0;
    }
    let q = quotient_toward_zero(x, y);
    let r = remainder_toward_zero(x, y);
    lemma_fundamental_div_mod(magnitude(x), magnitude(y));
    lemma_mod_bound(magnitude(x), magnitude(y));
    assert(x == q * y + r) by (nonlinear_arith)
        requires
            y != 0,
            q == quotient_toward_zero(x, y),
            r == remainder_toward_zero(x, y),
            magnitude(x) == magnitude(y) * (magnitude(x) / magnitude(y)) + magnitude(x) % magnitude(
                y,
            ),
    ;
    lemma_congruent(truncated(q, size), q, m);
    lemma_truncated_idem(q, size);
    assert(signed(truncated(r, size), size) == r) by {
        if r < 0 {
            lemma_mod_multiples_vanish(1, r, m);
            lemma_small_mod((r + m) as nat, m as nat);
        } else {
            lemma_small_mod(r as nat, m as nat);
        }
    }
    q
}

/// A bit of a conjunction is set where both are, of a disjunction where one is,
/// and of an exclusive disjunction where one alone is.
pub proof fn law_bits_are_combined_one_by_one(a: u128, b: u128, k: u128, size: usize)
    requires
        k < 128,
    ensures
        ({
            let x = (truncated(a as int, size as int) as u128 >> k) % 2 == 1;
            let y = (truncated(b as int, size as int) as u128 >> k) % 2 == 1;
            let and = int_binop_result(IntBinop::And, a, b, size as int) as u128;
            let or = int_binop_result(IntBinop::Or, a, b, size as int) as u128;
            let xor = int_binop_result(IntBinop::Xor, a, b, size as int) as u128;
            &&& (and >> k) % 2 == 1 <==> x && y
            &&& (or >> k) % 2 == 1 <==> x || y
            &&& (xor >> k) % 2 == 1 <==> x != y
        }),
{
    let x = truncated(a as int, size as int) as u128;
    let y = truncated(b as int, size as int) as u128;
    assert((((x & y) >> k) % 2 == 1 <==> (x >> k) % 2 == 1 && (y >> k) % 2 == 1) && (((x | y) >> k)
        % 2 == 1 <==> (x >> k) % 2 == 1 || (y >> k) % 2 == 1) && (((x ^ y) >> k) % 2 == 1 <==> ((x
        >> k) % 2 == 1) != ((y >> k) % 2 == 1))) by (bit_vector)
        requires
            k < 128,
    ;
}

/// A conjunction and a disjunction have together what the operands have, and an
/// exclusive disjunction is what the one has less than the other.
pub proof fn law_common_bits_count_twice(a: u128, b: u128, size: usize)
    ensures
        ({
            let and = int_binop_result(IntBinop::And, a, b, size as int);
            let or = int_binop_result(IntBinop::Or, a, b, size as int);
            let xor = int_binop_result(IntBinop::Xor, a, b, size as int);
            &&& and + or == truncated(a as int, size as int) + truncated(b as int, size as int)
            &&& and + xor == or
        }),
{
    let n = size as int;
    lemma_modulus_bounds(n);
    lemma_truncated_idem(a as int, n);
    lemma_truncated_idem(b as int, n);
    let x = truncated(a as int, n) as u128;
    let y = truncated(b as int, n) as u128;
    assert((x & y) <= x && (x & y) <= y && (x & y) <= (x | y) && (x | y) - x == y - (x & y) && (x
        ^ y) == (x | y) - (x & y) && x <= (x | y)) by (bit_vector);
}

/// One more place to the left doubles, one more to the right halves, and none
/// changes nothing; the arithmetic shift halves the number that is spelled.
pub proof fn law_shifts_double_and_halve(a: u128, n: u128, size: int)
    requires
        n + 1 < shift_width(size),
        n + 1 < 128,
    ensures
        ({
            let m = modulus(size);
            let next = (n + 1) as u128;
            let left = int_binop_result(IntBinop::ShiftLeft, a, n, size);
            let right = int_binop_result(IntBinop::ShiftRight, a, n, size);
            let down = signed(int_binop_result(IntBinop::SShiftRight, a, n, size), size);
            let right_next = int_binop_result(IntBinop::ShiftRight, a, next, size);
            let down_next = signed(int_binop_result(IntBinop::SShiftRight, a, next, size), size);
            &&& (int_binop_result(IntBinop::ShiftLeft, a, next, size) - 2 * left) % m == 0
            &&& 0 <= right - 2 * right_next <= 1
            &&& 0 <= down - 2 * down_next <= 1
            &&& int_binop_result(IntBinop::ShiftLeft, a, 0, size) == truncated(a as int, size)
            &&& int_binop_result(IntBinop::ShiftRight, a, 0, size) == truncated(a as int, size)
            &&& int_binop_result(IntBinop::SShiftRight, a, 0, size) == truncated(a as int, size)
        }),
{
    let m = modulus(size);
    let x = truncated(a as int, size);
    let s = signed(x, size);
    let next = (n + 1) as u128;
    lemma_modulus_bounds(size);
    lemma_truncated_idem(a as int, size);
    lemma_pow2_128();
    lemma2_to64();
    lemma_pow2_pos(n as nat);
    lemma_pow2_adds(n as nat, 1);
    let p = pow2(n as nat) as int;
    assert(pow2(next as nat) == 2 * p);
    assert(x * (2 * p) == 2 * (x * p)) by (nonlinear_arith);
    let left = int_binop_result(IntBinop::ShiftLeft, a, n, size);
    let left_next = int_binop_result(IntBinop::ShiftLeft, a, next, size);
    lemma_truncated_idem(x * p, size);
    lemma_truncated_idem(2 * (x * p), size);
    vstd::arithmetic::div_mod::lemma_mul_mod_noop_general(2, x * p, m);
    assert((2 * left) % m == (2 * (x * p)) % m) by {
        vstd::arithmetic::div_mod::lemma_mul_mod_noop_general(2, left, m);
        assert(left % m == (x * p) % m);
    }
    assert(left_next % m == (2 * left) % m);
    lemma_congruent(left_next, 2 * left, m);
    lemma_halved(x, p);
    lemma_halved(s, p);
    lemma_shifted_fits(s, p, size);
    lemma_shifted_fits(s, 2 * p, size);
    assert(x * 1 == x);
    assert(x / 1 == x);
    assert(s / 1 == s);
    assert(truncated(s, size) == x) by {
        if s < 0 {
            lemma_mod_multiples_vanish(1, s, m);
            lemma_small_mod((s + m) as nat, m as nat);
        } else {
            lemma_small_mod(s as nat, m as nat);
        }
    }
}

/// Dividing by twice as much halves the quotient.
proof fn lemma_halved(x: int, p: int)
    requires
        p > 0,
    ensures
        0 <= x / p - 2 * (x / (2 * p)) <= 1,
{
    lemma_fundamental_div_mod(x, p);
    lemma_mod_bound(x, p);
    lemma_fundamental_div_mod(x, 2 * p);
    lemma_mod_bound(x, 2 * p);
    let q = x / p;
    let h = x / (2 * p);
    let t = x % (2 * p);
    assert((2 * p) * h == p * (2 * h)) by (nonlinear_arith);
    if t < p {
        assert(x == (2 * h) * p + t) by (nonlinear_arith)
            requires
                x == (2 * p) * h + t,
        ;
        lemma_fundamental_div_mod_converse(x, p, 2 * h, t);
    } else {
        assert(x == (2 * h + 1) * p + (t - p)) by (nonlinear_arith)
            requires
                x == (2 * p) * h + t,
        ;
        lemma_fundamental_div_mod_converse(x, p, 2 * h + 1, t - p);
    }
}

/// A number that is divided can still be spelled.
proof fn lemma_shifted_fits(s: int, p: int, size: int)
    requires
        p > 0,
        size > 0 || s == 0,
        -modulus(size) <= 2 * s < modulus(size),
    ensures
        signed(truncated(s / p, size), size) == s / p,
{
    let m = modulus(size);
    lemma_modulus_bounds(size);
    let q = s / p;
    lemma_fundamental_div_mod(s, p);
    lemma_mod_bound(s, p);
    assert(-m <= 2 * q < m && (s >= 0 ==> 0 <= q <= s) && (s < 0 ==> s <= q < 0)) by (nonlinear_arith)
        requires
            p > 0,
            s == p * q + s % p,
            0 <= s % p < p,
            -m <= 2 * s < m,
            m > 0,
    ;
    if q < 0 {
        lemma_mod_multiples_vanish(1, q, m);
        lemma_small_mod((q + m) as nat, m as nat);
    } else {
        lemma_small_mod(q as nat, m as nat);
    }
}

/// A negation and its operand make zero, a complement and its operand make the
/// pattern of ones; no other operator has an integer result.
pub proof fn law_negation_and_complement_complete(op: Unop, value: u128, size: int)
    ensures
        ({
            let m = modulus(size);
            match int_unop_result(op, value, size) {
                Some(r) => {
                    &&& 0 <= r < m
                    &&& op is IntNegate || op is IntNot
                    &&& op is IntNegate ==> (value + r) % m == 0
                    &&& op is IntNot ==> (value + r + 1) % m == 0
                },
                None => !(op is IntNegate) && !(op is IntNot),
            }
        }),
{
    let m = modulus(size);
    let v = truncated(value as int, size);
    lemma_modulus_bounds(size);
    lemma_truncated_idem(value as int, size);
    lemma_truncated_idem(-v, size);
    lemma_small_mod(0, m as nat);
    vstd::arithmetic::div_mod::lemma_mod_self_0(m);
    match op {
        Unop::IntNegate => {
            let r = truncated(-v, size);
            lemma_add_mod_noop(value as int, r, m);
            lemma_add_mod_noop(v, -v, m);
            assert(v % m == value as int % m);
            assert(r % m == (-v) % m);
        },
        Unop::IntNot => {
            let r = m - 1 - v;
            lemma_add_mod_noop(value as int, r + 1, m);
            lemma_add_mod_noop(v, r + 1, m);
            assert(v % m == value as int % m);
            assert(v + (r + 1) == m);
        },
        _ => {},
    }
}

/// An addition carries exactly where its wrapped sum is less than an operand,
/// and overflows exactly where the sum of the numbers is not the number of the
/// sum; a subtraction likewise.
pub proof fn law_flags_tell_of_the_wrapped_result(a: u128, b: u128, size: int)
    ensures
        ({
            let x = truncated(a as int, size);
            let y = truncated(b as int, size);
            let sum = int_binop_result(IntBinop::Add, a, b, size);
            let difference = int_binop_result(IntBinop::Sub, a, b, size);
            &&& Carry::result(a, b, size) == 1 <==> sum < x
            &&& Carry::result(a, b, size) == 0 <==> sum == x + y
            &&& SCarry::result(a, b, size) == 1 || SCarry::result(a, b, size) == 0
            &&& SBorrow::result(a, b, size) == 1 || SBorrow::result(a, b, size) == 0
            &&& size > 0 ==> (SCarry::result(a, b, size) == 0 <==> signed(sum, size) == signed(
                x,
                size,
            ) + signed(y, size))
            &&& size > 0 ==> (SBorrow::result(a, b, size) == 0 <==> signed(difference, size)
                == signed(x, size) - signed(y, size))
        }),
{
    let m = modulus(size);
    let x = truncated(a as int, size);
    let y = truncated(b as int, size);
    lemma_modulus_bounds(size);
    lemma_truncated_idem(a as int, size);
    lemma_truncated_idem(b as int, size);
    lemma_truncated_idem(x + y, size);
    lemma_truncated_idem(x - y, size);
    lemma_wrap_once(x + y, m);
    lemma_wrap_once(x - y, m);
}

/// A number that is neither too large nor too small by a whole modulus wraps at
/// most once.
proof fn lemma_wrap_once(n: int, m: int)
    requires
        m > 0,
        -m < n < 2 * m,
    ensures
        n % m == (if n < 0 {
            n + m
        } else if n >= m {
            n - m
        } else {
            n
        }),
{
    if n < 0 {
        lemma_mod_multiples_vanish(1, n, m);
        lemma_small_mod((n + m) as nat, m as nat);
    } else if n >= m {
        lemma_mod_multiples_vanish(1, n - m, m);
        lemma_small_mod((n - m) as nat, m as nat);
    } else {
        lemma_small_mod(n as nat, m as nat);
    }
}

/// As many bits of the width as do not lead with a zero are what it takes to
/// write the pattern: a power of two more would be too many, one less too few.
pub proof fn law_leading_zeros_leave_the_length(value: u128, size: int)
    ensures
        ({
            let x = truncated(value as int, size);
            let z = LzCount::result(value, size);
            &&& 0 <= z <= width_bits(size)
            &&& z == width_bits(size) <==> x == 0
            &&& x < pow2((width_bits(size) - z) as nat)
            &&& x > 0 ==> x >= pow2((width_bits(size) - z - 1) as nat)
        }),
{
    let x = truncated(value as int, size);
    lemma_modulus_bounds(size);
    lemma_truncated_idem(value as int, size);
    lemma_length(x);
    lemma2_to64();
    if bit_length(x) > width_bits(size) {
        if bit_length(x) - 1 > width_bits(size) {
            vstd::arithmetic::power2::lemma_pow2_strictly_increases(
                width_bits(size),
                (bit_length(x) - 1) as nat,
            );
        }
        assert(false);
    }
}

proof fn lemma_length(n: int)
    requires
        n >= 0,
    ensures
        n < pow2(bit_length(n)),
        n > 0 ==> bit_length(n) > 0 && n >= pow2((bit_length(n) - 1) as nat),
        n == 0 ==> bit_length(n) == 0,
    decreases n,
{
    lemma2_to64();
    if n > 0 {
        lemma_length(n / 2);
        lemma_pow2_adds(bit_length(n / 2), 1);
        if n / 2 > 0 {
            lemma_pow2_adds((bit_length(n / 2) - 1) as nat, 1);
        }
    }
}

/// Clearing the lowest set bit of a pattern takes one from its count, and only
/// zero has none.
pub proof fn law_clearing_a_bit_counts_one_less(value: u128, cleared: u128, size: usize)
    requires
        value < modulus(size as int),
        value > 0,
        cleared == value & (value - 1) as u128,
    ensures
        PopCount::result(cleared, size as int) == PopCount::result(value, size as int) - 1,
        PopCount::result(0, size as int) == 0,
{
    lemma_modulus_bounds(size as int);
    assert(cleared <= value) by (bit_vector)
        requires
            cleared == value & (value - 1) as u128,
    ;
    lemma_truncated_idem(value as int, size as int);
    lemma_truncated_idem(cleared as int, size as int);
    lemma_truncated_idem(0, size as int);
    lemma_cleared(value, cleared);
}

proof fn lemma_cleared(value: u128, cleared: u128)
    requires
        value > 0,
        cleared == value & (value - 1) as u128,
    ensures
        ones(cleared as int) + 1 == ones(value as int),
    decreases value,
{
    let half = (value / 2) as u128;
    if value % 2 == 1 {
        assert(cleared == value - 1) by (bit_vector)
            requires
                value % 2 == 1,
                cleared == value & (value - 1) as u128,
        ;
        assert(cleared as int / 2 == value as int / 2);
        assert(cleared as int % 2 == 0);
        if cleared > 0 {
            assert(ones(cleared as int) == ones(cleared as int / 2));
        } else {
            assert(ones(0) == 0);
            assert(value as int / 2 == 0);
        }
    } else {
        let rest = half & (half - 1) as u128;
        assert(half > 0);
        assert(cleared == 2 * rest) by (bit_vector)
            requires
                value % 2 == 0,
                value > 0,
                half == value / 2,
                rest == half & (half - 1) as u128,
                cleared == value & (value - 1) as u128,
        ;
        lemma_cleared(half, rest);
        assert(ones(value as int) == ones(half as int));
        if cleared > 0 {
            assert(cleared as int / 2 == rest as int);
            assert(cleared as int % 2 == 0);
            assert(ones(cleared as int) == ones(rest as int));
        }
    }
}

/// The low bytes of a value and those that follow them make up the bytes of both
/// together; from the sixteenth on there are none.
pub proof fn law_ranges_of_bytes_join(value: u128, start: int, low: int, high: int)
    requires
        0 <= start,
        0 <= low,
        0 <= high,
        start + low + high <= 16,
    ensures
        Range::result(value, start, low + high) == Range::result(value, start, low) + modulus(low)
            * Range::result(value, start + low, high),
        Range::result(value, 0, 16) == value,
        Range::result(value, start, 0) == 0,
        forall|far: int, size: int| far >= 16 ==> #[trigger] Range::result(value, far, size) == 0,
{
    lemma_pow2_128();
    lemma2_to64();
    lemma_modulus_bounds(low);
    lemma_modulus_bounds(high);
    lemma_modulus_bounds(low + high);
    let v = value as int;
    lemma_small_mod(value as nat, patterns() as nat);
    assert(v / 1 == v);
    assert(Range::result(value, 0, 16) == value);
    if start >= 16 {
        assert(modulus(low) * 0 == 0);
    } else {
        let p = pow2((start * 8) as nat) as int;
        lemma_pow2_pos((start * 8) as nat);
        let x = v / p;
        lemma_fundamental_div_mod(v, p);
        lemma_mod_bound(v, p);
        assert(x >= 0) by {
            vstd::arithmetic::div_mod::lemma_div_pos_is_pos(v, p);
        }
        let ml = modulus(low);
        let mh = modulus(high);
        lemma_pow2_adds((low * 8) as nat, (high * 8) as nat);
        assert(modulus(low + high) == ml * mh);
        lemma_pow2_adds((start * 8) as nat, (low * 8) as nat);
        vstd::arithmetic::div_mod::lemma_div_denominator(v, p, ml);
        vstd::arithmetic::div_mod::lemma_mod_breakdown(x, ml, mh);
        assert(x % (ml * mh) == ml * ((x / ml) % mh) + x % ml);
        assert(x % 1 == 0);
        if start + low >= 16 {
            assert(start + low == 16 && high == 0);
            assert(mh == 1);
            assert((x / ml) % 1 == 0);
            assert(ml * 0 == 0);
        }
    }
}

/// A value is extended to the pattern that is congruent to the number it
/// spells: unsigned for zeros, signed for the sign.
pub proof fn law_extensions_are_congruent(value: u128, src_size: int, dst_size: int)
    ensures
        0 <= Zext::result(value, dst_size) < modulus(dst_size),
        (Zext::result(value, dst_size) - value) % modulus(dst_size) == 0,
        0 <= Sext::result(value, src_size, dst_size) < modulus(dst_size),
        (Sext::result(value, src_size, dst_size) - signed(
            truncated(value as int, src_size),
            src_size,
        )) % modulus(dst_size) == 0,
{
    let m = modulus(dst_size);
    lemma_modulus_bounds(dst_size);
    let s = signed(truncated(value as int, src_size), src_size);
    lemma_truncated_idem(value as int, dst_size);
    lemma_truncated_idem(s, dst_size);
    lemma_congruent(truncated(value as int, dst_size), value as int, m);
    lemma_congruent(truncated(s, dst_size), s, m);
}

/// A pattern of any width is read as the number that its low bytes spell, or, in
/// bits above the width as well where the sign bit of the width is not set, as
/// all of it.
pub proof fn law_a_raw_pattern_is_read_by_its_sign(bits: u128, size: int)
    requires
        size > 0,
    ensures
        (signed_pattern(bits, size) - bits) % modulus(size) == 0,
        bits < modulus(size) ==> signed_pattern(bits, size) == signed(bits as int, size),
        2 * truncated(bits as int, size) >= modulus(size) ==> signed_pattern(bits, size) < 0,
        signed_pattern(bits, 0) == 0,
{
    let m = modulus(size);
    lemma_modulus_bounds(size);
    lemma_pow2_128();
    lemma_truncated_idem(bits as int, size);
    let t = truncated(bits as int, size);
    if 2 * t >= m {
        lemma_congruent(bits as int, t, m);
        lemma_mod_multiples_vanish(1, t - m - bits, m);
        lemma_congruent(t, bits as int, m);
        assert((t - bits) % m == 0);
    } else if bits >= 0x8000_0000_0000_0000_0000_0000_0000_0000u128 {
        lemma_truncated_wraps(0, -1, size);
        lemma_small_mod(0, m as nat);
        assert(truncated(0, size) == 0);
        if size >= 16 {
            assert(t == bits);
        }
    } else {
        lemma_small_mod(0, m as nat);
    }
}

} // verus!
