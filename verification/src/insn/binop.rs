//! Binary operations.

use crate::insn::bits::{
    lemma_mask, lemma_modulus_bounds, lemma_pow2_128, lemma_shl_exact, lemma_truncated_idem,
    lemma_truncated_wraps, mask_for_size, modulus, patterns, signed, signed_value, truncated,
};
use crate::value::LocalValueId;
use vstd::arithmetic::div_mod::{lemma_mod_bound, lemma_mod_multiples_vanish};
use vstd::arithmetic::power2::{lemma_pow2_adds, lemma_pow2_pos, pow2};
use vstd::prelude::*;

verus! {

/// A binary operation applied to two operands.
#[derive(Clone, Copy, Debug, PartialEq, Eq, Structural, Hash)]
pub struct Binary {
    pub op: Binop,
    pub lhs: LocalValueId,
    pub rhs: LocalValueId,
}

#[derive(Clone, Copy, Debug, PartialEq, Eq, Structural, Hash)]
pub enum Binop {
    Int(IntBinop),
    Float(FloatBinop),
}

#[derive(Clone, Copy, Debug, PartialEq, Eq, Structural, Hash)]
pub enum IntBinop {
    Equal,
    NotEqual,
    Less,
    SLess,
    LessEqual,
    SLessEqual,
    Add,
    Sub,
    Xor,
    And,
    Or,
    ShiftLeft,
    ShiftRight,
    SShiftRight,
    Mul,
    Div,
    Rem,
    Sdiv,
    Srem,
}

#[derive(Clone, Copy, Debug, PartialEq, Eq, Structural, Hash)]
pub enum FloatBinop {
    Equal,
    NotEqual,
    Less,
    LessEqual,
    Add,
    Sub,
    Mul,
    Div,
}

impl Binop {
    /// Whether the result is a truth value.
    pub open spec fn compares(self) -> bool {
        match self {
            Binop::Int(op) => op.compares(),
            Binop::Float(op) => op.compares(),
        }
    }

    pub fn is_comparison(self) -> (b: bool)
        ensures
            b == self.compares(),
    {
        match self {
            Binop::Int(op) => op.is_comparison(),
            Binop::Float(op) => op.is_comparison(),
        }
    }

    pub fn is_shift(self) -> (b: bool)
        ensures
            b == (self matches Binop::Int(op) && op.shifts()),
    {
        matches!(
            self,
            Binop::Int(IntBinop::ShiftLeft) | Binop::Int(IntBinop::ShiftRight) | Binop::Int(
                IntBinop::SShiftRight,
            )
        )
    }

    /// How the operator is written.
    pub open spec fn spelling(self) -> Seq<char> {
        match self {
            Binop::Int(op) => op.spelling(),
            Binop::Float(op) => op.spelling(),
        }
    }

    /// How the operator is written.
    pub fn symbol(self) -> (s: &'static str)
        ensures
            s@ == self.spelling(),
    {
        match self {
            Binop::Int(op) => op.symbol(),
            Binop::Float(op) => op.symbol(),
        }
    }
}

impl FloatBinop {
    /// Whether the result is a truth value.
    pub open spec fn compares(self) -> bool {
        self is Equal || self is NotEqual || self is Less || self is LessEqual
    }

    pub fn is_comparison(self) -> (b: bool)
        ensures
            b == self.compares(),
    {
        matches!(
            self,
            FloatBinop::Equal | FloatBinop::NotEqual | FloatBinop::Less | FloatBinop::LessEqual
        )
    }

    /// How the operator is written.
    pub open spec fn spelling(self) -> Seq<char> {
        match self {
            FloatBinop::Equal => "f=="@,
            FloatBinop::NotEqual => "f!="@,
            FloatBinop::Less => "f<"@,
            FloatBinop::LessEqual => "f<="@,
            FloatBinop::Add => "f+"@,
            FloatBinop::Sub => "f-"@,
            FloatBinop::Mul => "f*"@,
            FloatBinop::Div => "f/"@,
        }
    }

    /// How the operator is written.
    pub fn symbol(self) -> (s: &'static str)
        ensures
            s@ == self.spelling(),
    {
        match self {
            FloatBinop::Equal => "f==",
            FloatBinop::NotEqual => "f!=",
            FloatBinop::Less => "f<",
            FloatBinop::LessEqual => "f<=",
            FloatBinop::Add => "f+",
            FloatBinop::Sub => "f-",
            FloatBinop::Mul => "f*",
            FloatBinop::Div => "f/",
        }
    }
}

/// 1 for true, 0 for false.
pub open spec fn truth(b: bool) -> int {
    if b {
        1
    } else {
        0
    }
}

/// `n` without its sign.
pub open spec fn magnitude(n: int) -> int {
    if n < 0 {
        -n
    } else {
        n
    }
}

/// Division rounding toward zero.
pub open spec fn quotient_toward_zero(a: int, b: int) -> int {
    if (a < 0) == (b < 0) {
        magnitude(a) / magnitude(b)
    } else {
        -(magnitude(a) / magnitude(b))
    }
}

/// The remainder of [`quotient_toward_zero`], which has the dividend's sign.
pub open spec fn remainder_toward_zero(a: int, b: int) -> int {
    if a < 0 {
        -(magnitude(a) % magnitude(b))
    } else {
        magnitude(a) % magnitude(b)
    }
}

/// The number of bits that a shift of a `size`-byte value is measured
/// against: a count at or beyond it shifts every bit out.
pub open spec fn shift_width(size: int) -> int {
    if size > u32::MAX {
        0
    } else if size * 8 > u32::MAX {
        u32::MAX as int
    } else {
        size * 8
    }
}

/// What `op` gives on `size`-byte operands.
pub open spec fn int_binop_result(op: IntBinop, lhs: u128, rhs: u128, size: int) -> int {
    let a = truncated(lhs as int, size);
    let b = truncated(rhs as int, size);
    let sa = signed(a, size);
    let sb = signed(b, size);
    match op {
        IntBinop::Equal => truth(a == b),
        IntBinop::NotEqual => truth(a != b),
        IntBinop::Less => truth(a < b),
        IntBinop::SLess => truth(sa < sb),
        IntBinop::LessEqual => truth(a <= b),
        IntBinop::SLessEqual => truth(sa <= sb),
        IntBinop::Add => truncated(a + b, size),
        IntBinop::Sub => truncated(a - b, size),
        IntBinop::Mul => truncated(a * b, size),
        IntBinop::Div => if b == 0 {
            0
        } else {
            a / b
        },
        IntBinop::Rem => if b == 0 {
            0
        } else {
            a % b
        },
        IntBinop::Sdiv => if sb == 0 {
            0
        } else {
            truncated(quotient_toward_zero(sa, sb), size)
        },
        IntBinop::Srem => if sb == 0 {
            0
        } else {
            truncated(remainder_toward_zero(sa, sb), size)
        },
        IntBinop::And => ((a as u128) & (b as u128)) as int,
        IntBinop::Or => ((a as u128) | (b as u128)) as int,
        IntBinop::Xor => ((a as u128) ^ (b as u128)) as int,
        IntBinop::ShiftLeft => if rhs >= shift_width(size) {
            0
        } else {
            truncated(a * pow2(rhs as nat), size)
        },
        IntBinop::ShiftRight => if rhs >= shift_width(size) {
            0
        } else {
            a / pow2(rhs as nat) as int
        },
        IntBinop::SShiftRight => if rhs >= shift_width(size) {
            if sa < 0 {
                modulus(size) - 1
            } else {
                0
            }
        } else {
            truncated(sa / pow2(rhs as nat) as int, size)
        },
    }
}

impl IntBinop {
    /// Whether the result is a truth value.
    pub open spec fn compares(self) -> bool {
        self is Equal || self is NotEqual || self is Less || self is SLess || self is LessEqual
            || self is SLessEqual
    }

    /// Whether the operation shifts.
    pub open spec fn shifts(self) -> bool {
        self is ShiftLeft || self is ShiftRight || self is SShiftRight
    }

    pub fn is_comparison(self) -> (b: bool)
        ensures
            b == self.compares(),
    {
        matches!(
            self,
            IntBinop::Equal | IntBinop::NotEqual | IntBinop::Less | IntBinop::SLess
                | IntBinop::LessEqual | IntBinop::SLessEqual
        )
    }

    /// How the operator is written.
    pub open spec fn spelling(self) -> Seq<char> {
        match self {
            IntBinop::Equal => "=="@,
            IntBinop::NotEqual => "!="@,
            IntBinop::Less => "<"@,
            IntBinop::SLess => "s<"@,
            IntBinop::LessEqual => "<="@,
            IntBinop::SLessEqual => "s<="@,
            IntBinop::Add => "+"@,
            IntBinop::Sub => "-"@,
            IntBinop::Xor => "^"@,
            IntBinop::And => "&"@,
            IntBinop::Or => "|"@,
            IntBinop::ShiftLeft => "<<"@,
            IntBinop::ShiftRight => ">>"@,
            IntBinop::SShiftRight => "s>>"@,
            IntBinop::Mul => "*"@,
            IntBinop::Div => "/"@,
            IntBinop::Rem => "%"@,
            IntBinop::Sdiv => "s/"@,
            IntBinop::Srem => "s%"@,
        }
    }

    /// How the operator is written.
    pub fn symbol(self) -> (s: &'static str)
        ensures
            s@ == self.spelling(),
    {
        match self {
            IntBinop::Equal => "==",
            IntBinop::NotEqual => "!=",
            IntBinop::Less => "<",
            IntBinop::SLess => "s<",
            IntBinop::LessEqual => "<=",
            IntBinop::SLessEqual => "s<=",
            IntBinop::Add => "+",
            IntBinop::Sub => "-",
            IntBinop::Xor => "^",
            IntBinop::And => "&",
            IntBinop::Or => "|",
            IntBinop::ShiftLeft => "<<",
            IntBinop::ShiftRight => ">>",
            IntBinop::SShiftRight => "s>>",
            IntBinop::Mul => "*",
            IntBinop::Div => "/",
            IntBinop::Rem => "%",
            IntBinop::Sdiv => "s/",
            IntBinop::Srem => "s%",
        }
    }

    /// Evaluates this operation on raw bit patterns of `size` bytes.
    /// Arithmetic results are masked to `size` bytes; comparisons give 0 or
    /// 1. A shift takes its count from the whole of `rhs`. On operands of
    /// more than 16 bytes a count from 128 up to the width cannot be carried
    /// out in 128 bits.
    pub fn eval(&self, lhs: u128, rhs: u128, size: usize) -> (result: u128)
        requires
            self.shifts() ==> rhs < 128 || rhs >= shift_width(size as int),
        ensures
            result == int_binop_result(*self, lhs, rhs, size as int),
    {
        let mask: u128 = mask_for_size(size);
        let a: u128 = lhs & mask;
        let b: u128 = rhs & mask;
        proof {
            lemma_mask(lhs, mask, size);
            lemma_mask(rhs, mask, size);
            lemma_modulus_bounds(size as int);
        }
        match self {
            IntBinop::Equal => flag(a == b),
            IntBinop::NotEqual => flag(a != b),
            IntBinop::Less => flag(a < b),
            IntBinop::SLess => flag(signed_value(a, size) < signed_value(b, size)),
            IntBinop::LessEqual => flag(a <= b),
            IntBinop::SLessEqual => flag(signed_value(a, size) <= signed_value(b, size)),
            IntBinop::Add => {
                let sum: u128 = a.wrapping_add(b);
                wrapped(sum, mask, size, Ghost(a + b))
            },
            IntBinop::Sub => {
                let difference: u128 = a.wrapping_sub(b);
                wrapped(difference, mask, size, Ghost(a - b))
            },
            IntBinop::Mul => {
                let product: u128 = a.wrapping_mul(b);
                wrapped(product, mask, size, Ghost(a * b))
            },
            IntBinop::Div => {
                if b == 0 {
                    0
                } else {
                    a / b
                }
            },
            IntBinop::Rem => {
                if b == 0 {
                    0
                } else {
                    a % b
                }
            },
            IntBinop::Sdiv => signed_quotient(a, b, mask, size),
            IntBinop::Srem => signed_remainder(a, b, mask, size),
            IntBinop::And => a & b,
            IntBinop::Or => a | b,
            IntBinop::Xor => a ^ b,
            IntBinop::ShiftLeft => match shift_amount(rhs, size) {
                Some(n) => shift_left(a, n, mask, size),
                None => 0,
            },
            IntBinop::ShiftRight => match shift_amount(rhs, size) {
                Some(n) => shift_right(a, n, mask, size),
                None => 0,
            },
            IntBinop::SShiftRight => shift_right_signed(a, shift_amount(rhs, size), mask, size),
        }
    }
}

/// Cuts `raw`, which is `exact` modulo `2^128`, down to `size` bytes.
fn wrapped(raw: u128, mask: u128, size: usize, exact: Ghost<int>) -> (r: u128)
    requires
        mask == modulus(size as int) - 1,
        (exact@ - raw) % patterns() == 0,
    ensures
        r == truncated(exact@, size as int),
        0 <= r < modulus(size as int),
{
    proof {
        lemma_mask(raw, mask, size);
        let k = (exact@ - raw) / patterns();
        lemma_truncated_wraps(raw as int, k, size as int);
    }
    raw & mask
}

/// The magnitude of a signed number.
fn unsigned_magnitude(value: i128) -> (r: u128)
    ensures
        r == magnitude(value as int),
{
    if value >= 0 {
        value as u128
    } else {
        ((-(value + 1)) as u128) + 1
    }
}

fn signed_quotient(a: u128, b: u128, mask: u128, size: usize) -> (r: u128)
    requires
        mask == modulus(size as int) - 1,
        a < modulus(size as int),
        b < modulus(size as int),
    ensures
        r == (if signed(b as int, size as int) == 0 {
            0
        } else {
            truncated(
                quotient_toward_zero(signed(a as int, size as int), signed(b as int, size as int)),
                size as int,
            )
        }),
{
    let l: i128 = signed_value(a, size);
    let r: i128 = signed_value(b, size);
    if r == 0 {
        0
    } else {
        let q: u128 = unsigned_magnitude(l) / unsigned_magnitude(r);
        if (l < 0) == (r < 0) {
            wrapped(q, mask, size, Ghost(q as int))
        } else {
            let negated: u128 = 0u128.wrapping_sub(q);
            wrapped(negated, mask, size, Ghost(-q))
        }
    }
}

fn signed_remainder(a: u128, b: u128, mask: u128, size: usize) -> (r: u128)
    requires
        mask == modulus(size as int) - 1,
        a < modulus(size as int),
        b < modulus(size as int),
    ensures
        r == (if signed(b as int, size as int) == 0 {
            0
        } else {
            truncated(
                remainder_toward_zero(signed(a as int, size as int), signed(b as int, size as int)),
                size as int,
            )
        }),
{
    let l: i128 = signed_value(a, size);
    let r: i128 = signed_value(b, size);
    if r == 0 {
        0
    } else {
        let m: u128 = unsigned_magnitude(l) % unsigned_magnitude(r);
        if l >= 0 {
            wrapped(m, mask, size, Ghost(m as int))
        } else {
            let negated: u128 = 0u128.wrapping_sub(m);
            wrapped(negated, mask, size, Ghost(-m))
        }
    }
}

/// The shift amount for a `size`-byte left operand, or `None` when the count
/// is at or beyond its width and every bit is shifted out.
fn shift_amount(rhs: u128, size: usize) -> (n: Option<u32>)
    ensures
        n == (if rhs < shift_width(size as int) {
            Some(rhs as u32)
        } else {
            None
        }),
{
    if size > u32::MAX as usize {
        return None;
    }
    let bits: u128 = if size > 0x1fff_ffff {
        u32::MAX as u128
    } else {
        (size as u128) * 8
    };
    if rhs < bits {
        Some(rhs as u32)
    } else {
        None
    }
}

/// A left shift keeps the low 128 bits of the product.
proof fn lemma_shl_wraps(x: u128, n: u128)
    requires
        n < 128,
    ensures
        x << n == (x * pow2(n as nat)) % patterns(),
{
    lemma_pow2_128();
    lemma_pow2_pos(n as nat);
    if n == 0 {
        lemma_shl_exact(x, n);
        assert(x * pow2(n as nat) == x as int) by (nonlinear_arith)
            requires
                pow2(n as nat) == 1,
        ;
    } else {
        let w = (128 - n) as u128;
        lemma_pow2_adds(n as nat, w as nat);
        lemma_pow2_pos(w as nat);
        let p = pow2(n as nat) as int;
        let c = pow2(w as nat) as int;
        crate::insn::bits::lemma_and_low_mask(x, w);
        crate::insn::bits::lemma_one_shl(w);
        let low: u128 = x & ((1u128 << w) - 1) as u128;
        assert(x << n == low << n) by (bit_vector)
            requires
                n < 128,
                n > 0,
                w == (128 - n) as u128,
                low == x & ((1u128 << w) - 1) as u128,
        ;
        lemma_mod_bound(x as int, c);
        vstd::arithmetic::div_mod::lemma_fundamental_div_mod(x as int, c);
        let k = x as int / c;
        assert(x * p == (c * k + low) * p);
        assert((c * k + low) * p == (p * c) * k + low * p) by (nonlinear_arith);
        assert(0 <= low * p < c * p) by (nonlinear_arith)
            requires
                0 <= low < c,
                p > 0,
        ;
        assert(c * p == p * c) by (nonlinear_arith);
        lemma_shl_exact(low, n);
        lemma_mod_multiples_vanish(k, low * p, p * c);
        vstd::arithmetic::div_mod::lemma_small_mod((low * p) as nat, (p * c) as nat);
    }
}

fn shift_left(a: u128, n: u32, mask: u128, size: usize) -> (r: u128)
    requires
        n < 128,
        mask == modulus(size as int) - 1,
        a < modulus(size as int),
    ensures
        r == truncated(a * pow2(n as nat), size as int),
{
    let count: u128 = n as u128;
    let raw: u128 = a << count;
    proof {
        lemma_shl_wraps(a, count);
        let exact = a * pow2(n as nat);
        vstd::arithmetic::div_mod::lemma_fundamental_div_mod(exact, patterns());
        assert(exact - raw == patterns() * (exact / patterns()));
        lemma_mod_multiples_vanish(exact / patterns(), 0, patterns());
    }
    wrapped(raw, mask, size, Ghost(a * pow2(n as nat)))
}

fn shift_right(a: u128, n: u32, mask: u128, size: usize) -> (r: u128)
    requires
        n < 128,
        mask == modulus(size as int) - 1,
        a < modulus(size as int),
    ensures
        r == a as int / pow2(n as nat) as int,
        r <= a,
{
    let count: u128 = n as u128;
    let raw: u128 = a >> count;
    proof {
        vstd::bits::lemma_u128_shr_is_div(a, count);
        assert(raw <= a) by (bit_vector)
            requires
                raw == a >> count,
                count < 128,
        ;
        lemma_mask(raw, mask, size);
        lemma_truncated_idem(raw as int, size as int);
    }
    raw & mask
}

/// Rounding down, a negative number's quotient is the complement of its
/// complement's quotient.
proof fn lemma_floor_of_negative(s: int, p: int)
    requires
        p > 0,
    ensures
        s / p == -1 - ((-1 - s) / p),
{
    let t = -1 - s;
    vstd::arithmetic::div_mod::lemma_fundamental_div_mod(t, p);
    lemma_mod_bound(t, p);
    let q = -1 - t / p;
    let r = p - 1 - t % p;
    assert(p * q == -p - p * (t / p)) by (nonlinear_arith)
        requires
            q == -1 - t / p,
    ;
    assert(q * p == p * q) by (nonlinear_arith);
    assert(s == q * p + r);
    vstd::arithmetic::div_mod::lemma_fundamental_div_mod_converse(s, p, q, r);
}

fn shift_right_signed(a: u128, n: Option<u32>, mask: u128, size: usize) -> (r: u128)
    requires
        n matches Some(count) ==> count < 128,
        mask == modulus(size as int) - 1,
        a < modulus(size as int),
    ensures
        r == match n {
            Some(count) => truncated(
                signed(a as int, size as int) / pow2(count as nat) as int,
                size as int,
            ),
            None => if signed(a as int, size as int) < 0 {
                mask as int
            } else {
                0
            },
        },
{
    let s: i128 = signed_value(a, size);
    match n {
        Some(count) => {
            proof {
                lemma_pow2_pos(count as nat);
            }
            if s >= 0 {
                let r: u128 = shift_right(a, count, mask, size);
                proof {
                    lemma_truncated_idem(r as int, size as int);
                }
                r
            } else {
                let complement: u128 = (-(s + 1)) as u128;
                let shift: u128 = count as u128;
                let q: u128 = complement >> shift;
                proof {
                    vstd::bits::lemma_u128_shr_is_div(complement, shift);
                    lemma_floor_of_negative(s as int, pow2(count as nat) as int);
                }
                let raw: u128 = u128::MAX - q;
                proof {
                    assert((-1 - q) - raw == -patterns());
                }
                wrapped(raw, mask, size, Ghost(-1 - q))
            }
        },
        None => if s < 0 {
            mask
        } else {
            0
        },
    }
}

/// 1 for true, 0 for false.
pub fn flag(b: bool) -> (n: u128)
    ensures
        n == truth(b),
{
    if b {
        1
    } else {
        0
    }
}

/// A comparison gives 0 or 1; any other operation gives a number of the width
/// of its operands.
pub proof fn law_results_fit(op: IntBinop, lhs: u128, rhs: u128, size: usize)
    ensures
        op.compares() ==> 0 <= int_binop_result(op, lhs, rhs, size as int) <= 1,
        !op.compares() ==> 0 <= int_binop_result(op, lhs, rhs, size as int) < modulus(size as int),
{
    let n = size as int;
    let a = truncated(lhs as int, n);
    let b = truncated(rhs as int, n);
    lemma_modulus_bounds(n);
    lemma_truncated_idem(lhs as int, n);
    lemma_truncated_idem(rhs as int, n);
    match op {
        IntBinop::Div => if b != 0 {
            vstd::arithmetic::div_mod::lemma_div_pos_is_pos(a, b);
            vstd::arithmetic::div_mod::lemma_div_is_ordered_by_denominator(a, 1, b);
        },
        IntBinop::Rem => if b != 0 {
            vstd::arithmetic::div_mod::lemma_mod_bound(a, b);
        },
        IntBinop::And | IntBinop::Or | IntBinop::Xor => {
            let mask = (modulus(n) - 1) as u128;
            let x = a as u128;
            let y = b as u128;
            lemma_mask(lhs, mask, size);
            lemma_mask(rhs, mask, size);
            lemma_mask(x & y, mask, size);
            lemma_mask(x | y, mask, size);
            lemma_mask(x ^ y, mask, size);
            assert(((lhs & mask) & (rhs & mask)) & mask == (lhs & mask) & (rhs & mask) && ((lhs
                & mask) | (rhs & mask)) & mask == (lhs & mask) | (rhs & mask) && ((lhs & mask) ^ (
            rhs & mask)) & mask == (lhs & mask) ^ (rhs & mask)) by (bit_vector);
        },
        IntBinop::ShiftRight => if rhs < shift_width(n) {
            vstd::arithmetic::power2::lemma_pow2_pos(rhs as nat);
            let d = pow2(rhs as nat) as int;
            vstd::arithmetic::div_mod::lemma_div_pos_is_pos(a, d);
            vstd::arithmetic::div_mod::lemma_div_is_ordered_by_denominator(a, 1, d);
        },
        IntBinop::Add => lemma_truncated_idem(a + b, n),
        IntBinop::Sub => lemma_truncated_idem(a - b, n),
        IntBinop::Mul => lemma_truncated_idem(a * b, n),
        IntBinop::Sdiv => lemma_truncated_idem(quotient_toward_zero(signed(a, n), signed(b, n)), n),
        IntBinop::Srem => lemma_truncated_idem(
            remainder_toward_zero(signed(a, n), signed(b, n)),
            n,
        ),
        IntBinop::ShiftLeft => lemma_truncated_idem(a * pow2(rhs as nat), n),
        IntBinop::SShiftRight => lemma_truncated_idem(
            signed(a, n) / pow2(rhs as nat) as int,
            n,
        ),
        _ => {},
    }
}

/// A count at or beyond the width shifts every bit out; an arithmetic right
/// shift leaves the sign.
pub proof fn law_shifts_past_the_width(lhs: u128, rhs: u128, size: int)
    requires
        rhs >= shift_width(size),
    ensures
        int_binop_result(IntBinop::ShiftLeft, lhs, rhs, size) == 0,
        int_binop_result(IntBinop::ShiftRight, lhs, rhs, size) == 0,
        int_binop_result(IntBinop::SShiftRight, lhs, rhs, size) == (if signed(
            truncated(lhs as int, size),
            size,
        ) < 0 {
            modulus(size) - 1
        } else {
            0
        }),
{
}

} // verus!
