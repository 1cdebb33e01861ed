//! Unary operations.

use crate::insn::bits::{lemma_mask, lemma_modulus_bounds, mask_for_size, modulus, truncated};
use crate::value::LocalValueId;
use vstd::prelude::*;

verus! {

/// The unary operators. The prefix operators (`-`, `~`, `f-`) are written
/// before the operand; the others are written as calls.
#[derive(Clone, Copy, Debug, PartialEq, Eq, Structural, Hash)]
pub enum Unop {
    /// Two's-complement negation.
    IntNegate,
    /// Bitwise complement.
    IntNot,
    /// Floating-point negation: the sign bit flipped.
    FloatNegate,
    /// Floating-point absolute value: the sign bit cleared.
    FloatAbs,
    /// Floating-point square root.
    FloatSqrt,
    /// Round toward positive infinity.
    FloatCeil,
    /// Round toward negative infinity.
    FloatFloor,
    /// Round to the nearest integer.
    FloatRound,
}

/// A unary operation applied to an operand.
#[derive(Clone, Copy, Debug, PartialEq, Eq, Structural, Hash)]
pub struct Unary {
    pub op: Unop,
    pub src: LocalValueId,
}

/// What an integer operator gives on a `size`-byte operand.
pub open spec fn int_unop_result(op: Unop, value: u128, size: int) -> Option<int> {
    match op {
        Unop::IntNegate => Some(truncated(-truncated(value as int, size), size)),
        Unop::IntNot => Some(modulus(size) - 1 - truncated(value as int, size)),
        _ => None,
    }
}

impl Unop {
    /// Evaluates the integer operators on a raw bit pattern of `size` bytes.
    /// The float operators have no integer result.
    pub fn eval_int(&self, value: u128, size: usize) -> (result: Option<u128>)
        ensures
            result matches Some(r) ==> match *self {
                Unop::IntNegate => r == truncated(-truncated(value as int, size as int), size as int),
                Unop::IntNot => r == modulus(size as int) - 1 - truncated(
                    value as int,
                    size as int,
                ),
                _ => false,
            },
            result is Some <==> *self is IntNegate || *self is IntNot,
            int_unop_result(*self, value, size as int) == (match result {
                Some(r) => Some(r as int),
                None => None,
            }),
    {
        let mask: u128 = mask_for_size(size);
        let v: u128 = value & mask;
        proof {
            lemma_mask(value, mask, size);
            lemma_modulus_bounds(size as int);
        }
        match self {
            Unop::IntNegate => {
                let negated: u128 = 0u128.wrapping_sub(v);
                proof {
                    lemma_mask(negated, mask, size);
                    let turns: int = if v == 0 {
                        0
                    } else {
                        1
                    };
                    crate::insn::bits::lemma_truncated_wraps(-v, turns, size as int);
                }
                Some(negated & mask)
            },
            Unop::IntNot => {
                proof {
                    assert(!v & mask == (mask - v) as u128) by (bit_vector)
                        requires
                            v == value & mask,
                    ;
                }
                Some(!v & mask)
            },
            _ => None,
        }
    }

    /// How the operator is written.
    pub open spec fn spelling(self) -> Seq<char> {
        match self {
            Unop::IntNegate => "-"@,
            Unop::IntNot => "~"@,
            Unop::FloatNegate => "f-"@,
            Unop::FloatAbs => "abs"@,
            Unop::FloatSqrt => "sqrt"@,
            Unop::FloatCeil => "ceil"@,
            Unop::FloatFloor => "floor"@,
            Unop::FloatRound => "round"@,
        }
    }

    /// How the operator is written.
    pub fn symbol(self) -> (s: &'static str)
        ensures
            s@ == self.spelling(),
    {
        match self {
            Unop::IntNegate => "-",
            Unop::IntNot => "~",
            Unop::FloatNegate => "f-",
            Unop::FloatAbs => "abs",
            Unop::FloatSqrt => "sqrt",
            Unop::FloatCeil => "ceil",
            Unop::FloatFloor => "floor",
            Unop::FloatRound => "round",
        }
    }
}

/// Negating a pattern twice, and complementing it twice, gives its low bytes
/// back; and a negation is the complement plus one.
pub proof fn law_negation_and_complement(value: u128, size: usize)
    ensures
        ({
            let v = truncated(value as int, size as int);
            let m = modulus(size as int);
            &&& truncated(-truncated(-v, size as int), size as int) == v
            &&& m - 1 - (m - 1 - v) == v
            &&& truncated(-v, size as int) == truncated((m - 1 - v) + 1, size as int)
        }),
{
    let v = truncated(value as int, size as int);
    let m = modulus(size as int);
    lemma_modulus_bounds(size as int);
    crate::insn::bits::lemma_truncated_idem(value as int, size as int);
    if v == 0 {
        vstd::arithmetic::div_mod::lemma_mod_self_0(m);
        vstd::arithmetic::div_mod::lemma_small_mod(0, m as nat);
    } else {
        vstd::arithmetic::div_mod::lemma_mod_multiples_vanish(1, -v, m);
        vstd::arithmetic::div_mod::lemma_small_mod((m - v) as nat, m as nat);
        vstd::arithmetic::div_mod::lemma_mod_multiples_vanish(1, -(m - v), m);
        vstd::arithmetic::div_mod::lemma_small_mod(v as nat, m as nat);
    }
}

} // verus!
