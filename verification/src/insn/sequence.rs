//! Loops over arrays as single instructions.

use crate::insn::terminator::Callee;
use crate::value::LocalValueId;
use vstd::prelude::*;

verus! {

/// The element-wise map `out[i] = body(src[i], captures…)`. `body` is a
/// symbol, not an operand.
#[derive(Debug)]
pub struct ArrayMap {
    pub body: Callee,
    /// The array mapped over.
    pub src: LocalValueId,
    /// Loop-invariant values the body closes over.
    pub captures: Vec<LocalValueId>,
}

/// The left scan `out[i] = acc(i + 1)` where `acc(0) = init` and
/// `acc(i + 1) = body(acc(i), src[i], captures…)`. `body` is a symbol, not an
/// operand.
#[derive(Debug)]
pub struct Scan {
    pub body: Callee,
    /// The initial accumulator.
    pub init: LocalValueId,
    /// The array scanned over.
    pub src: LocalValueId,
    /// Loop-invariant values the body closes over.
    pub captures: Vec<LocalValueId>,
}

} // verus!
