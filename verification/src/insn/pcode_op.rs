//! User-defined operations.

use crate::ids::PCodeOpId;
use crate::value::LocalValueId;
use vstd::prelude::*;

verus! {

/// The name of the reserved user operation that stops the machine so that
/// the environment can act: `vm.interrupt(code, args...)`.
pub const VM_INTERRUPT: &'static str = "vm.interrupt";

/// A user-defined or architecture-specific operation.
#[derive(Debug)]
pub struct PCodeOp {
    pub id: PCodeOpId,
    pub args: Vec<LocalValueId>,
    /// Where the result goes. It is a result slot, not an operand.
    pub dst: Option<LocalValueId>,
}

} // verus!
