//! Instructions that transfer control, and applications of functions.

use crate::ids::{FunctionId, LocalBlockId};
use crate::value::LocalValueId;
use vstd::prelude::*;

verus! {

/// A statically named callee: an installed function, or a placeholder that
/// is local to a pass and must be resolved before execution.
#[derive(Clone, Copy, Debug, PartialEq, Eq, Structural, Hash)]
pub enum Callee {
    Real(FunctionId),
    Minted(u32),
}

impl Callee {
    /// The installed function, if this is one.
    pub open spec fn real_function(self) -> Option<FunctionId> {
        match self {
            Callee::Real(id) => Some(id),
            Callee::Minted(_) => None,
        }
    }

    /// The placeholder's slot, if this is one.
    pub open spec fn minted_slot(self) -> Option<u32> {
        match self {
            Callee::Real(_) => None,
            Callee::Minted(slot) => Some(slot),
        }
    }

    pub fn as_real(self) -> (id: Option<FunctionId>)
        ensures
            id == self.real_function(),
    {
        match self {
            Callee::Real(id) => Some(id),
            Callee::Minted(_) => None,
        }
    }

    pub fn minted(self) -> (slot: Option<u32>)
        ensures
            slot == self.minted_slot(),
    {
        match self {
            Callee::Real(_) => None,
            Callee::Minted(slot) => Some(slot),
        }
    }

    /// The installed function, at a boundary that no placeholder may cross.
    pub fn expect_real(self, operation: &str) -> (id: FunctionId)
        requires
            self is Real,
        ensures
            Some(id) == self.real_function(),
    {
        match self {
            Callee::Real(id) => id,
            Callee::Minted(_) => {
                proof {
                    assert(false);
                }
                FunctionId(0)
            },
        }
    }
}

impl From<FunctionId> for Callee {
    fn from(id: FunctionId) -> (callee: Self) {
        Callee::Real(id)
    }
}

impl vstd::std_specs::convert::FromSpecImpl<FunctionId> for Callee {
    open spec fn obeys_from_spec() -> bool {
        true
    }

    open spec fn from_spec(id: FunctionId) -> Self {
        Callee::Real(id)
    }
}

/// An unconditional branch to a block of the same function.
#[derive(Debug)]
pub struct Branch {
    pub target: LocalBlockId,
    /// Arguments for the target's parameters.
    pub args: Vec<LocalValueId>,
}

/// A branch to a computed address.
#[derive(Clone, Copy, Debug, PartialEq, Eq, Structural, Hash)]
pub struct BranchInd {
    pub ptr: LocalValueId,
}

/// A transfer of control to another function's entry, which does not come
/// back. It has no successor within the function.
#[derive(Debug)]
pub struct TailCall {
    pub target: Callee,
    /// One value per callee input, in order.
    pub args: Vec<LocalValueId>,
}

/// The application of a pure lambda.
#[derive(Debug)]
pub struct Apply {
    pub target: Callee,
    /// One value per parameter of the lambda's entry block, in order.
    pub args: Vec<LocalValueId>,
}

/// How much of the callee's effect is explicit at a call site.
#[derive(Clone, Copy, Debug, PartialEq, Eq, Structural, Hash)]
pub enum CallTag {
    /// The call reads and writes the register file implicitly.
    Opaque,
    /// The register interface is explicit: the call neither reads nor writes
    /// register space.
    RegPure,
    /// Every effect is explicit, memory included.
    Pure,
}

impl Default for CallTag {
    fn default() -> (tag: Self)
        ensures
            tag == CallTag::Opaque,
    {
        CallTag::Opaque
    }
}

impl CallTag {
    /// Whether the register interface is explicit at this site.
    pub fn is_regpure(self) -> (b: bool)
        ensures
            b == (self is RegPure || self is Pure),
    {
        matches!(self, CallTag::RegPure | CallTag::Pure)
    }

    /// Whether the call is a fully pure operation.
    pub fn is_pure(self) -> (b: bool)
        ensures
            b == (self is Pure),
    {
        matches!(self, CallTag::Pure)
    }
}

/// A direct call.
#[derive(Debug)]
pub struct Call {
    pub target: Callee,
    /// One value per callee input, in order.
    pub args: Vec<LocalValueId>,
    /// The locations the call may write. They are definitions, not reads,
    /// and so no operands.
    pub clobbers: Vec<LocalValueId>,
    pub tag: CallTag,
}

/// A call through a computed address.
#[derive(Debug)]
pub struct CallInd {
    pub ptr: LocalValueId,
    pub args: Vec<LocalValueId>,
}

/// A conditional branch, each arm with its own arguments.
#[derive(Debug)]
pub struct CBranch {
    pub condition: LocalValueId,
    pub success_block: LocalBlockId,
    pub success_args: Vec<LocalValueId>,
    pub failure_block: LocalBlockId,
    pub failure_args: Vec<LocalValueId>,
}

/// One arm of a [`Switch`].
#[derive(Debug)]
pub struct SwitchArm {
    pub value: u64,
    pub target: LocalBlockId,
    pub args: Vec<LocalValueId>,
}

/// A multi-way dispatch on an integer.
#[derive(Debug)]
pub struct Switch {
    pub scrutinee: LocalValueId,
    pub cases: Vec<SwitchArm>,
    pub default: Option<LocalBlockId>,
    pub default_args: Vec<LocalValueId>,
}

/// A return to the address `ptr`, optionally with a value.
#[derive(Clone, Copy, Debug, PartialEq, Eq, Structural, Hash)]
pub struct Return {
    pub ptr: LocalValueId,
    pub value: Option<LocalValueId>,
}

/// A lambda's return.
#[derive(Clone, Copy, Debug, PartialEq, Eq, Structural, Hash)]
pub struct ReturnValue {
    pub value: LocalValueId,
}

/// Control flow reached bytes that do not decode: a terminator without
/// successors.
#[derive(Clone, Copy, Debug, PartialEq, Eq, Structural, Hash)]
pub struct BadInsn;

} // verus!
