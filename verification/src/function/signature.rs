//! The calling interface of a function.

use crate::ids::VarnodeId;
use vstd::prelude::*;

verus! {

/// What is known of a pointer parameter. Neither fact implies the other.
#[derive(Clone, Copy, Debug, PartialEq, Eq, Structural)]
pub struct ParamAttrs {
    /// The callee does not write through the pointer during the call.
    pub readonly: bool,
    /// The callee does not keep the pointer beyond the call, except by
    /// returning it.
    pub nocapture: bool,
}

impl Default for ParamAttrs {
    /// Nothing is known.
    fn default() -> (attrs: Self)
        ensures
            attrs == (ParamAttrs { readonly: false, nocapture: false }),
    {
        ParamAttrs { readonly: false, nocapture: false }
    }
}

impl ParamAttrs {
    /// Everything is claimed: where an inference starts from.
    pub fn optimistic() -> (attrs: Self)
        ensures
            attrs == (ParamAttrs { readonly: true, nocapture: true }),
    {
        ParamAttrs { readonly: true, nocapture: true }
    }
}

/// Where an argument of an external call is loaded from.
#[derive(Clone, Copy, Debug, PartialEq, Eq, Structural)]
pub enum ExternSlot {
    /// A register, and the width in bytes.
    Reg(VarnodeId, usize),
    /// `offset` bytes above the stack pointer at the call.
    Stack { offset: i64, size: usize },
}

/// A positional argument of an external call.
#[derive(Clone, Debug, PartialEq, Eq)]
pub struct ExternArg {
    pub slot: ExternSlot,
    pub name: Option<String>,
    pub attrs: ParamAttrs,
}

/// What an external may do to memory through one of its parameters.
#[derive(Clone, Copy, Debug, PartialEq, Eq, Structural)]
pub enum ArgMemKind {
    /// Nothing: it is no pointer.
    NonPtr,
    /// Read and write the object.
    MutPtr,
    /// Read the object.
    ConstPtr,
    /// Anything.
    Opaque,
    /// Write the object, without reading it first.
    OutPtr,
}

/// What an external may do to memory through its parameters.
#[derive(Clone, Debug, PartialEq, Eq)]
pub struct ExternArgmem {
    /// One kind per parameter.
    pub params: Vec<ArgMemKind>,
    /// Whether it takes more arguments than it names.
    pub variadic: bool,
}

/// The arguments of an external, in order.
#[derive(Clone, Debug, PartialEq, Eq)]
pub struct ExternInterface {
    pub args: Vec<ExternArg>,
}

/// What is known of how a function is called. What is absent is not known.
#[derive(Clone, Debug, PartialEq, Eq)]
pub struct FunctionSignature {
    /// It may read the caller's stack where no bound is known.
    pub reads_unbounded_stack: bool,
    /// It hands a pointer into its own frame to a callee that may read it
    /// where no bound is known.
    pub frame_escapes_to_unbounded: bool,
    /// What it returns depends on its arguments alone.
    pub is_pure: bool,
    /// One entry per positional argument; a missing one claims nothing.
    pub param_attrs: Option<Vec<ParamAttrs>>,
    pub extern_interface: Option<ExternInterface>,
    pub argmem: Option<ExternArgmem>,
}

impl FunctionSignature {
    /// Whether nothing is known.
    pub open spec fn is_blank(&self) -> bool {
        &&& !self.reads_unbounded_stack
        &&& !self.frame_escapes_to_unbounded
        &&& !self.is_pure
        &&& self.param_attrs is None
        &&& self.extern_interface is None
        &&& self.argmem is None
    }
}

impl Default for FunctionSignature {
    fn default() -> (signature: Self)
        ensures
            signature.is_blank(),
    {
        FunctionSignature {
            reads_unbounded_stack: false,
            frame_escapes_to_unbounded: false,
            is_pure: false,
            param_attrs: None,
            extern_interface: None,
            argmem: None,
        }
    }
}

} // verus!
