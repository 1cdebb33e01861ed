//! The interface of a function: all that its callers may know of it.

use crate::function::effects::FunctionEffects;
use crate::function::signature::{FunctionSignature, ParamAttrs};
use vstd::prelude::*;

verus! {

/// What kind of function it is.
#[derive(Clone, Copy, Debug, PartialEq, Eq, Structural)]
pub enum FunctionKind {
    Machine,
    /// A pure function of its arguments.
    Lambda,
}

impl Default for FunctionKind {
    fn default() -> (kind: Self)
        ensures
            kind == FunctionKind::Machine,
    {
        FunctionKind::Machine
    }
}

/// A function, as its callers see it.
#[derive(Clone, Debug, PartialEq, Eq)]
pub struct FunctionInterface {
    pub name: String,
    /// The entry address.
    pub address: Option<u64>,
    /// Whether it is imported, and has no body.
    pub is_external: bool,
    pub signature: Option<FunctionSignature>,
    pub kind: FunctionKind,
    pub effects: FunctionEffects,
    /// The ordinal it was imported by, if by one.
    pub import_ordinal: Option<u16>,
}

impl FunctionInterface {
    /// An interface of which only the name is known.
    pub fn new(name: String) -> (interface: Self)
        ensures
            interface.name@ == name@,
            interface.address is None,
            !interface.is_external,
            interface.signature is None,
            interface.kind == FunctionKind::Machine,
            interface.effects.is_blank(),
            interface.import_ordinal is None,
    {
        FunctionInterface {
            name,
            address: None,
            is_external: false,
            signature: None,
            kind: FunctionKind::Machine,
            effects: FunctionEffects::default(),
            import_ordinal: None,
        }
    }

    pub fn address(&self) -> (address: Option<u64>)
        ensures
            address == self.address,
    {
        self.address
    }

    /// The attributes known of each argument.
    pub open spec fn known_attrs(&self) -> Option<Seq<ParamAttrs>> {
        match self.signature {
            Some(signature) => match signature.param_attrs {
                Some(attrs) => Some(attrs@),
                None => None,
            },
            None => None,
        }
    }

    /// The attributes known of the argument at `index`.
    pub fn param_attr(&self, index: usize) -> (attrs: Option<ParamAttrs>)
        ensures
            attrs == (match self.known_attrs() {
                Some(all) if index < all.len() => Some(all[index as int]),
                _ => None,
            }),
    {
        match &self.signature {
            Some(signature) => match &signature.param_attrs {
                Some(all) => if index < all.len() {
                    Some(all[index])
                } else {
                    None
                },
                None => None,
            },
            None => None,
        }
    }

    /// The names of the arguments that the external call interface lists.
    pub open spec fn extern_arg_name(&self, index: int) -> Option<Seq<char>> {
        match self.signature {
            Some(signature) => match signature.extern_interface {
                Some(interface) => if 0 <= index < interface.args@.len() {
                    match interface.args@[index].name {
                        Some(name) => Some(name@),
                        None => None,
                    }
                } else {
                    None
                },
                None => None,
            },
            None => None,
        }
    }

    /// The name of an argument in the external call interface.
    pub fn extern_name(&self, index: usize) -> (name: Option<&String>)
        ensures
            match self.extern_arg_name(index as int) {
                Some(text) => name matches Some(name) && name@ == text,
                None => name is None,
            },
    {
        match &self.signature {
            Some(signature) => match &signature.extern_interface {
                Some(interface) => if index < interface.args.len() {
                    match &interface.args[index].name {
                        Some(name) => Some(name),
                        None => None,
                    }
                } else {
                    None
                },
                None => None,
            },
            None => None,
        }
    }
}

} // verus!
