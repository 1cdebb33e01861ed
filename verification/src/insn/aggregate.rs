//! Aggregate construction and projection.

use crate::context::Context;
use crate::ids::FunctionId;
use crate::value::LocalValueId;
use vstd::prelude::*;

verus! {

/// Builds an aggregate value from its ordered fields.
#[derive(Debug)]
pub struct Tuple {
    pub fields: Vec<LocalValueId>,
}

/// Projects field `index` out of an aggregate value.
#[derive(Clone, Copy, Debug, PartialEq, Eq, Structural, Hash)]
pub struct Extract {
    pub agg: LocalValueId,
    pub index: usize,
}

/// The address of the field at byte `offset` of the struct that `base`
/// points at.
#[derive(Clone, Copy, Debug, PartialEq, Eq, Structural, Hash)]
pub struct Gep {
    pub base: LocalValueId,
    pub offset: usize,
}

impl Extract {
    /// The name of the field in `func`, by the type stored with the aggregate.
    pub fn field_name<'a>(&self, ctx: &'a Context, func: FunctionId) -> (name: Option<&'a String>)
        requires
            ctx.wf(),
            ctx.type_readable(self.agg.spec_qualify(func)),
        ensures
            match ctx.extract_field(self.agg.spec_qualify(func), self.index as int) {
                Some(text) => name matches Some(name) && name@ == text,
                None => name is None,
            },
    {
        ctx.extract_field_name(self.agg.qualify(func), self.index)
    }
}

impl Gep {
    /// The name of the field in `func`, by the type stored with the pointer.
    pub fn field_name<'a>(&self, ctx: &'a Context, func: FunctionId) -> (name: Option<&'a String>)
        requires
            ctx.wf(),
            ctx.pointee_readable(self.base.spec_qualify(func)),
        ensures
            match ctx.gep_field(self.base.spec_qualify(func), self.offset) {
                Some(text) => name matches Some(name) && name@ == text,
                None => name is None,
            },
    {
        ctx.gep_field_name(self.base.qualify(func), self.offset)
    }
}

} // verus!
