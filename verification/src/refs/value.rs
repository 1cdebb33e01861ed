//! Any value of a module.

use crate::body::Temp;
use crate::constants::{Bytes, Poison};
use crate::context::{Context, Shared, Varnode};
use crate::function::refs::FunctionRef;
use crate::ids::{BytesId, LiteralId, PoisonId, TempId, TypeId, VarnodeId};
use crate::literal::{low_bytes, mask_of_size, Literal};
use crate::refs::block::BlockRef;
use crate::refs::insn::InstructionRef;
use crate::refs::param::BlockParamRef;
use crate::segment::line::value_line;
use crate::segment::render::{value_renders, value_tokens};
use crate::segment::{join, joined};
use crate::space::MemorySpaceId;
use crate::types::{type_size, TypeView};
use crate::value::ValueId;
use vstd::arithmetic::power2::pow2;
use vstd::prelude::*;

verus! {

/// A literal.
#[derive(Clone, Copy)]
pub struct LiteralRef<'a> {
    pub ctx: &'a Shared,
    pub id: LiteralId,
}

impl<'a> LiteralRef<'a> {
    /// Whether there is such a literal, of a type that there is.
    pub open spec fn wf(&self) -> bool {
        self.ctx.wf() && self.ctx.literals.has(self.id) && self.ctx.types.has(self.rec().type_id)
    }

    /// The record of the literal.
    pub open spec fn rec(&self) -> Literal {
        self.ctx.literals@[self.id.0 as int]
    }

    /// The width of the literal in bytes.
    pub open spec fn width(&self) -> int {
        type_size(self.ctx.types@, self.rec().type_id.0 as int)
    }

    pub fn from_id(ctx: &'a Shared, id: LiteralId) -> (r: Self)
        ensures
            r.ctx == ctx,
            r.id == id,
    {
        LiteralRef { ctx, id }
    }

    /// The mask of the bytes that the literal has.
    pub fn mask(&self) -> (mask: u64)
        requires
            self.wf(),
        ensures
            self.width() >= 8 ==> mask == u64::MAX,
            self.width() < 8 ==> mask == pow2((self.width() * 8) as nat) - 1,
    {
        let size: usize = self.ctx.types.size_of(self.ctx.literals.get(self.id).type_id);
        mask_of_size(size)
    }

    /// The number, as wide as the literal.
    pub fn value(&self) -> (value: u64)
        requires
            self.wf(),
        ensures
            value == low_bytes(self.rec().value, self.width() as usize),
    {
        let literal = self.ctx.literals.get(self.id);
        let size: usize = self.ctx.types.size_of(literal.type_id);
        literal.value & mask_of_size(size)
    }

    pub fn type_id(&self) -> (type_id: TypeId)
        requires
            self.ctx.literals.has(self.id),
        ensures
            type_id == self.rec().type_id,
    {
        self.ctx.literals.get(self.id).type_id
    }
}

/// Bytes.
#[derive(Clone, Copy)]
pub struct BytesRef<'a> {
    pub ctx: &'a Shared,
    pub id: BytesId,
}

impl<'a> BytesRef<'a> {
    pub fn data(&self) -> (data: &'a Vec<u8>)
        requires
            self.ctx.bytes.has(self.id),
        ensures
            *data == self.ctx.bytes.at(self.id).data,
    {
        &self.ctx.bytes.get(self.id).data
    }

    pub fn type_id(&self) -> (type_id: TypeId)
        requires
            self.ctx.bytes.has(self.id),
        ensures
            type_id == self.ctx.bytes.at(self.id).type_id,
    {
        self.ctx.bytes.get(self.id).type_id
    }
}

/// An undefined value.
#[derive(Clone, Copy)]
pub struct PoisonRef<'a> {
    pub ctx: &'a Shared,
    pub id: PoisonId,
}

impl<'a> PoisonRef<'a> {
    pub fn type_id(&self) -> (type_id: TypeId)
        requires
            self.ctx.poisons.has(self.id),
        ensures
            type_id == self.ctx.poisons.at(self.id).type_id,
    {
        self.ctx.poisons.get(self.id).type_id
    }
}

/// A storage location.
#[derive(Clone, Copy)]
pub struct VarnodeRef<'a> {
    pub ctx: &'a Shared,
    pub id: VarnodeId,
}

/// A scratch value.
#[derive(Clone, Copy)]
pub struct TempRef<'a> {
    pub ctx: &'a Context,
    pub id: TempId,
}

/// Any value of a module.
#[derive(Clone, Copy)]
pub enum ValueRef<'a> {
    Literal(LiteralRef<'a>),
    Bytes(BytesRef<'a>),
    Instruction(InstructionRef<'a>),
    BasicBlock(BlockRef<'a>),
    BlockParam(BlockParamRef<'a>),
    Varnode(VarnodeRef<'a>),
    Function(FunctionRef<'a>),
    Poison(PoisonRef<'a>),
    Temp(TempRef<'a>),
}

/// The width of a value in bytes; blocks and functions have none.
pub open spec fn value_size(c: Context, id: ValueId) -> int {
    match id {
        ValueId::Bytes(b) => c.shared.bytes.at(b).data@.len() as int,
        ValueId::Varnode(v) => c.shared.varnodes.at(v).size as int,
        ValueId::Temp(t) => c.body_of(t.func).temps@[t.local.0 as int].size as int,
        ValueId::BasicBlock(_) | ValueId::Function(_) => 0,
        _ => match c.stored_type(id) {
            Some(ty) => type_size(c.shared.types@, ty.0 as int),
            None => 0,
        },
    }
}

/// The space that a value is in, or points into.
pub open spec fn value_space(c: Context, id: ValueId) -> Option<MemorySpaceId> {
    match id {
        ValueId::Varnode(v) => Some(MemorySpaceId::Shared(c.shared.varnodes.at(v).space)),
        ValueId::Instruction(i) => match c.shared.types@[c.body_of(i.func).insn_rec(
            i.local,
        ).type_id.0 as int] {
            TypeView::SpaceAddress { size, space } => Some(space),
            _ => None,
        },
        _ => None,
    }
}

impl<'a> ValueRef<'a> {
    /// The value that this refers to.
    pub open spec fn target(&self) -> ValueId {
        match *self {
            ValueRef::Literal(r) => ValueId::Literal(r.id),
            ValueRef::Bytes(r) => ValueId::Bytes(r.id),
            ValueRef::Instruction(r) => ValueId::Instruction(r.id),
            ValueRef::BasicBlock(r) => ValueId::BasicBlock(r.id),
            ValueRef::BlockParam(r) => ValueId::BlockParam(r.id),
            ValueRef::Varnode(r) => ValueId::Varnode(r.id),
            ValueRef::Function(r) => ValueId::Function(r.id),
            ValueRef::Poison(r) => ValueId::Poison(r.id),
            ValueRef::Temp(r) => ValueId::Temp(r.id),
        }
    }

    /// Whether this refers to a value of `ctx`.
    pub open spec fn of(&self, ctx: &Context) -> bool {
        match *self {
            ValueRef::Literal(r) => r.ctx == &ctx.shared,
            ValueRef::Bytes(r) => r.ctx == &ctx.shared,
            ValueRef::Instruction(r) => r.ctx == ctx,
            ValueRef::BasicBlock(r) => r.ctx == ctx,
            ValueRef::BlockParam(r) => r.ctx == ctx,
            ValueRef::Varnode(r) => r.ctx == &ctx.shared,
            ValueRef::Function(r) => r.ctx == ctx,
            ValueRef::Poison(r) => r.ctx == &ctx.shared,
            ValueRef::Temp(r) => r.ctx == ctx,
        }
    }

    pub fn new(id: ValueId, ctx: &'a Context) -> (r: Self)
        ensures
            r.target() == id,
            r.of(ctx),
    {
        match id {
            ValueId::Literal(id) => ValueRef::Literal(LiteralRef { ctx: &ctx.shared, id }),
            ValueId::Bytes(id) => ValueRef::Bytes(BytesRef { ctx: &ctx.shared, id }),
            ValueId::Instruction(id) => ValueRef::Instruction(InstructionRef { ctx, id }),
            ValueId::BasicBlock(id) => ValueRef::BasicBlock(BlockRef { ctx, id }),
            ValueId::BlockParam(id) => ValueRef::BlockParam(BlockParamRef { ctx, id }),
            ValueId::Varnode(id) => ValueRef::Varnode(VarnodeRef { ctx: &ctx.shared, id }),
            ValueId::Function(id) => ValueRef::Function(FunctionRef { ctx, id }),
            ValueId::Poison(id) => ValueRef::Poison(PoisonRef { ctx: &ctx.shared, id }),
            ValueId::Temp(id) => ValueRef::Temp(TempRef { ctx, id }),
        }
    }

    pub fn from_id(ctx: &'a Context, id: ValueId) -> (r: Self)
        ensures
            r.target() == id,
            r.of(ctx),
    {
        ValueRef::new(id, ctx)
    }

    pub fn id(&self) -> (id: ValueId)
        ensures
            id == self.target(),
    {
        match self {
            ValueRef::Literal(r) => ValueId::Literal(r.id),
            ValueRef::Bytes(r) => ValueId::Bytes(r.id),
            ValueRef::Instruction(r) => ValueId::Instruction(r.id),
            ValueRef::BasicBlock(r) => ValueId::BasicBlock(r.id),
            ValueRef::BlockParam(r) => ValueId::BlockParam(r.id),
            ValueRef::Varnode(r) => ValueId::Varnode(r.id),
            ValueRef::Function(r) => ValueId::Function(r.id),
            ValueRef::Poison(r) => ValueId::Poison(r.id),
            ValueRef::Temp(r) => ValueId::Temp(r.id),
        }
    }

    /// The space that the value is in, or points into.
    pub fn space(&self) -> (space: Option<MemorySpaceId>)
        requires
            self.readable(),
        ensures
            forall|ctx: &Context| #[trigger] self.of(ctx) ==> space == value_space(*ctx, self.target()),
    {
        match self {
            ValueRef::Varnode(r) => Some(MemorySpaceId::Shared(r.ctx.varnodes.get(r.id).space)),
            ValueRef::Instruction(r) => r.space(),
            _ => None,
        }
    }
}

/// What all references to a value offer.
pub trait Value {
    /// The value that this refers to.
    spec fn value_id(&self) -> ValueId;

    /// Whether the value and its type are there.
    spec fn readable(&self) -> bool;

    /// The width of the value in bytes.
    spec fn spec_size(&self) -> int;

    fn id(&self) -> (id: ValueId)
        ensures
            id == self.value_id(),
    ;

    /// The width of the value in bytes; 0 for blocks and functions.
    fn size(&self) -> (size: usize)
        requires
            self.readable(),
        ensures
            size == self.spec_size(),
    ;
}

impl<'a> Value for LiteralRef<'a> {
    open spec fn value_id(&self) -> ValueId {
        ValueId::Literal(self.id)
    }

    open spec fn readable(&self) -> bool {
        self.wf()
    }

    open spec fn spec_size(&self) -> int {
        self.width()
    }

    fn id(&self) -> (id: ValueId) {
        ValueId::Literal(self.id)
    }

    fn size(&self) -> (size: usize) {
        self.ctx.types.size_of(self.ctx.literals.get(self.id).type_id)
    }
}

impl<'a> Value for BytesRef<'a> {
    open spec fn value_id(&self) -> ValueId {
        ValueId::Bytes(self.id)
    }

    open spec fn readable(&self) -> bool {
        self.ctx.bytes.has(self.id)
    }

    open spec fn spec_size(&self) -> int {
        self.ctx.bytes.at(self.id).data@.len() as int
    }

    fn id(&self) -> (id: ValueId) {
        ValueId::Bytes(self.id)
    }

    fn size(&self) -> (size: usize) {
        self.ctx.bytes.get(self.id).data.len()
    }
}

impl<'a> Value for PoisonRef<'a> {
    open spec fn value_id(&self) -> ValueId {
        ValueId::Poison(self.id)
    }

    open spec fn readable(&self) -> bool {
        self.ctx.wf() && self.ctx.poisons.has(self.id) && self.ctx.types.has(
            self.ctx.poisons.at(self.id).type_id,
        )
    }

    open spec fn spec_size(&self) -> int {
        type_size(self.ctx.types@, self.ctx.poisons.at(self.id).type_id.0 as int)
    }

    fn id(&self) -> (id: ValueId) {
        ValueId::Poison(self.id)
    }

    fn size(&self) -> (size: usize) {
        self.ctx.types.size_of(self.type_id())
    }
}

impl<'a> Value for VarnodeRef<'a> {
    open spec fn value_id(&self) -> ValueId {
        ValueId::Varnode(self.id)
    }

    open spec fn readable(&self) -> bool {
        self.ctx.varnodes.has(self.id)
    }

    open spec fn spec_size(&self) -> int {
        self.ctx.varnodes.at(self.id).size as int
    }

    fn id(&self) -> (id: ValueId) {
        ValueId::Varnode(self.id)
    }

    fn size(&self) -> (size: usize) {
        self.ctx.varnodes.get(self.id).size
    }
}

impl<'a> Value for TempRef<'a> {
    open spec fn value_id(&self) -> ValueId {
        ValueId::Temp(self.id)
    }

    open spec fn readable(&self) -> bool {
        self.ctx.wf() && self.ctx.has_function(self.id.func) && self.id.local.0 < self.ctx.body_of(
            self.id.func,
        ).temps@.len()
    }

    open spec fn spec_size(&self) -> int {
        self.ctx.body_of(self.id.func).temps@[self.id.local.0 as int].size as int
    }

    fn id(&self) -> (id: ValueId) {
        ValueId::Temp(self.id)
    }

    fn size(&self) -> (size: usize) {
        self.ctx.bodies[self.id.func.0 as usize].temps[self.id.local.0 as usize].size
    }
}

impl<'a> Value for InstructionRef<'a> {
    open spec fn value_id(&self) -> ValueId {
        ValueId::Instruction(self.id)
    }

    open spec fn readable(&self) -> bool {
        self.wf() && self.ctx.shared.types.has(self.rec().type_id)
    }

    open spec fn spec_size(&self) -> int {
        type_size(self.ctx.shared.types@, self.rec().type_id.0 as int)
    }

    fn id(&self) -> (id: ValueId) {
        ValueId::Instruction(self.id)
    }

    fn size(&self) -> (size: usize) {
        InstructionRef::size(self)
    }
}

impl<'a> Value for BlockParamRef<'a> {
    open spec fn value_id(&self) -> ValueId {
        ValueId::BlockParam(self.id)
    }

    open spec fn readable(&self) -> bool {
        self.wf() && self.ctx.shared.types.has(self.rec().type_id)
    }

    open spec fn spec_size(&self) -> int {
        type_size(self.ctx.shared.types@, self.rec().type_id.0 as int)
    }

    fn id(&self) -> (id: ValueId) {
        ValueId::BlockParam(self.id)
    }

    fn size(&self) -> (size: usize) {
        BlockParamRef::size(self)
    }
}

impl<'a> Value for BlockRef<'a> {
    open spec fn value_id(&self) -> ValueId {
        ValueId::BasicBlock(self.id)
    }

    open spec fn readable(&self) -> bool {
        true
    }

    open spec fn spec_size(&self) -> int {
        0
    }

    fn id(&self) -> (id: ValueId) {
        ValueId::BasicBlock(self.id)
    }

    fn size(&self) -> (size: usize) {
        0
    }
}

impl<'a> Value for FunctionRef<'a> {
    open spec fn value_id(&self) -> ValueId {
        ValueId::Function(self.id)
    }

    open spec fn readable(&self) -> bool {
        true
    }

    open spec fn spec_size(&self) -> int {
        0
    }

    fn id(&self) -> (id: ValueId) {
        ValueId::Function(self.id)
    }

    fn size(&self) -> (size: usize) {
        0
    }
}

impl<'a> Value for ValueRef<'a> {
    open spec fn value_id(&self) -> ValueId {
        self.target()
    }

    open spec fn readable(&self) -> bool {
        match *self {
            ValueRef::Literal(r) => r.readable(),
            ValueRef::Bytes(r) => r.readable(),
            ValueRef::Instruction(r) => r.readable(),
            ValueRef::BasicBlock(r) => r.readable(),
            ValueRef::BlockParam(r) => r.readable(),
            ValueRef::Varnode(r) => r.readable(),
            ValueRef::Function(r) => r.readable(),
            ValueRef::Poison(r) => r.readable(),
            ValueRef::Temp(r) => r.readable(),
        }
    }

    open spec fn spec_size(&self) -> int {
        match *self {
            ValueRef::Literal(r) => r.spec_size(),
            ValueRef::Bytes(r) => r.spec_size(),
            ValueRef::Instruction(r) => r.spec_size(),
            ValueRef::BasicBlock(r) => r.spec_size(),
            ValueRef::BlockParam(r) => r.spec_size(),
            ValueRef::Varnode(r) => r.spec_size(),
            ValueRef::Function(r) => r.spec_size(),
            ValueRef::Poison(r) => r.spec_size(),
            ValueRef::Temp(r) => r.spec_size(),
        }
    }

    fn id(&self) -> (id: ValueId) {
        ValueRef::id(self)
    }

    fn size(&self) -> (size: usize) {
        match self {
            ValueRef::Literal(r) => Value::size(r),
            ValueRef::Bytes(r) => Value::size(r),
            ValueRef::Instruction(r) => Value::size(r),
            ValueRef::BasicBlock(r) => Value::size(r),
            ValueRef::BlockParam(r) => Value::size(r),
            ValueRef::Varnode(r) => Value::size(r),
            ValueRef::Function(r) => Value::size(r),
            ValueRef::Poison(r) => Value::size(r),
            ValueRef::Temp(r) => Value::size(r),
        }
    }
}

/// The width of a value is that of the reference to it.
pub proof fn law_a_reference_has_the_width_of_its_value(ctx: &Context, r: ValueRef<'_>)
    requires
        r.of(ctx),
    ensures
        r.spec_size() == value_size(*ctx, r.target()),
{
}

impl Context {
    /// The width of a value in bytes; 0 for blocks and functions.
    pub fn size_of_value(&self, id: ValueId) -> (size: usize)
        requires
            self.wf(),
            self.type_readable(id),
        ensures
            size == value_size(*self, id),
    {
        match id {
            ValueId::Bytes(b) => self.shared.bytes.get(b).data.len(),
            ValueId::Varnode(v) => self.shared.varnodes.get(v).size,
            ValueId::Temp(t) => self.bodies[t.func.0 as usize].temps[t.local.0 as usize].size,
            ValueId::BasicBlock(_) | ValueId::Function(_) => 0,
            _ => match self.stored_type_of(id) {
                Some(ty) => self.shared.types.size_of(ty),
                None => 0,
            },
        }
    }

    /// The space that a storage location is in, or that the result of an
    /// instruction points into.
    pub fn space_of_value(&self, id: ValueId) -> (space: Option<MemorySpaceId>)
        requires
            self.wf(),
            self.type_readable(id),
        ensures
            space == value_space(*self, id),
    {
        match id {
            ValueId::Varnode(v) => Some(MemorySpaceId::Shared(self.shared.varnodes.get(v).space)),
            ValueId::Instruction(i) => self.shared.types.space_of(
                self.bodies[i.func.0 as usize].insns.get(i.local.0).type_id,
            ),
            _ => None,
        }
    }

    /// The text of a value: that of its tokens, one after the other.
    pub fn value_display(&self, id: ValueId) -> (text: String)
        requires
            self.wf(),
            value_renders(*self, None, id),
        ensures
            forall|d: nat|
                (#[trigger] value_line(*self, None, id, d)).ok ==> text@ == joined(
                    value_line(*self, None, id, d).tokens,
                    value_line(*self, None, id, d).tokens.len() as int,
                ),
    {
        let tokens = value_tokens(self, id);
        join(&tokens)
    }

    /// The number of a literal without a symbolic meaning.
    pub fn const_u64(&self, id: ValueId) -> (value: Option<u64>)
        requires
            self.wf(),
            self.type_readable(id),
        ensures
            value == (match id {
                ValueId::Literal(l) => if self.shared.literals@[l.0 as int].symbolic is None {
                    Some(
                        low_bytes(
                            self.shared.literals@[l.0 as int].value,
                            value_size(*self, id) as usize,
                        ) as u64,
                    )
                } else {
                    None
                },
                _ => None,
            }),
    {
        match id {
            ValueId::Literal(l) => {
                if self.shared.literals.get(l).symbolic.is_some() {
                    return None;
                }
                let r = LiteralRef { ctx: &self.shared, id: l };
                Some(r.value())
            },
            _ => None,
        }
    }

    /// The operands of the integer operation `want`, where that is what makes
    /// the value.
    pub fn as_int_binop(&self, id: ValueId, want: crate::insn::binop::IntBinop) -> (operands: Option<
        (ValueId, ValueId),
    >)
        requires
            self.wf(),
            self.has_value(id),
        ensures
            operands == (match id {
                ValueId::Instruction(i) => match self.body_of(i.func).insn_rec(i.local).mnemonic {
                    crate::insn::mnemonic::Mnemonic::Binop(b) => if b.op
                        == crate::insn::binop::Binop::Int(want) {
                        Some((b.lhs.spec_qualify(i.func), b.rhs.spec_qualify(i.func)))
                    } else {
                        None
                    },
                    _ => None,
                },
                _ => None,
            }),
    {
        match id {
            ValueId::Instruction(i) => match &self.bodies[i.func.0 as usize].insns.get(
                i.local.0,
            ).mnemonic {
                crate::insn::mnemonic::Mnemonic::Binop(b) => {
                    if b.op == crate::insn::binop::Binop::Int(want) {
                        Some((b.lhs.qualify(i.func), b.rhs.qualify(i.func)))
                    } else {
                        None
                    }
                },
                _ => None,
            },
            _ => None,
        }
    }

    /// A new undefined value of the type `type_id`, unlike any other.
    pub fn get_poison(&mut self, type_id: TypeId) -> (id: ValueId)
        requires
            old(self).wf(),
            old(self).shared.poisons@.len() < usize::MAX,
        ensures
            final(self).wf(),
            id == ValueId::Poison(PoisonId(old(self).shared.poisons@.len() as usize)),
            final(self).shared.poisons@ == old(self).shared.poisons@.push(Poison { type_id }),
            *final(self) == (Context { shared: final(self).shared, ..*old(self) }),
            final(self).shared == (Shared {
                poisons: final(self).shared.poisons,
                ..old(self).shared
            }),
            !old(self).has_value(id),
            final(self).has_value(id),
    {
        let ghost before = *self;
        let id = self.shared.poisons.push(Poison { type_id });
        proof {
            assert forall|g: int| 0 <= g < self.bodies@.len() implies #[trigger] self.body_ok(
                g,
            ) by {
                assert(before.body_ok(g));
            }
        }
        ValueId::Poison(id)
    }
}

} // verus!
