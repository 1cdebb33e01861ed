//! Values and the identifiers that name any of them.
//!
//! Every piece of the representation that an instruction can mention is a
//! value: a constant, an instruction result, a memory location, a basic
//! block or a function. [`ValueId`] names a value from anywhere in the
//! module. [`LocalValueId`] is what an operand inside a function's body
//! holds: its arena arms leave the function out, since an operand's function
//! is the one whose body it stands in.

use crate::ids::{
    pair_text, BlockId, BlockParamId, BytesId, FunctionId, InstructionId, LiteralId, LocalBlockId,
    LocalInsnId, LocalParamId, LocalTempId, PoisonId, TempId, VarnodeId,
};
use crate::segment::atoms::three;
use crate::text::{dec, decimal};
use vstd::prelude::*;

verus! {

/// A handle to any value of the module.
#[derive(Clone, Copy, Debug, PartialEq, Eq, Structural, Hash)]
pub enum ValueId {
    /// An integer constant, optionally carrying a symbolic label.
    Literal(LiteralId),
    /// An opaque byte string wider than a literal can hold.
    Bytes(BytesId),
    /// The result of an instruction.
    Instruction(InstructionId),
    /// A control-flow node.
    BasicBlock(BlockId),
    /// A typed parameter declared at the entry of a basic block.
    BlockParam(BlockParamId),
    /// A named memory location such as a register or global.
    Varnode(VarnodeId),
    /// A lifted or external function.
    Function(FunctionId),
    /// A scratch value of a function's body.
    Temp(TempId),
    /// A typed value whose bits are undefined.
    Poison(PoisonId),
}

/// A handle to a value from inside one function's body: the arena arms hold
/// a local index only.
#[derive(Clone, Copy, Debug, PartialEq, Eq, Structural, Hash)]
pub enum LocalValueId {
    Literal(LiteralId),
    Bytes(BytesId),
    Instruction(LocalInsnId),
    BasicBlock(LocalBlockId),
    BlockParam(LocalParamId),
    Varnode(VarnodeId),
    Function(FunctionId),
    Temp(LocalTempId),
    Poison(PoisonId),
}

impl LocalValueId {
    /// This value, seen from outside the body of `func`.
    pub open spec fn spec_qualify(self, func: FunctionId) -> ValueId {
        match self {
            LocalValueId::Literal(id) => ValueId::Literal(id),
            LocalValueId::Bytes(id) => ValueId::Bytes(id),
            LocalValueId::Varnode(id) => ValueId::Varnode(id),
            LocalValueId::Function(id) => ValueId::Function(id),
            LocalValueId::Poison(id) => ValueId::Poison(id),
            LocalValueId::Instruction(local) => ValueId::Instruction(InstructionId { func, local }),
            LocalValueId::BasicBlock(local) => ValueId::BasicBlock(BlockId { func, local }),
            LocalValueId::BlockParam(local) => ValueId::BlockParam(BlockParamId { func, local }),
            LocalValueId::Temp(local) => ValueId::Temp(TempId { func, local }),
        }
    }

    /// Stamps the owning function `func` onto the arena arms; the other arms
    /// pass through.
    pub fn qualify(self, func: FunctionId) -> (id: ValueId)
        ensures
            id == self.spec_qualify(func),
    {
        match self {
            LocalValueId::Literal(id) => ValueId::Literal(id),
            LocalValueId::Bytes(id) => ValueId::Bytes(id),
            LocalValueId::Varnode(id) => ValueId::Varnode(id),
            LocalValueId::Function(id) => ValueId::Function(id),
            LocalValueId::Poison(id) => ValueId::Poison(id),
            LocalValueId::Instruction(local) => {
                ValueId::Instruction(InstructionId::new(func, local))
            },
            LocalValueId::BasicBlock(local) => ValueId::BasicBlock(BlockId::new(func, local)),
            LocalValueId::BlockParam(local) => ValueId::BlockParam(BlockParamId::new(func, local)),
            LocalValueId::Temp(local) => ValueId::Temp(TempId::new(func, local)),
        }
    }
}

impl ValueId {
    /// The function whose arenas hold this value, if one does.
    pub open spec fn arena_function(self) -> Option<FunctionId> {
        match self {
            ValueId::Instruction(id) => Some(id.func),
            ValueId::BasicBlock(id) => Some(id.func),
            ValueId::BlockParam(id) => Some(id.func),
            ValueId::Temp(id) => Some(id.func),
            _ => None,
        }
    }

    /// Whether an operand inside the body of `func` may name this value: it
    /// is either shared by the whole module or one of that body's own.
    pub open spec fn is_local_to(self, func: FunctionId) -> bool {
        self.arena_function() is None || self.arena_function() == Some(func)
    }

    /// This value without the function that holds it.
    pub open spec fn stripped(self) -> LocalValueId {
        match self {
            ValueId::Literal(id) => LocalValueId::Literal(id),
            ValueId::Bytes(id) => LocalValueId::Bytes(id),
            ValueId::Varnode(id) => LocalValueId::Varnode(id),
            ValueId::Function(id) => LocalValueId::Function(id),
            ValueId::Poison(id) => LocalValueId::Poison(id),
            ValueId::Instruction(id) => LocalValueId::Instruction(id.local),
            ValueId::BasicBlock(id) => LocalValueId::BasicBlock(id.local),
            ValueId::BlockParam(id) => LocalValueId::BlockParam(id.local),
            ValueId::Temp(id) => LocalValueId::Temp(id.local),
        }
    }

    /// The kind of value, in words.
    pub fn ty(&self) -> (name: &'static str)
        ensures
            name@ == match *self {
                ValueId::Literal(_) => "Literal"@,
                ValueId::Bytes(_) => "Bytes"@,
                ValueId::Instruction(_) => "Instruction"@,
                ValueId::BasicBlock(_) => "BasicBlock"@,
                ValueId::BlockParam(_) => "BlockParam"@,
                ValueId::Varnode(_) => "Varnode"@,
                ValueId::Function(_) => "Function"@,
                ValueId::Temp(_) => "Temp"@,
                ValueId::Poison(_) => "Poison"@,
            },
    {
        match self {
            ValueId::Literal(_) => "Literal",
            ValueId::Bytes(_) => "Bytes",
            ValueId::Instruction(_) => "Instruction",
            ValueId::BasicBlock(_) => "BasicBlock",
            ValueId::BlockParam(_) => "BlockParam",
            ValueId::Varnode(_) => "Varnode",
            ValueId::Function(_) => "Function",
            ValueId::Temp(_) => "Temp",
            ValueId::Poison(_) => "Poison",
        }
    }

    /// The function whose body defines this value, if it is an SSA
    /// definition: an instruction result, a block parameter or a scratch
    /// value. Blocks and everything the module shares have none.
    pub fn owning_function(self) -> (func: Option<FunctionId>)
        ensures
            func == (if self is BasicBlock {
                None
            } else {
                self.arena_function()
            }),
    {
        match self {
            ValueId::Instruction(id) => Some(id.func),
            ValueId::BlockParam(id) => Some(id.func),
            ValueId::Temp(id) => Some(id.func),
            _ => None,
        }
    }

    /// The function whose name table owns this value's name, if any: that of
    /// an instruction, a block parameter, a block or a scratch value.
    /// Module-scoped values have none.
    pub fn name_scope_function(self) -> (func: Option<FunctionId>)
        ensures
            func == self.arena_function(),
    {
        match self {
            ValueId::Instruction(id) => Some(id.func),
            ValueId::BlockParam(id) => Some(id.func),
            ValueId::BasicBlock(id) => Some(id.func),
            ValueId::Temp(id) => Some(id.func),
            _ => None,
        }
    }

    pub fn as_literal(self) -> (id: Option<LiteralId>)
        ensures
            id == match self {
                ValueId::Literal(id) => Some(id),
                _ => None,
            },
    {
        if let ValueId::Literal(id) = self {
            Some(id)
        } else {
            None
        }
    }

    pub fn as_instruction(self) -> (id: Option<InstructionId>)
        ensures
            id == match self {
                ValueId::Instruction(id) => Some(id),
                _ => None,
            },
    {
        if let ValueId::Instruction(id) = self {
            Some(id)
        } else {
            None
        }
    }

    pub fn as_block(self) -> (id: Option<BlockId>)
        ensures
            id == match self {
                ValueId::BasicBlock(id) => Some(id),
                _ => None,
            },
    {
        if let ValueId::BasicBlock(id) = self {
            Some(id)
        } else {
            None
        }
    }

    pub fn as_block_param(self) -> (id: Option<BlockParamId>)
        ensures
            id == match self {
                ValueId::BlockParam(id) => Some(id),
                _ => None,
            },
    {
        if let ValueId::BlockParam(id) = self {
            Some(id)
        } else {
            None
        }
    }

    pub fn as_bytes(self) -> (id: Option<BytesId>)
        ensures
            id == match self {
                ValueId::Bytes(id) => Some(id),
                _ => None,
            },
    {
        if let ValueId::Bytes(id) = self {
            Some(id)
        } else {
            None
        }
    }

    pub fn is_varnode(self) -> (b: bool)
        ensures
            b == (self is Varnode),
    {
        matches!(self, ValueId::Varnode(_))
    }

    /// How the id itself is written: its kind and its index.
    pub open spec fn id_text(self) -> Seq<char> {
        match self {
            ValueId::Literal(id) => "Literal("@ + dec(id.0 as nat) + ")"@,
            ValueId::Bytes(id) => "Bytes("@ + dec(id.0 as nat) + ")"@,
            ValueId::Varnode(id) => "Varnode("@ + dec(id.0 as nat) + ")"@,
            ValueId::Function(id) => "Function("@ + dec(id.0 as nat) + ")"@,
            ValueId::Poison(id) => "Poison("@ + dec(id.0 as nat) + ")"@,
            ValueId::Instruction(id) => "Instruction("@ + pair_text(id.func, id.local.0) + ")"@,
            ValueId::BasicBlock(id) => "BasicBlock("@ + pair_text(id.func, id.local.0) + ")"@,
            ValueId::BlockParam(id) => "BlockParam("@ + pair_text(id.func, id.local.0) + ")"@,
            ValueId::Temp(id) => "Temp("@ + pair_text(id.func, id.local.0) + ")"@,
        }
    }

    /// How the id itself is written: its kind and its index.
    pub fn render(self) -> (text: String)
        ensures
            text@ == self.id_text(),
    {
        match self {
            ValueId::Literal(id) => three("Literal(", decimal(id.0 as u64).as_str(), ")"),
            ValueId::Bytes(id) => three("Bytes(", decimal(id.0 as u64).as_str(), ")"),
            ValueId::Varnode(id) => three("Varnode(", decimal(id.0 as u64).as_str(), ")"),
            ValueId::Function(id) => three("Function(", decimal(id.0 as u64).as_str(), ")"),
            ValueId::Poison(id) => three("Poison(", decimal(id.0 as u64).as_str(), ")"),
            ValueId::Instruction(id) => three("Instruction(", id.render().as_str(), ")"),
            ValueId::BasicBlock(id) => three("BasicBlock(", id.render().as_str(), ")"),
            ValueId::BlockParam(id) => three("BlockParam(", id.render().as_str(), ")"),
            ValueId::Temp(id) => three("Temp(", id.render().as_str(), ")"),
        }
    }

    pub fn is_poison(self) -> (b: bool)
        ensures
            b == (self is Poison),
    {
        matches!(self, ValueId::Poison(_))
    }

    pub fn as_varnode(self) -> (id: Option<VarnodeId>)
        ensures
            id == match self {
                ValueId::Varnode(id) => Some(id),
                _ => None,
            },
    {
        if let ValueId::Varnode(id) = self {
            Some(id)
        } else {
            None
        }
    }

    pub fn as_function(self) -> (id: Option<FunctionId>)
        ensures
            id == match self {
                ValueId::Function(id) => Some(id),
                _ => None,
            },
    {
        if let ValueId::Function(id) = self {
            Some(id)
        } else {
            None
        }
    }

    /// The key [`ValueId::order_key`] sorts by: the kind, the function (0
    /// for module-scoped values) and the index, which stops at `u32::MAX`.
    pub open spec fn spec_order_key(self) -> (u8, u32, u32) {
        match self {
            ValueId::Literal(id) => (0, 0, saturated(id.0)),
            ValueId::Bytes(id) => (1, 0, saturated(id.0)),
            ValueId::Varnode(id) => (2, 0, saturated(id.0)),
            ValueId::Function(id) => (3, 0, id.0),
            ValueId::Instruction(id) => (4, id.func.0, id.local.0),
            ValueId::BasicBlock(id) => (5, id.func.0, id.local.0),
            ValueId::BlockParam(id) => (6, id.func.0, id.local.0),
            ValueId::Temp(id) => (7, id.func.0, id.local.0),
            ValueId::Poison(id) => (8, 0, saturated(id.0)),
        }
    }

    /// A sort key: the kind's number, the function (0 for module-scoped
    /// values) and the local or global index.
    pub fn order_key(&self) -> (key: (u8, u32, u32))
        ensures
            key == self.spec_order_key(),
    {
        match *self {
            ValueId::Literal(id) => (0, 0, saturate(id.0)),
            ValueId::Bytes(id) => (1, 0, saturate(id.0)),
            ValueId::Varnode(id) => (2, 0, saturate(id.0)),
            ValueId::Function(id) => (3, 0, id.0),
            ValueId::Instruction(id) => (4, id.func.0, id.local.0),
            ValueId::BasicBlock(id) => (5, id.func.0, id.local.0),
            ValueId::BlockParam(id) => (6, id.func.0, id.local.0),
            ValueId::Temp(id) => (7, id.func.0, id.local.0),
            ValueId::Poison(id) => (8, 0, saturate(id.0)),
        }
    }

    /// This value for storage inside the body of `func`. A value of another
    /// function's arenas cannot be stored there.
    pub fn localize(self, func: FunctionId) -> (local: LocalValueId)
        requires
            self.is_local_to(func),
        ensures
            local == self.stripped(),
            local.spec_qualify(func) == self,
    {
        match self {
            ValueId::Literal(id) => LocalValueId::Literal(id),
            ValueId::Bytes(id) => LocalValueId::Bytes(id),
            ValueId::Varnode(id) => LocalValueId::Varnode(id),
            ValueId::Function(id) => LocalValueId::Function(id),
            ValueId::Poison(id) => LocalValueId::Poison(id),
            ValueId::Instruction(id) => LocalValueId::Instruction(id.localize(func)),
            ValueId::BasicBlock(id) => LocalValueId::BasicBlock(id.localize(func)),
            ValueId::BlockParam(id) => LocalValueId::BlockParam(id.localize(func)),
            ValueId::Temp(id) => LocalValueId::Temp(id.localize(func)),
        }
    }

    /// Drops the owning function without checking it against any other.
    pub fn strip_func(self) -> (local: LocalValueId)
        ensures
            local == self.stripped(),
    {
        match self {
            ValueId::Literal(id) => LocalValueId::Literal(id),
            ValueId::Bytes(id) => LocalValueId::Bytes(id),
            ValueId::Varnode(id) => LocalValueId::Varnode(id),
            ValueId::Function(id) => LocalValueId::Function(id),
            ValueId::Poison(id) => LocalValueId::Poison(id),
            ValueId::Instruction(id) => LocalValueId::Instruction(id.local),
            ValueId::BasicBlock(id) => LocalValueId::BasicBlock(id.local),
            ValueId::BlockParam(id) => LocalValueId::BlockParam(id.local),
            ValueId::Temp(id) => LocalValueId::Temp(id.local),
        }
    }
}

/// `index` as a `u32`, or `u32::MAX` where it does not fit.
pub open spec fn saturated(index: usize) -> u32 {
    if index > u32::MAX {
        u32::MAX
    } else {
        index as u32
    }
}

fn saturate(index: usize) -> (r: u32)
    ensures
        r == saturated(index),
{
    if index > u32::MAX as usize {
        u32::MAX
    } else {
        index as u32
    }
}

/// Localizing a value for a function's body and qualifying it again gives
/// the value back; a value the module shares comes back whatever function it
/// is qualified with.
pub proof fn law_localize_then_qualify(id: ValueId, func: FunctionId, other: FunctionId)
    requires
        id.is_local_to(func),
    ensures
        id.stripped().spec_qualify(func) == id,
        id.arena_function() is None ==> id.stripped().spec_qualify(other) == id,
{
}

/// Qualifying a body's value and localizing it again gives the value back.
pub proof fn law_qualify_then_localize(local: LocalValueId, func: FunctionId)
    ensures
        local.spec_qualify(func).is_local_to(func),
        local.spec_qualify(func).stripped() == local,
{
}

/// Within one body, dropping the function loses nothing: two values that may
/// stand in the body and agree once stripped are the same value.
pub proof fn law_strip_is_injective_within_a_body(a: ValueId, b: ValueId, func: FunctionId)
    requires
        a.is_local_to(func),
        b.is_local_to(func),
        a.stripped() == b.stripped(),
    ensures
        a == b,
{
}

/// Values whose indices fit in 32 bits are told apart by their sort keys.
pub proof fn law_order_key_is_injective(a: ValueId, b: ValueId)
    requires
        a.spec_order_key() == b.spec_order_key(),
        a.spec_order_key().2 < u32::MAX,
    ensures
        a == b,
{
}

impl From<LiteralId> for ValueId {
    fn from(id: LiteralId) -> (value: Self) {
        ValueId::Literal(id)
    }
}

impl vstd::std_specs::convert::FromSpecImpl<LiteralId> for ValueId {
    open spec fn obeys_from_spec() -> bool {
        true
    }

    open spec fn from_spec(id: LiteralId) -> Self {
        ValueId::Literal(id)
    }
}

impl From<BytesId> for ValueId {
    fn from(id: BytesId) -> (value: Self) {
        ValueId::Bytes(id)
    }
}

impl vstd::std_specs::convert::FromSpecImpl<BytesId> for ValueId {
    open spec fn obeys_from_spec() -> bool {
        true
    }

    open spec fn from_spec(id: BytesId) -> Self {
        ValueId::Bytes(id)
    }
}

impl From<InstructionId> for ValueId {
    fn from(id: InstructionId) -> (value: Self) {
        ValueId::Instruction(id)
    }
}

impl vstd::std_specs::convert::FromSpecImpl<InstructionId> for ValueId {
    open spec fn obeys_from_spec() -> bool {
        true
    }

    open spec fn from_spec(id: InstructionId) -> Self {
        ValueId::Instruction(id)
    }
}

impl From<BlockId> for ValueId {
    fn from(id: BlockId) -> (value: Self) {
        ValueId::BasicBlock(id)
    }
}

impl vstd::std_specs::convert::FromSpecImpl<BlockId> for ValueId {
    open spec fn obeys_from_spec() -> bool {
        true
    }

    open spec fn from_spec(id: BlockId) -> Self {
        ValueId::BasicBlock(id)
    }
}

impl From<BlockParamId> for ValueId {
    fn from(id: BlockParamId) -> (value: Self) {
        ValueId::BlockParam(id)
    }
}

impl vstd::std_specs::convert::FromSpecImpl<BlockParamId> for ValueId {
    open spec fn obeys_from_spec() -> bool {
        true
    }

    open spec fn from_spec(id: BlockParamId) -> Self {
        ValueId::BlockParam(id)
    }
}

impl From<VarnodeId> for ValueId {
    fn from(id: VarnodeId) -> (value: Self) {
        ValueId::Varnode(id)
    }
}

impl vstd::std_specs::convert::FromSpecImpl<VarnodeId> for ValueId {
    open spec fn obeys_from_spec() -> bool {
        true
    }

    open spec fn from_spec(id: VarnodeId) -> Self {
        ValueId::Varnode(id)
    }
}

impl From<FunctionId> for ValueId {
    fn from(id: FunctionId) -> (value: Self) {
        ValueId::Function(id)
    }
}

impl vstd::std_specs::convert::FromSpecImpl<FunctionId> for ValueId {
    open spec fn obeys_from_spec() -> bool {
        true
    }

    open spec fn from_spec(id: FunctionId) -> Self {
        ValueId::Function(id)
    }
}

impl From<TempId> for ValueId {
    fn from(id: TempId) -> (value: Self) {
        ValueId::Temp(id)
    }
}

impl vstd::std_specs::convert::FromSpecImpl<TempId> for ValueId {
    open spec fn obeys_from_spec() -> bool {
        true
    }

    open spec fn from_spec(id: TempId) -> Self {
        ValueId::Temp(id)
    }
}

impl From<PoisonId> for ValueId {
    fn from(id: PoisonId) -> (value: Self) {
        ValueId::Poison(id)
    }
}

impl vstd::std_specs::convert::FromSpecImpl<PoisonId> for ValueId {
    open spec fn obeys_from_spec() -> bool {
        true
    }

    open spec fn from_spec(id: PoisonId) -> Self {
        ValueId::Poison(id)
    }
}

} // verus!
