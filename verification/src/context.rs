//! The module: its functions, and what they share.

use crate::body::FunctionBody;
use crate::constants::{Bytes, Poison};
use crate::function::interface::FunctionInterface;
use crate::ids::{
    BlockId, BlockParamId, BytesId, FunctionId, InstructionId, PoisonId, SpaceId, TempId, TypeId,
    VarnodeId,
};
use crate::insn::intrinsic::IntrinsicTable;
use crate::interner::Interner;
use crate::literal::LiteralInterner;
use crate::names::{LocalNames, Name};
use crate::types::{lemma_size_stable, type_size, TypeManager};
use crate::value::ValueId;
use vstd::prelude::*;

verus! {

/// A memory space that the module shares.
#[derive(Debug)]
pub struct Space {
    pub name: Option<String>,
    /// Whether the space holds the registers.
    pub is_register: bool,
    /// The size of an addressable unit in bytes.
    pub word_size: usize,
    /// The width of an address in bytes.
    pub addr_size: usize,
}

/// A storage location of the machine, such as a register.
#[derive(Debug)]
pub struct Varnode {
    /// How it is written.
    pub name: String,
    pub space: SpaceId,
    /// The width in bytes.
    pub size: usize,
    /// The type it was given, if one was.
    pub type_id: Option<TypeId>,
}

/// What all functions of a module share.
pub struct Shared {
    pub types: TypeManager,
    pub literals: LiteralInterner,
    pub bytes: Interner<BytesId, Bytes>,
    pub poisons: Interner<PoisonId, Poison>,
    pub varnodes: Interner<VarnodeId, Varnode>,
    pub spaces: Interner<SpaceId, Space>,
    /// The names of the machine's own operations.
    pub pcode_ops: Vec<String>,
    pub intrinsics: IntrinsicTable,
    /// The values that no function holds, by name.
    pub name_map: LocalNames<ValueId>,
}

impl Shared {
    /// Nothing but the intrinsics.
    pub fn new(intrinsics: IntrinsicTable) -> (shared: Self)
        requires
            intrinsics.wf(),
        ensures
            shared.wf(),
            shared.intrinsics == intrinsics,
            shared.types@.len() == 0,
            shared.literals@.len() == 0,
            shared.bytes@.len() == 0,
            shared.poisons@.len() == 0,
            shared.varnodes@.len() == 0,
            shared.spaces@.len() == 0,
            shared.pcode_ops@.len() == 0,
            shared.name_map@.held == Map::<Name, ValueId>::empty(),
            shared.name_map@.labels == Map::<u64, ValueId>::empty(),
            shared.name_map@.bases.len() == 0,
    {
        Shared {
            types: TypeManager::new(),
            literals: LiteralInterner::new(),
            bytes: Interner::new(),
            poisons: Interner::new(),
            varnodes: Interner::new(),
            spaces: Interner::new(),
            pcode_ops: Vec::new(),
            intrinsics,
            name_map: LocalNames::new(),
        }
    }

    pub open spec fn wf(&self) -> bool {
        &&& self.types.wf()
        &&& self.literals.wf()
        &&& self.intrinsics.wf()
        &&& self.name_map.wf()
        &&& forall|i: int| 0 <= i < self.bytes@.len() ==> self.bytes_ok(#[trigger] self.bytes@[i])
    }

    /// Whether bytes have a type, which is as wide as they are many.
    pub open spec fn bytes_ok(&self, bytes: Bytes) -> bool {
        &&& self.types.has(bytes.type_id)
        &&& type_size(self.types@, bytes.type_id.0 as int) == bytes.data@.len()
    }

    /// Makes bytes of the type `type_id`, which is as wide as they are many.
    /// Bytes that are there are not looked for.
    pub fn make_bytes(&mut self, data: Vec<u8>, type_id: TypeId) -> (id: BytesId)
        requires
            old(self).wf(),
            old(self).bytes@.len() < usize::MAX,
            old(self).types.has(type_id),
            type_size(old(self).types@, type_id.0 as int) == data@.len(),
        ensures
            final(self).wf(),
            id.0 == old(self).bytes@.len(),
            *final(self) == (Shared { bytes: final(self).bytes, ..*old(self) }),
            final(self).bytes@ == old(self).bytes@.push(Bytes { data, type_id }),
    {
        self.bytes.push(Bytes { data, type_id })
    }
}

/// What a module shares stays sound where types are added.
pub proof fn lemma_types_grow(a: Shared, b: Shared)
    requires
        a.wf(),
        b == (Shared { types: b.types, ..a }),
        b.types.wf(),
        a.types@.len() <= b.types@.len(),
        forall|i: int| 0 <= i < a.types@.len() ==> a.types@[i] == #[trigger] b.types@[i],
    ensures
        b.wf(),
{
    assert forall|i: int| 0 <= i < b.bytes@.len() implies b.bytes_ok(#[trigger] b.bytes@[i]) by {
        assert(a.bytes_ok(a.bytes@[i]));
        lemma_size_stable(a.types@, b.types@, a.bytes@[i].type_id.0 as int);
    }
}

/// A module. The interface and the body of a function have one index.
pub struct Context {
    pub shared: Shared,
    pub interfaces: Vec<FunctionInterface>,
    pub bodies: Vec<FunctionBody>,
    /// Counts the changes to which addresses the functions carry.
    pub shape_ticks: u64,
}

impl Context {
    /// Whether the body of `func` is sound, and knows its function.
    pub open spec fn body_ok(&self, func: int) -> bool {
        &&& self.bodies@[func].wf()
        &&& self.bodies@[func].id == Some(FunctionId(func as u32))
    }

    pub open spec fn wf(&self) -> bool {
        &&& self.shared.wf()
        &&& self.interfaces@.len() == self.bodies@.len()
        &&& self.bodies@.len() <= u32::MAX
        &&& forall|f: int|
            #![trigger self.body_ok(f)]
            #![trigger self.bodies@[f]]
            0 <= f < self.bodies@.len() ==> self.body_ok(f)
    }

    /// Whether two modules have the same functions, apart from their bodies.
    pub open spec fn same_functions(&self, other: &Context) -> bool {
        &&& self.interfaces == other.interfaces
        &&& self.shape_ticks == other.shape_ticks
    }

    /// Whether `func` is a function of the module.
    pub open spec fn has_function(&self, func: FunctionId) -> bool {
        func.0 < self.interfaces@.len()
    }

    /// The body of `func`.
    pub open spec fn body_of(&self, func: FunctionId) -> FunctionBody {
        self.bodies@[func.0 as int]
    }

    /// The interface of `func`.
    pub open spec fn interface_of(&self, func: FunctionId) -> FunctionInterface {
        self.interfaces@[func.0 as int]
    }

    pub open spec fn has_insn(&self, id: InstructionId) -> bool {
        self.has_function(id.func) && self.body_of(id.func)@.insns.contains_key(id.local)
    }

    pub open spec fn has_block(&self, id: BlockId) -> bool {
        self.has_function(id.func) && self.body_of(id.func)@.blocks.contains_key(id.local)
    }

    pub open spec fn has_param(&self, id: BlockParamId) -> bool {
        self.has_function(id.func) && self.body_of(id.func)@.params.contains_key(id.local)
    }

    pub open spec fn has_temp(&self, id: TempId) -> bool {
        self.has_function(id.func) && id.local.0 < self.body_of(id.func).temps@.len()
    }

    /// Whether `id` names a value of the module.
    pub open spec fn has_value(&self, id: ValueId) -> bool {
        match id {
            ValueId::Literal(id) => self.shared.literals.has(id),
            ValueId::Bytes(id) => self.shared.bytes.has(id),
            ValueId::Varnode(id) => self.shared.varnodes.has(id),
            ValueId::Poison(id) => self.shared.poisons.has(id),
            ValueId::Function(id) => self.has_function(id),
            ValueId::Instruction(id) => self.has_insn(id),
            ValueId::BasicBlock(id) => self.has_block(id),
            ValueId::BlockParam(id) => self.has_param(id),
            ValueId::Temp(id) => self.has_temp(id),
        }
    }

    /// The type stored with a value, if its kind stores one.
    pub open spec fn stored_type(&self, id: ValueId) -> Option<TypeId> {
        match id {
            ValueId::Literal(id) => Some(self.shared.literals@[id.0 as int].type_id),
            ValueId::Bytes(id) => Some(self.shared.bytes.at(id).type_id),
            ValueId::Varnode(id) => self.shared.varnodes.at(id).type_id,
            ValueId::Poison(id) => Some(self.shared.poisons.at(id).type_id),
            ValueId::Instruction(id) => Some(self.body_of(id.func).insn_rec(id.local).type_id),
            ValueId::BlockParam(id) => Some(self.body_of(id.func).param_rec(id.local).type_id),
            ValueId::Function(_) | ValueId::BasicBlock(_) | ValueId::Temp(_) => None,
        }
    }

    /// The type stored with a value; none is with scratch values, blocks,
    /// functions and storage locations that were given none.
    pub fn stored_type_of(&self, id: ValueId) -> (type_id: Option<TypeId>)
        requires
            self.wf(),
            self.has_value(id),
        ensures
            type_id == self.stored_type(id),
    {
        match id {
            ValueId::Literal(id) => Some(self.shared.literals.get(id).type_id),
            ValueId::Bytes(id) => Some(self.shared.bytes.get(id).type_id),
            ValueId::Varnode(id) => self.shared.varnodes.get(id).type_id,
            ValueId::Poison(id) => Some(self.shared.poisons.get(id).type_id),
            ValueId::Instruction(id) => Some(
                self.bodies[id.func.0 as usize].insns.get(id.local.0).type_id,
            ),
            ValueId::BlockParam(id) => Some(
                self.bodies[id.func.0 as usize].params.get(id.local.0).type_id,
            ),
            ValueId::Function(_) | ValueId::BasicBlock(_) | ValueId::Temp(_) => None,
        }
    }

    /// Whether `id` names a value of the module.
    pub fn contains_value(&self, id: ValueId) -> (b: bool)
        requires
            self.wf(),
        ensures
            b == self.has_value(id),
    {
        let n: usize = self.bodies.len();
        match id {
            ValueId::Literal(id) => id.0 < self.shared.literals.len(),
            ValueId::Bytes(id) => self.shared.bytes.contains(id),
            ValueId::Varnode(id) => self.shared.varnodes.contains(id),
            ValueId::Poison(id) => self.shared.poisons.contains(id),
            ValueId::Function(id) => (id.0 as usize) < n,
            ValueId::Instruction(id) => (id.func.0 as usize) < n
                && self.bodies[id.func.0 as usize].insns.contains(id.local.0),
            ValueId::BasicBlock(id) => (id.func.0 as usize) < n
                && self.bodies[id.func.0 as usize].blocks.contains(id.local.0),
            ValueId::BlockParam(id) => (id.func.0 as usize) < n
                && self.bodies[id.func.0 as usize].params.contains(id.local.0),
            ValueId::Temp(id) => (id.func.0 as usize) < n && (id.local.0 as usize)
                < self.bodies[id.func.0 as usize].temps.len(),
        }
    }
}

} // verus!
