//! An instruction of a module.

use crate::body::cfg::edges_untouched;
use crate::body::compose::{all_issued, operands_issued};
use crate::body::naming::rename_outcome;
use crate::body::replace::with_mnemonic;
use crate::body::{BodyView, FunctionBody};
use crate::context::{lemma_types_grow, Context, Shared};
use crate::error::Error;
use crate::function::refs::FunctionRef;
use crate::function::root::{body_replaced, body_set, lemma_body_set};
use crate::ids::{BlockId, FunctionId, InstructionId, SpaceId, TypeId};
use crate::insn::instruction::{InsnView, Instruction};
use crate::insn::mnemonic::{Mnemonic, Shape};
use crate::insn::opcode::opcode_text;
use crate::refs::block::BlockRef;
use crate::segment::line::{insn_line, line_text};
use crate::segment::render::{insn_renders, statement_text};
use crate::space::MemorySpaceId;
use crate::types::intern::{registered, room_for};
use crate::types::{type_size, TypeRepr, TypeView};
use crate::value::{LocalValueId, ValueId};
use vstd::prelude::*;

verus! {

/// An instruction of a module.
#[derive(Clone, Copy)]
pub struct InstructionRef<'a> {
    pub ctx: &'a Context,
    pub id: InstructionId,
}

/// An instruction of a module, to change.
pub struct InstructionMutRef<'a> {
    pub ctx: &'a mut Context,
    pub id: InstructionId,
}

/// `body` with the instruction `id` of the type `type_id`.
pub open spec fn with_type(
    body: BodyView,
    id: crate::ids::LocalInsnId,
    type_id: TypeId,
) -> BodyView {
    BodyView { insns: body.insns.insert(id, InsnView { type_id, ..body.insns[id] }), ..body }
}

/// `b` is `a` with a new instruction `id` of `func`, in no block. Where every
/// operand had its use recorded, and none named `id` yet, it still has.
pub open spec fn insn_added(
    a: Context,
    b: Context,
    id: InstructionId,
    mnemonic: Mnemonic,
    type_id: TypeId,
) -> bool {
    &&& b.same_functions(&a)
    &&& b.bodies@.len() == a.bodies@.len()
    &&& forall|g: int|
        0 <= g < a.bodies@.len() && g != id.func.0 ==> #[trigger] b.bodies@[g] == a.bodies@[g]
    &&& a.body_of(id.func).uses_complete() && a.body_of(id.func).unmentioned(
        LocalValueId::Instruction(id.local),
    ) ==> b.body_of(id.func).uses_complete()
    &&& operands_issued(a.body_of(id.func)@) ==> a.body_of(id.func).unmentioned(
        LocalValueId::Instruction(id.local),
    )
    &&& operands_issued(a.body_of(id.func)@) && all_issued(
        b.body_of(id.func)@,
        mnemonic@.operands,
    ) ==> operands_issued(b.body_of(id.func)@)
    &&& b.body_of(id.func).uses@.len() <= a.body_of(id.func).uses@.len() + mnemonic.operands().len()
    &&& edges_untouched(a.body_of(id.func), b.body_of(id.func))
    &&& b.body_of(id.func).places_known()
    &&& b.body_of(id.func)@ == (BodyView {
        insns: a.body_of(id.func)@.insns.insert(
            id.local,
            InsnView { name: None, type_id, mnemonic: mnemonic@, address: None },
        ),
        insns_issued: a.body_of(id.func)@.insns_issued + 1,
        ..a.body_of(id.func)@
    })
}

/// The width of the addresses of the type `type_id`, where they point into a
/// space that holds registers.
pub open spec fn register_address(shared: Shared, type_id: TypeId) -> Option<usize> {
    if shared.types.has(type_id) {
        match shared.types@[type_id.0 as int] {
            TypeView::SpaceAddress { size, space } => match space {
                MemorySpaceId::Shared(s) => if shared.spaces.has(s) && shared.spaces.at(
                    s,
                ).is_register {
                    Some(size)
                } else {
                    None
                },
                _ => None,
            },
            _ => None,
        }
    } else {
        None
    }
}

impl Shared {
    /// The width of the addresses of the type `type_id`, where they point into
    /// a space that holds registers.
    fn register_width(&self, type_id: TypeId) -> (size: Option<usize>)
        requires
            self.wf(),
        ensures
            size == register_address(*self, type_id),
    {
        if type_id.0 as usize >= self.types.len() {
            return None;
        }
        if let TypeRepr::SpaceAddress { size, space } = self.types.get(type_id) {
            if let MemorySpaceId::Shared(s) = space {
                if self.spaces.contains(*s) && self.spaces.get(*s).is_register {
                    return Some(*size);
                }
            }
        }
        None
    }
}

impl Instruction {
    /// The instruction `id`, to read.
    pub fn from_id<'a>(ctx: &'a Context, id: InstructionId) -> (r: InstructionRef<'a>)
        ensures
            r.ctx == ctx,
            r.id == id,
    {
        InstructionRef { ctx, id }
    }

    /// The instruction `id`, to change.
    pub fn from_id_mut<'a>(ctx: &'a mut Context, id: InstructionId) -> (r: InstructionMutRef<'a>)
        ensures
            r.now() == *old(ctx),
            r.id == id,
            *final(r.ctx) == *final(ctx),
    {
        InstructionMutRef { ctx, id }
    }
}

impl<'a> InstructionRef<'a> {
    /// Whether there is such an instruction.
    pub open spec fn wf(&self) -> bool {
        self.ctx.wf() && self.ctx.has_insn(self.id)
    }

    /// What the instruction is.
    pub open spec fn at(&self) -> InsnView {
        self.ctx.body_of(self.id.func)@.insns[self.id.local]
    }

    /// The record of the instruction.
    pub open spec fn rec(&self) -> Instruction {
        self.ctx.body_of(self.id.func).insn_rec(self.id.local)
    }

    pub fn new(ctx: &'a Context, id: InstructionId) -> (r: Self)
        ensures
            r.ctx == ctx,
            r.id == id,
    {
        InstructionRef { ctx, id }
    }

    pub fn from_id(ctx: &'a Context, id: InstructionId) -> (r: Self)
        ensures
            r.ctx == ctx,
            r.id == id,
    {
        InstructionRef { ctx, id }
    }

    /// Stores an instruction of `func` of the type `type_id`, in no block. Where
    /// that is an address of a register the result is the plain integer of its
    /// width: a register has no address to compute with.
    pub fn from_mnemonic_with_type(
        ctx: &mut Context,
        func: FunctionId,
        mnemonic: Mnemonic,
        type_id: TypeId,
    ) -> (id: InstructionId)
        requires
            old(ctx).wf(),
            old(ctx).has_function(func),
            old(ctx).body_of(func).insns.has_room(),
            mnemonic.operands().len() <= 0x1_0000,
            old(ctx).body_of(func).use_room(mnemonic.operands().len() as int),
            register_address(old(ctx).shared, type_id) matches Some(size) ==> room_for(
                old(ctx).shared.types@,
                (TypeView::Int { size }),
            ),
        ensures
            final(ctx).wf(),
            id.func == func,
            id.local.0 == old(ctx).body_of(func)@.insns_issued,
            match register_address(old(ctx).shared, type_id) {
                Some(size) => {
                    &&& final(ctx).shared == (Shared {
                        types: final(ctx).shared.types,
                        ..old(ctx).shared
                    })
                    &&& exists|int_id: TypeId|
                        {
                            &&& #[trigger] registered(
                                old(ctx).shared.types@,
                                (TypeView::Int { size }),
                                final(ctx).shared.types@,
                                int_id,
                            )
                            &&& insn_added(*old(ctx), *final(ctx), id, mnemonic, int_id)
                        }
                },
                None => final(ctx).shared == old(ctx).shared && insn_added(
                    *old(ctx),
                    *final(ctx),
                    id,
                    mnemonic,
                    type_id,
                ),
            },
    {
        let ghost before = *ctx;
        let type_id = match ctx.shared.register_width(type_id) {
            Some(size) => ctx.shared.types.get_or_make_int(size),
            None => type_id,
        };
        let ghost typed = *ctx;
        let f: usize = func.0 as usize;
        proof {
            lemma_types_grow(before.shared, typed.shared);
            assert forall|g: int| 0 <= g < typed.bodies@.len() implies #[trigger] typed.body_ok(g) by {
                assert(before.body_ok(g));
            }
            assert(typed.body_ok(f as int));
        }
        let local = ctx.bodies[f].push_mnemonic_with_type_local(mnemonic, type_id);
        proof {
            assert(ctx.body_of(func)@.id == before.body_of(func)@.id);
            lemma_body_set(typed, *ctx, func);
        }
        InstructionId::new(func, local)
    }

    /// Stores an instruction of `func` whose result is an integer of `size`
    /// bytes, in no block.
    pub fn from_mnemonic(ctx: &mut Context, func: FunctionId, mnemonic: Mnemonic, size: usize) -> (id:
        InstructionId)
        requires
            old(ctx).wf(),
            old(ctx).has_function(func),
            old(ctx).body_of(func).insns.has_room(),
            mnemonic.operands().len() <= 0x1_0000,
            old(ctx).body_of(func).use_room(mnemonic.operands().len() as int),
            old(ctx).shared.types@.len() < u32::MAX,
        ensures
            final(ctx).wf(),
            final(ctx).shared == (Shared {
                types: final(ctx).shared.types,
                ..old(ctx).shared
            }),
            id.func == func,
            id.local.0 == old(ctx).body_of(func)@.insns_issued,
            exists|type_id: TypeId|
                {
                    &&& #[trigger] registered(
                        old(ctx).shared.types@,
                        (TypeView::Int { size }),
                        final(ctx).shared.types@,
                        type_id,
                    )
                    &&& insn_added(*old(ctx), *final(ctx), id, mnemonic, type_id)
                },
    {
        let ghost before = *ctx;
        let type_id = ctx.shared.types.get_or_make_int(size);
        proof {
            lemma_types_grow(before.shared, ctx.shared);
            assert forall|g: int| 0 <= g < ctx.bodies@.len() implies #[trigger] ctx.body_ok(g) by {
                assert(before.body_ok(g));
            }
        }
        Self::from_mnemonic_with_type(ctx, func, mnemonic, type_id)
    }

    /// Stores an instruction of `func` whose result is an integer of `size`
    /// bytes, whatever space it points into.
    pub fn from_mnemonic_with_space(
        ctx: &mut Context,
        func: FunctionId,
        mnemonic: Mnemonic,
        size: usize,
        space: Option<SpaceId>,
    ) -> (id: InstructionId)
        requires
            old(ctx).wf(),
            old(ctx).has_function(func),
            old(ctx).body_of(func).insns.has_room(),
            mnemonic.operands().len() <= 0x1_0000,
            old(ctx).body_of(func).use_room(mnemonic.operands().len() as int),
            old(ctx).shared.types@.len() < u32::MAX,
        ensures
            final(ctx).wf(),
            final(ctx).shared == (Shared {
                types: final(ctx).shared.types,
                ..old(ctx).shared
            }),
            id.func == func,
            id.local.0 == old(ctx).body_of(func)@.insns_issued,
            exists|type_id: TypeId|
                {
                    &&& #[trigger] registered(
                        old(ctx).shared.types@,
                        (TypeView::Int { size }),
                        final(ctx).shared.types@,
                        type_id,
                    )
                    &&& insn_added(*old(ctx), *final(ctx), id, mnemonic, type_id)
                },
    {
        Self::from_mnemonic(ctx, func, mnemonic, size)
    }

    pub fn id(&self) -> (id: ValueId)
        ensures
            id == ValueId::Instruction(self.id),
    {
        ValueId::Instruction(self.id)
    }

    fn body(&self) -> (body: &'a FunctionBody)
        requires
            self.wf(),
        ensures
            *body == self.ctx.body_of(self.id.func),
            body.wf(),
    {
        proof {
            assert(self.ctx.body_ok(self.id.func.0 as int));
        }
        &self.ctx.bodies[self.id.func.0 as usize]
    }

    fn inner(&self) -> (insn: &'a Instruction)
        requires
            self.wf(),
        ensures
            *insn == self.rec(),
    {
        self.body().insns.get(self.id.local.0)
    }

    /// The name of the result.
    pub fn name(&self) -> (name: Option<String>)
        requires
            self.wf(),
        ensures
            match self.at().name {
                Some(n) => name matches Some(name) && name@ == self.ctx.body_of(
                    self.id.func,
                )@.names.text_of(n),
                None => name is None,
            },
    {
        let body = self.body();
        proof {
            assert(body@.insns.contains_key(self.id.local));
            assert(body@.insns[self.id.local].name == self.at().name);
        }
        match self.inner().name {
            Some(name) => Some(body.names.render(name)),
            None => None,
        }
    }

    /// The type of the result.
    pub fn type_id(&self) -> (type_id: TypeId)
        requires
            self.wf(),
        ensures
            type_id == self.at().type_id,
    {
        self.inner().type_id
    }

    /// The width of the result in bytes.
    pub fn size(&self) -> (size: usize)
        requires
            self.wf(),
            self.ctx.shared.types.has(self.at().type_id),
        ensures
            size == type_size(self.ctx.shared.types@, self.at().type_id.0 as int),
    {
        self.ctx.shared.types.size_of(self.inner().type_id)
    }

    /// The block that the instruction is in.
    pub fn parent(&self) -> (block: Option<BlockRef<'a>>)
        requires
            self.wf(),
        ensures
            match self.rec().parent {
                Some(local) => block matches Some(b) && b.ctx == self.ctx && b.id == (BlockId {
                    func: self.id.func,
                    local,
                }),
                None => block is None,
            },
    {
        match self.inner().parent {
            Some(local) => Some(
                BlockRef { ctx: self.ctx, id: BlockId::new(self.id.func, local) },
            ),
            None => None,
        }
    }

    /// The block that the instruction is in.
    pub fn block(&self) -> (block: Option<BlockRef<'a>>)
        requires
            self.wf(),
        ensures
            match self.rec().parent {
                Some(local) => block matches Some(b) && b.ctx == self.ctx && b.id == (BlockId {
                    func: self.id.func,
                    local,
                }),
                None => block is None,
            },
    {
        self.parent()
    }

    /// The function of the block that the instruction is in.
    pub fn function(&self) -> (function: Option<FunctionRef<'a>>)
        requires
            self.wf(),
        ensures
            match self.rec().parent {
                Some(_) => function matches Some(f) && f.ctx == self.ctx && f.id == self.id.func,
                None => function is None,
            },
    {
        match self.parent() {
            Some(block) => Some(block.parent()),
            None => None,
        }
    }

    /// The operation.
    pub fn mnemonic(&self) -> (mnemonic: &'a Mnemonic)
        requires
            self.wf(),
        ensures
            *mnemonic == self.rec().mnemonic,
            mnemonic@ == self.at().mnemonic,
    {
        &self.inner().mnemonic
    }

    /// The operands, with their function.
    pub fn operands(&self) -> (operands: Vec<ValueId>)
        requires
            self.wf(),
        ensures
            operands@ == self.at().mnemonic.operands.map_values(
                |v: LocalValueId| v.spec_qualify(self.id.func),
            ),
    {
        let body = self.body();
        proof {
            assert(body.has_insn(self.id.local));
        }
        let mnemonic = self.mnemonic();
        let ghost given = mnemonic.operands();
        let n: usize = mnemonic.operand_count();
        let func = self.id.func;
        let mut operands: Vec<ValueId> = Vec::new();
        let mut k: usize = 0;
        while k < n
            invariant
                n == given.len(),
                given == mnemonic.operands(),
                k <= n,
                operands@.len() == k,
                forall|j: int|
                    0 <= j < k ==> #[trigger] operands@[j] == given[j].spec_qualify(func),
            decreases n - k,
        {
            if let Some(value) = mnemonic.operand(k) {
                operands.push(value.qualify(func));
            }
            k = k + 1;
        }
        proof {
            assert(operands@ =~= given.map_values(|v: LocalValueId| v.spec_qualify(func)));
        }
        operands
    }

    /// The machine address the instruction was lifted from.
    pub fn address(&self) -> (address: Option<u64>)
        requires
            self.wf(),
        ensures
            address == self.at().address,
    {
        self.inner().address
    }

    /// The space that the result points into.
    pub fn space(&self) -> (space: Option<MemorySpaceId>)
        requires
            self.wf(),
            self.ctx.shared.types.has(self.at().type_id),
        ensures
            space == (match self.ctx.shared.types@[self.at().type_id.0 as int] {
                TypeView::SpaceAddress { size, space } => Some(space),
                _ => None,
            }),
    {
        self.ctx.shared.types.space_of(self.inner().type_id)
    }

    /// The name of the operation.
    pub fn opcode(&self) -> (name: &'a str)
        requires
            self.wf(),
            self.at().mnemonic.shape matches Shape::Intrinsic { id, args }
                ==> self.ctx.shared.intrinsics.has(id),
        ensures
            name@ == opcode_text(self.rec().mnemonic, self.ctx.shared.intrinsics),
    {
        self.mnemonic().opcode(&self.ctx.shared.intrinsics)
    }

    /// Whether the instruction ends a block.
    pub fn is_terminator(&self) -> (b: bool)
        requires
            self.wf(),
        ensures
            b == self.at().mnemonic.shape.terminates(),
    {
        self.mnemonic().is_terminator()
    }

    /// The text of the instruction: that of its tokens, one after the other.
    pub fn as_statement(&self) -> (text: String)
        requires
            self.ctx.wf(),
            insn_renders(*self.ctx, None, self.id),
        ensures
            forall|d: nat|
                (#[trigger] insn_line(*self.ctx, None, self.id, d)).ok ==> text@ == line_text(
                    insn_line(*self.ctx, None, self.id, d),
                ).chars,
    {
        statement_text(self.ctx, None, self.id)
    }
}

/// `b` is `a` with `record` for the record of the instruction `id`.
pub open spec fn record_set(
    a: Context,
    b: Context,
    id: InstructionId,
    record: Instruction,
) -> bool {
    &&& b.shared == a.shared
    &&& b.same_functions(&a)
    &&& b.bodies@ == a.bodies@.update(id.func.0 as int, b.body_of(id.func))
    &&& b.body_of(id.func) == (FunctionBody {
        insns: b.body_of(id.func).insns,
        ..a.body_of(id.func)
    })
    &&& b.body_of(id.func).insns@ == a.body_of(id.func).insns@.update(
        id.local.0 as int,
        Some(record),
    )
}

impl<'a> InstructionMutRef<'a> {
    /// The module as it is.
    pub open spec fn now(&self) -> Context {
        *self.ctx
    }

    /// Whether there is such an instruction.
    pub open spec fn wf(&self) -> bool {
        self.now().wf() && self.now().has_insn(self.id)
    }

    /// The body that holds the instruction.
    pub open spec fn body(&self) -> FunctionBody {
        self.now().body_of(self.id.func)
    }

    /// What the instruction is.
    pub open spec fn at(&self) -> InsnView {
        self.body()@.insns[self.id.local]
    }

    /// The record of the instruction.
    pub open spec fn rec(&self) -> Instruction {
        self.body().insn_rec(self.id.local)
    }

    pub fn as_ref(&self) -> (r: InstructionRef<'_>)
        ensures
            *r.ctx == self.now(),
            r.id == self.id,
    {
        InstructionRef { ctx: self.ctx, id: self.id }
    }

    /// The record of the instruction, to change. The body is what the caller
    /// makes of it: whether it is still sound is not looked at.
    pub fn inner_mut(&mut self) -> (record: &mut Instruction)
        requires
            old(self).wf(),
        ensures
            *record == old(self).rec(),
            final(self).id == old(self).id,
            *final(final(self).ctx) == *final(old(self).ctx),
            record_set(old(self).now(), final(self).now(), old(self).id, *final(record)),
    {
        proof {
            assert(self.ctx.body_ok(self.id.func.0 as int));
        }
        self.ctx.bodies[self.id.func.0 as usize].insn_mut(self.id)
    }

    /// The operation, to change. The uses of its operands stay as they are.
    pub fn mnemonic_mut(&mut self) -> (mnemonic: &mut Mnemonic)
        requires
            old(self).wf(),
        ensures
            *mnemonic == old(self).rec().mnemonic,
            final(self).id == old(self).id,
            *final(final(self).ctx) == *final(old(self).ctx),
            record_set(
                old(self).now(),
                final(self).now(),
                old(self).id,
                (Instruction { mnemonic: *final(mnemonic), ..old(self).rec() }),
            ),
    {
        &mut self.inner_mut().mnemonic
    }

    /// The address, to change.
    pub fn address_mut(&mut self) -> (address: &mut Option<u64>)
        requires
            old(self).wf(),
        ensures
            *address == old(self).rec().address,
            final(self).id == old(self).id,
            *final(final(self).ctx) == *final(old(self).ctx),
            record_set(
                old(self).now(),
                final(self).now(),
                old(self).id,
                (Instruction { address: *final(address), ..old(self).rec() }),
            ),
    {
        &mut self.inner_mut().address
    }

    /// Replaces the operation; the uses of its operands follow.
    pub fn set_mnemonic(&mut self, mnemonic: Mnemonic)
        requires
            old(self).wf(),
            mnemonic.operands().len() <= 0x1_0000,
            old(self).body().use_room(mnemonic.operands().len() as int),
        ensures
            final(self).wf(),
            final(self).id == old(self).id,
            *final(final(self).ctx) == *final(old(self).ctx),
            old(self).body().uses_complete() ==> final(self).body().uses_complete(),
            operands_issued(old(self).body()@) && all_issued(
                old(self).body()@,
                mnemonic@.operands,
            ) ==> operands_issued(final(self).body()@),
            final(self).body().uses@.len() <= old(self).body().uses@.len()
                + mnemonic.operands().len(),
            body_replaced(
                old(self).now(),
                final(self).now(),
                old(self).id.func,
                with_mnemonic(old(self).body()@, old(self).id.local, mnemonic@),
            ),
    {
        let ghost before = *self.ctx;
        let f: usize = self.id.func.0 as usize;
        proof {
            assert(before.body_ok(f as int));
        }
        self.ctx.bodies[f].replace_instruction_mnemonic_local(self.id.local, mnemonic);
        proof {
            assert(self.ctx.body_of(self.id.func)@.id == before.body_of(self.id.func)@.id);
            lemma_body_set(before, *self.ctx, self.id.func);
            assert(self.ctx.body_of(self.id.func)@.insns.contains_key(self.id.local));
        }
    }

    /// Sets the machine address that the instruction was lifted from.
    pub fn set_address(&mut self, address: u64)
        requires
            old(self).wf(),
        ensures
            final(self).wf(),
            final(self).id == old(self).id,
            *final(final(self).ctx) == *final(old(self).ctx),
            body_set(
                old(self).now(),
                final(self).now(),
                old(self).id.func,
                (BodyView {
                    insns: old(self).body()@.insns.insert(
                        old(self).id.local,
                        (InsnView {
                            address: Some(address),
                            ..old(self).body()@.insns[old(self).id.local]
                        }),
                    ),
                    ..old(self).body()@
                }),
            ),
    {
        let ghost before = *self.ctx;
        let f: usize = self.id.func.0 as usize;
        proof {
            assert(before.body_ok(f as int));
            let body = before.body_of(self.id.func);
            assert(body@.insns.contains_key(self.id.local));
            assert(crate::body::name_known(body@, body@.insns[self.id.local].name));
        }
        let name = self.ctx.bodies[f].insns.get(self.id.local.0).name;
        let type_id = self.ctx.bodies[f].insns.get(self.id.local.0).type_id;
        self.ctx.bodies[f].edit_insn(self.id.local, name, type_id, Some(address));
        proof {
            assert(self.ctx.body_of(self.id.func)@.id == before.body_of(self.id.func)@.id);
            lemma_body_set(before, *self.ctx, self.id.func);
            assert(self.ctx.body_of(self.id.func)@.insns.contains_key(self.id.local));
        }
    }

    /// Sets the type of the result, whatever its width.
    pub fn set_type_resized(&mut self, new_type: TypeId)
        requires
            old(self).wf(),
        ensures
            final(self).wf(),
            final(self).id == old(self).id,
            *final(final(self).ctx) == *final(old(self).ctx),
            body_set(
                old(self).now(),
                final(self).now(),
                old(self).id.func,
                with_type(old(self).body()@, old(self).id.local, new_type),
            ),
    {
        let ghost before = *self.ctx;
        let f: usize = self.id.func.0 as usize;
        proof {
            assert(before.body_ok(f as int));
            let body = before.body_of(self.id.func);
            assert(body@.insns.contains_key(self.id.local));
            assert(crate::body::name_known(body@, body@.insns[self.id.local].name));
        }
        let name = self.ctx.bodies[f].insns.get(self.id.local.0).name;
        let address = self.ctx.bodies[f].insns.get(self.id.local.0).address;
        self.ctx.bodies[f].edit_insn(self.id.local, name, new_type, address);
        proof {
            assert(self.ctx.body_of(self.id.func)@.id == before.body_of(self.id.func)@.id);
            lemma_body_set(before, *self.ctx, self.id.func);
            assert(self.ctx.body_of(self.id.func)@.insns.contains_key(self.id.local));
        }
    }

    /// Sets the type of the result. Where it has a width already, the new type is
    /// as wide; where the two are as wide as each other, they are of one kind.
    pub fn set_type(&mut self, new_type: TypeId)
        requires
            old(self).wf(),
            old(self).now().shared.types.has(old(self).at().type_id),
            old(self).now().shared.types.has(new_type),
            ({
                let t = old(self).now().shared.types@;
                let current = type_size(t, old(self).at().type_id.0 as int);
                let wanted = type_size(t, new_type.0 as int);
                &&& current == 0 || current == wanted
                &&& current == wanted ==> t[old(self).at().type_id.0 as int].same_kind(
                    t[new_type.0 as int],
                )
            }),
        ensures
            final(self).wf(),
            final(self).id == old(self).id,
            *final(final(self).ctx) == *final(old(self).ctx),
            body_set(
                old(self).now(),
                final(self).now(),
                old(self).id.func,
                with_type(old(self).body()@, old(self).id.local, new_type),
            ),
    {
        self.set_type_resized(new_type);
    }

    /// Names the value. Where another value of the function has that name the
    /// name is refused; where the value itself has it, nothing changes.
    pub fn rename(&mut self, name: &str) -> (result: Result<(), Error>)
        requires
            old(self).wf(),
            old(self).body()@.names.bases.len() < crate::base::BASE_LIMIT,
        ensures
            final(self).wf(),
            final(self).id == old(self).id,
            *final(final(self).ctx) == *final(old(self).ctx),
            body_set(
                old(self).now(),
                final(self).now(),
                old(self).id.func,
                final(self).body()@,
            ),
            result is Ok ==> final(self).body()@.names.found(
                name@,
                LocalValueId::Instruction(old(self).id.local),
            ),
            rename_outcome(
                old(self).body()@,
                final(self).body()@,
                LocalValueId::Instruction(old(self).id.local),
                name@,
                result,
            ),
    {
        let ghost before = *self.ctx;
        let f: usize = self.id.func.0 as usize;
        proof {
            assert(before.body_ok(f as int));
        }
        let result = self.ctx.bodies[f].rename(LocalValueId::Instruction(self.id.local), name);
        proof {
            assert(self.ctx.body_of(self.id.func)@.id == before.body_of(self.id.func)@.id);
            lemma_body_set(before, *self.ctx, self.id.func);
            assert(before.body_of(self.id.func)@.insns.contains_key(self.id.local));
            assert(self.ctx.body_of(self.id.func)@.insns.contains_key(self.id.local));
        }
        result
    }

    /// Makes the result an address of `space`, as wide as it is, unless that
    /// space holds the registers.
    pub fn set_space(&mut self, space: SpaceId)
        requires
            old(self).wf(),
            old(self).now().shared.spaces.has(space),
            old(self).now().shared.types.has(old(self).at().type_id),
            old(self).now().shared.types@.len() < u32::MAX,
        ensures
            final(self).wf(),
            final(self).id == old(self).id,
            *final(final(self).ctx) == *final(old(self).ctx),
            if old(self).now().shared.spaces.at(space).is_register {
                final(self).now() == old(self).now()
            } else {
                exists|mid: Context, type_id: TypeId|
                    {
                        &&& #[trigger] types_grown(
                            old(self).now(),
                            mid,
                            address_like(old(self).now(), old(self).at().type_id, space),
                            type_id,
                        )
                        &&& body_set(
                            mid,
                            final(self).now(),
                            old(self).id.func,
                            with_type(old(self).body()@, old(self).id.local, type_id),
                        )
                    }
            },
    {
        if self.ctx.shared.spaces.get(space).is_register {
            return;
        }
        let ghost before = *self.ctx;
        let f: usize = self.id.func.0 as usize;
        let current = self.ctx.bodies[f].insns.get(self.id.local.0).type_id;
        let size: usize = self.ctx.shared.types.size_of(current);
        let type_id = self.ctx.shared.types.get_or_make_space_address(
            size,
            MemorySpaceId::Shared(space),
        );
        let ghost mid = *self.ctx;
        proof {
            lemma_types_grow(before.shared, mid.shared);
            assert forall|g: int| 0 <= g < mid.bodies@.len() implies #[trigger] mid.body_ok(g) by {
                assert(before.body_ok(g));
            }
            assert(types_grown(
                before,
                mid,
                (TypeView::SpaceAddress { size, space: MemorySpaceId::Shared(space) }),
                type_id,
            ));
        }
        self.set_type_resized(type_id);
    }
}

/// The type of addresses of `space` as wide as the type `like`.
pub open spec fn address_like(c: Context, like: TypeId, space: SpaceId) -> TypeView {
    TypeView::SpaceAddress {
        size: type_size(c.shared.types@, like.0 as int) as usize,
        space: MemorySpaceId::Shared(space),
    }
}

/// `b` is `a` with the type `v` registered, under `id`.
pub open spec fn types_grown(a: Context, b: Context, v: TypeView, id: TypeId) -> bool {
    &&& b == (Context { shared: b.shared, ..a })
    &&& b.shared == (Shared { types: b.shared.types, ..a.shared })
    &&& registered(a.shared.types@, v, b.shared.types@, id)
}

} // verus!
