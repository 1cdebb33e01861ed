//! Reading the records of a body.

use crate::arena::{has, Arena};
use crate::block::BasicBlock;
use crate::body::cfg::edges_untouched;
use crate::body::compose::{all_issued, operands_issued};
use crate::body::{BlockParam, BodyView, FunctionBody, Temp, TempSpace};
use crate::context::{lemma_types_grow, Shared};
use crate::ids::{
    BlockId, BlockParamId, InstructionId, LocalBlockId, LocalInsnId, LocalTempSpaceId, TempId,
    TempSpaceId, TypeId, UseId,
};
use crate::insn::instruction::{InsnView, Instruction};
use crate::insn::mnemonic::Mnemonic;
use crate::types::TypeView;
use crate::types::intern::registered;
use crate::value::LocalValueId;
use vstd::prelude::*;

verus! {

/// The number of payloads among the first `n` slots.
pub open spec fn live_among<T>(slots: Seq<Option<T>>, n: int) -> nat
    decreases n,
{
    if n <= 0 {
        0
    } else {
        live_among(slots, n - 1) + (if has(slots, n - 1) {
            1nat
        } else {
            0
        })
    }
}

/// How many indices an arena has handed out, and how many still name
/// something.
#[derive(Clone, Copy, Debug, PartialEq, Eq, Structural)]
pub struct BodyArenaKindStats {
    pub issued: usize,
    pub live: usize,
    pub dead: usize,
}

/// The statistics of the arenas of a body, or of several.
#[derive(Clone, Copy, Debug, PartialEq, Eq, Structural)]
pub struct BodyArenaStats {
    pub instructions: BodyArenaKindStats,
    pub blocks: BodyArenaKindStats,
    pub params: BodyArenaKindStats,
    pub edges: BodyArenaKindStats,
}

impl BodyArenaKindStats {
    /// Whether these are the statistics of `slots`.
    pub open spec fn describe<T>(self, slots: Seq<Option<T>>) -> bool {
        &&& self.issued == slots.len()
        &&& self.live == live_among(slots, slots.len() as int)
        &&& self.live + self.dead == self.issued
    }

    fn stable_arena<T>(arena: &Arena<T>) -> (stats: Self)
        ensures
            stats.describe(arena@),
    {
        let n: usize = arena.slots.len();
        let mut live: usize = 0;
        let mut i: usize = 0;
        while i < n
            invariant
                n == arena.slots@.len(),
                i <= n,
                live <= i,
                live == live_among(arena.slots@, i as int),
            decreases n - i,
        {
            if arena.slots[i].is_some() {
                live = live + 1;
            }
            i = i + 1;
        }
        BodyArenaKindStats { issued: n, live, dead: n - live }
    }

    /// Adds the numbers of `other`.
    pub fn add_assign(&mut self, other: Self)
        requires
            old(self).issued + other.issued <= usize::MAX,
            old(self).live + other.live <= usize::MAX,
            old(self).dead + other.dead <= usize::MAX,
        ensures
            final(self).issued == old(self).issued + other.issued,
            final(self).live == old(self).live + other.live,
            final(self).dead == old(self).dead + other.dead,
    {
        self.issued = self.issued + other.issued;
        self.live = self.live + other.live;
        self.dead = self.dead + other.dead;
    }

    /// Whether the numbers of both can be added.
    pub open spec fn addable(self, other: Self) -> bool {
        &&& self.issued + other.issued <= usize::MAX
        &&& self.live + other.live <= usize::MAX
        &&& self.dead + other.dead <= usize::MAX
    }

    /// Whether this holds the sums of the numbers of `a` and `b`.
    pub open spec fn is_sum(self, a: Self, b: Self) -> bool {
        &&& self.issued == a.issued + b.issued
        &&& self.live == a.live + b.live
        &&& self.dead == a.dead + b.dead
    }
}

impl BodyArenaStats {
    /// Adds the numbers of `other`.
    pub fn add_assign(&mut self, other: Self)
        requires
            old(self).instructions.addable(other.instructions),
            old(self).blocks.addable(other.blocks),
            old(self).params.addable(other.params),
            old(self).edges.addable(other.edges),
        ensures
            final(self).instructions.is_sum(old(self).instructions, other.instructions),
            final(self).blocks.is_sum(old(self).blocks, other.blocks),
            final(self).params.is_sum(old(self).params, other.params),
            final(self).edges.is_sum(old(self).edges, other.edges),
    {
        self.instructions.add_assign(other.instructions);
        self.blocks.add_assign(other.blocks);
        self.params.add_assign(other.params);
        self.edges.add_assign(other.edges);
    }
}

impl FunctionBody {
    /// How many indices each arena has handed out, and how many still name
    /// something.
    pub fn arena_stats(&self) -> (stats: BodyArenaStats)
        ensures
            stats.instructions.describe(self.insns@),
            stats.blocks.describe(self.blocks@),
            stats.params.describe(self.params@),
            stats.edges.describe(self.edges@),
    {
        BodyArenaStats {
            instructions: BodyArenaKindStats::stable_arena(&self.insns),
            blocks: BodyArenaKindStats::stable_arena(&self.blocks),
            params: BodyArenaKindStats::stable_arena(&self.params),
            edges: BodyArenaKindStats::stable_arena(&self.edges),
        }
    }

    /// The block `id` of this function.
    pub fn block(&self, id: BlockId) -> (block: &BasicBlock)
        requires
            self.id == Some(id.func),
            self@.blocks.contains_key(id.local),
        ensures
            *block == self.block_rec(id.local),
    {
        self.blocks.get(id.local.0)
    }

    /// The block `id` of this function, to change. The body is what the caller
    /// makes of it: whether it is still sound is not looked at.
    pub fn block_mut(&mut self, id: BlockId) -> (record: &mut BasicBlock)
        requires
            old(self).id == Some(id.func),
            old(self)@.blocks.contains_key(id.local),
        ensures
            *record == old(self).block_rec(id.local),
            *final(self) == (FunctionBody { blocks: final(self).blocks, ..*old(self) }),
            final(self).blocks@ == old(self).blocks@.update(
                id.local.0 as int,
                Some(*final(record)),
            ),
    {
        self.blocks.get_mut(id.local.0)
    }

    /// The block `local`.
    pub fn block_local(&self, local: LocalBlockId) -> (block: &BasicBlock)
        requires
            self@.blocks.contains_key(local),
        ensures
            *block == self.block_rec(local),
    {
        self.blocks.get(local.0)
    }

    /// Whether `id` names a block of this body.
    pub fn contains_block(&self, id: BlockId) -> (b: bool)
        requires
            self.id is Some,
        ensures
            b == (self.id == Some(id.func) && self.has_block(id.local)),
    {
        id.func == self.id() && self.blocks.contains(id.local.0)
    }

    /// The instruction `id` of this function.
    pub fn insn(&self, id: InstructionId) -> (insn: &Instruction)
        requires
            self.id == Some(id.func),
            self@.insns.contains_key(id.local),
        ensures
            *insn == self.insn_rec(id.local),
    {
        self.insns.get(id.local.0)
    }

    /// The instruction `id` of this function, to change. The body is what the caller
    /// makes of it: whether it is still sound is not looked at.
    pub fn insn_mut(&mut self, id: InstructionId) -> (record: &mut Instruction)
        requires
            old(self).id == Some(id.func),
            old(self)@.insns.contains_key(id.local),
        ensures
            *record == old(self).insn_rec(id.local),
            *final(self) == (FunctionBody { insns: final(self).insns, ..*old(self) }),
            final(self).insns@ == old(self).insns@.update(
                id.local.0 as int,
                Some(*final(record)),
            ),
    {
        self.insns.get_mut(id.local.0)
    }

    /// The operation of the instruction `local`.
    pub fn mnemonic_local(&self, local: LocalInsnId) -> (mnemonic: &Mnemonic)
        requires
            self@.insns.contains_key(local),
        ensures
            *mnemonic == self.insn_rec(local).mnemonic,
    {
        &self.insns.get(local.0).mnemonic
    }

    /// Whether `id` names an instruction of this body.
    pub fn contains_instruction(&self, id: InstructionId) -> (b: bool)
        requires
            self.id is Some,
        ensures
            b == (self.id == Some(id.func) && self.has_insn(id.local)),
    {
        id.func == self.id() && self.insns.contains(id.local.0)
    }

    /// The block parameter `id` of this function.
    pub fn block_param(&self, id: BlockParamId) -> (param: &BlockParam)
        requires
            self.id == Some(id.func),
            self@.params.contains_key(id.local),
        ensures
            *param == self.param_rec(id.local),
    {
        self.params.get(id.local.0)
    }

    /// The block parameter `id` of this function, to change. The body is what the caller
    /// makes of it: whether it is still sound is not looked at.
    pub fn block_param_mut(&mut self, id: BlockParamId) -> (record: &mut BlockParam)
        requires
            old(self).id == Some(id.func),
            old(self)@.params.contains_key(id.local),
        ensures
            *record == old(self).param_rec(id.local),
            *final(self) == (FunctionBody { params: final(self).params, ..*old(self) }),
            final(self).params@ == old(self).params@.update(
                id.local.0 as int,
                Some(*final(record)),
            ),
    {
        self.params.get_mut(id.local.0)
    }

    /// Whether `id` names a block parameter of this body.
    pub fn contains_block_param(&self, id: BlockParamId) -> (b: bool)
        requires
            self.id is Some,
        ensures
            b == (self.id == Some(id.func) && self.has_param(id.local)),
    {
        id.func == self.id() && self.params.contains(id.local.0)
    }

    /// The scratch space `id` of this function.
    pub fn temp_space(&self, id: TempSpaceId) -> (space: &TempSpace)
        requires
            self.id == Some(id.func),
            id.local.0 < self.temp_spaces@.len(),
        ensures
            *space == self.temp_spaces@[id.local.0 as int],
    {
        &self.temp_spaces[id.local.0 as usize]
    }

    /// The scratch spaces, in order.
    pub fn temp_spaces(&self) -> (ids: Vec<TempSpaceId>)
        requires
            self.wf(),
            self.id is Some,
        ensures
            ids@.len() == self.temp_spaces@.len(),
            forall|k: int|
                0 <= k < ids@.len() ==> #[trigger] ids@[k] == (TempSpaceId {
                    func: self.id->0,
                    local: LocalTempSpaceId(k as u32),
                }),
    {
        let func = self.id();
        let mut ids: Vec<TempSpaceId> = Vec::new();
        let mut k: usize = 0;
        while k < self.temp_spaces.len()
            invariant
                self.wf(),
                self.id == Some(func),
                k <= self.temp_spaces.len(),
                ids@.len() == k,
                forall|j: int|
                    0 <= j < k ==> #[trigger] ids@[j] == (TempSpaceId {
                        func,
                        local: LocalTempSpaceId(j as u32),
                    }),
            decreases self.temp_spaces.len() - k,
        {
            ids.push(TempSpaceId::new(func, LocalTempSpaceId(k as u32)));
            k = k + 1;
        }
        ids
    }

    /// Whether `id` names a scratch space of this body.
    pub fn contains_temp_space(&self, id: TempSpaceId) -> (b: bool)
        requires
            self.id is Some,
        ensures
            b == (self.id == Some(id.func) && id.local.0 < self.temp_spaces@.len()),
    {
        id.func == self.id() && (id.local.0 as usize) < self.temp_spaces.len()
    }

    /// The scratch value `id` of this function.
    pub fn temp(&self, id: TempId) -> (temp: &Temp)
        requires
            self.id == Some(id.func),
            self.has_temp(id.local),
        ensures
            *temp == self.temps@[id.local.0 as int],
    {
        &self.temps[id.local.0 as usize]
    }

    /// Whether `id` names a scratch value of this body.
    pub fn contains_temp(&self, id: TempId) -> (b: bool)
        requires
            self.id is Some,
        ensures
            b == (self.id == Some(id.func) && self.has_temp(id.local)),
    {
        id.func == self.id() && (id.local.0 as usize) < self.temps.len()
    }

    /// The use edges of the body, in the order of their indices.
    pub fn use_edges(&self) -> (ids: Vec<UseId>)
        requires
            self.uses@.len() <= u32::MAX,
        ensures
            forall|u: UseId| #[trigger] self.has_use(u) <==> ids@.contains(u),
            forall|i: int, j: int| 0 <= i < j < ids@.len() ==> ids@[i].0 < ids@[j].0,
    {
        let raw = self.uses.ids();
        let mut ids: Vec<UseId> = Vec::new();
        let mut k: usize = 0;
        while k < raw.len()
            invariant
                k <= raw.len(),
                ids@.len() == k,
                forall|j: int| 0 <= j < k ==> #[trigger] ids@[j] == UseId(raw@[j]),
            decreases raw.len() - k,
        {
            ids.push(UseId(raw[k]));
            k = k + 1;
        }
        proof {
            assert forall|u: UseId| #[trigger] self.has_use(u) <==> ids@.contains(u) by {
                if self.has_use(u) {
                    assert(raw@.contains(u.0));
                    let j = choose|j: int| 0 <= j < raw@.len() && raw@[j] == u.0;
                    assert(ids@[j] == u);
                }
                if ids@.contains(u) {
                    let j = choose|j: int| 0 <= j < ids@.len() && ids@[j] == u;
                    assert(raw@.contains(raw@[j]));
                }
            }
        }
        ids
    }

    // The types of operands.

    /// Whether a value is there, in this body or among what is shared.
    pub open spec fn knows(&self, shared: Shared, id: LocalValueId) -> bool {
        match id {
            LocalValueId::Literal(id) => shared.literals.has(id),
            LocalValueId::Bytes(id) => shared.bytes.has(id),
            LocalValueId::Varnode(id) => shared.varnodes.has(id),
            LocalValueId::Poison(id) => shared.poisons.has(id),
            LocalValueId::Instruction(local) => self.has_insn(local),
            LocalValueId::BlockParam(local) => self.has_param(local),
            LocalValueId::Temp(local) => self.has_temp(local),
            LocalValueId::BasicBlock(_) | LocalValueId::Function(_) => true,
        }
    }

    /// The type stored with a value, if its kind stores one.
    pub open spec fn stored_type(&self, shared: Shared, id: LocalValueId) -> Option<TypeId> {
        match id {
            LocalValueId::Literal(id) => Some(shared.literals@[id.0 as int].type_id),
            LocalValueId::Bytes(id) => Some(shared.bytes.at(id).type_id),
            LocalValueId::Varnode(id) => shared.varnodes.at(id).type_id,
            LocalValueId::Poison(id) => Some(shared.poisons.at(id).type_id),
            LocalValueId::Instruction(local) => Some(self.insn_rec(local).type_id),
            LocalValueId::BlockParam(local) => Some(self.param_rec(local).type_id),
            LocalValueId::Temp(_)
            | LocalValueId::BasicBlock(_)
            | LocalValueId::Function(_) => None,
        }
    }

    /// The width in bytes of a value without a stored type.
    pub open spec fn plain_width(&self, shared: Shared, id: LocalValueId) -> usize {
        match id {
            LocalValueId::Varnode(id) => shared.varnodes.at(id).size,
            LocalValueId::Temp(local) => self.temps@[local.0 as int].size,
            _ => 0,
        }
    }

    /// The type stored with a value; none is with scratch values, blocks,
    /// functions and storage locations that were given none.
    pub fn local_stored_type_of(&self, shared: &Shared, id: LocalValueId) -> (type_id: Option<
        TypeId,
    >)
        requires
            self.knows(*shared, id),
        ensures
            type_id == self.stored_type(*shared, id),
    {
        match id {
            LocalValueId::Literal(id) => Some(shared.literals.get(id).type_id),
            LocalValueId::Bytes(id) => Some(shared.bytes.get(id).type_id),
            LocalValueId::Varnode(id) => shared.varnodes.get(id).type_id,
            LocalValueId::Poison(id) => Some(shared.poisons.get(id).type_id),
            LocalValueId::Instruction(local) => Some(self.insns.get(local.0).type_id),
            LocalValueId::BlockParam(local) => Some(self.params.get(local.0).type_id),
            LocalValueId::Temp(_)
            | LocalValueId::BasicBlock(_)
            | LocalValueId::Function(_) => None,
        }
    }

    /// The type of a value: the one stored with it or else an integer of its
    /// width, registered if need be.
    pub fn local_type_of(&self, shared: &mut Shared, id: LocalValueId) -> (type_id: TypeId)
        requires
            old(shared).wf(),
            self.knows(*old(shared), id),
            old(shared).types@.len() < u32::MAX,
        ensures
            final(shared).wf(),
            *final(shared) == (Shared { types: final(shared).types, ..*old(shared) }),
            match self.stored_type(*old(shared), id) {
                Some(stored) => type_id == stored && *final(shared) == *old(shared),
                None => registered(
                    old(shared).types@,
                    (TypeView::Int { size: self.plain_width(*old(shared), id) }),
                    final(shared).types@,
                    type_id,
                ),
            },
    {
        match self.local_stored_type_of(shared, id) {
            Some(stored) => stored,
            None => {
                let size: usize = match id {
                    LocalValueId::Varnode(id) => shared.varnodes.get(id).size,
                    LocalValueId::Temp(local) => self.temps[local.0 as usize].size,
                    _ => 0,
                };
                let ghost shared0 = *shared;
                let type_id = shared.types.get_or_make_int(size);
                proof {
                    lemma_types_grow(shared0, *shared);
                }
                type_id
            },
        }
    }

    /// Stores an instruction whose result is an integer of `size` bytes.
    pub fn push_mnemonic(&mut self, shared: &mut Shared, mnemonic: Mnemonic, size: usize) -> (id:
        InstructionId)
        requires
            old(self).wf(),
            old(self).id is Some,
            old(self).insns.has_room(),
            mnemonic.operands().len() <= 0x1_0000,
            old(self).use_room(mnemonic.operands().len() as int),
            old(shared).wf(),
            old(shared).types@.len() < u32::MAX,
        ensures
            final(self).wf(),
            edges_untouched(*old(self), *final(self)),
            final(self).uses@.len() <= old(self).uses@.len() + mnemonic.operands().len(),
            old(self).uses_complete() && old(self).unmentioned(LocalValueId::Instruction(id.local))
                ==> final(self).uses_complete(),
            operands_issued(old(self)@) ==> old(self).unmentioned(LocalValueId::Instruction(id.local)),
            operands_issued(old(self)@) && all_issued(final(self)@, mnemonic@.operands)
                ==> operands_issued(final(self)@),
            Some(id.func) == old(self).id,
            id.local.0 == old(self)@.insns_issued,
            final(shared).wf(),
            *final(shared) == (Shared { types: final(shared).types, ..*old(shared) }),
            exists|type_id: TypeId|
                {
                    &&& #[trigger] registered(
                        old(shared).types@,
                        (TypeView::Int { size }),
                        final(shared).types@,
                        type_id,
                    )
                    &&& final(self)@ == (BodyView {
                        insns: old(self)@.insns.insert(
                            id.local,
                            InsnView { name: None, type_id, mnemonic: mnemonic@, address: None },
                        ),
                        insns_issued: old(self)@.insns_issued + 1,
                        ..old(self)@
                    })
                },
    {
        let func = self.id();
        let ghost shared0 = *shared;
        let type_id = shared.types.get_or_make_int(size);
        proof {
            lemma_types_grow(shared0, *shared);
        }
        let local = self.push_mnemonic_with_type_local(mnemonic, type_id);
        InstructionId::new(func, local)
    }
}

} // verus!
