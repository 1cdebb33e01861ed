//! Changes to single records that touch neither the order of instructions, nor
//! the control flow, nor the operands.

use crate::block::BasicBlock;
use crate::body::cfg::edges_untouched;
use crate::body::compose::operands_issued;
use crate::body::create::{lemma_same_records, lemma_same_storage, ticked};
use crate::body::naming::{address_taken, unlabelled};
use crate::body::{
    name_known, names_known, BlockParam, BlockView, BodyView, FunctionBody, ParamView, Temp,
    TempView,
};
use crate::ids::{EdgeId, LocalBlockId, LocalInsnId, LocalParamId, LocalTempId, TypeId, UseId};
use crate::insn::instruction::{InsnView, Instruction};
use crate::names::{Name, NamesView};
use crate::value::{LocalValueId, ValueId};
use vstd::prelude::*;
use vstd::string::*;

verus! {

/// Whether two bodies agree on where everything stands, on the operands and on
/// their uses.
pub open spec fn same_frame(a: FunctionBody, b: FunctionBody) -> bool {
    &&& a.insns@.len() == b.insns@.len()
    &&& a.blocks@.len() == b.blocks@.len()
    &&& a.params@.len() == b.params@.len()
    &&& a.temps@.len() == b.temps@.len()
    &&& a.temp_spaces@ == b.temp_spaces@
    &&& a.edges == b.edges
    &&& a.uses == b.uses
    &&& a.use_lists == b.use_lists
    &&& a.shared_first_use == b.shared_first_use
    &&& a.roster == b.roster
    &&& forall|i: LocalInsnId| #[trigger]
        b.has_insn(i) == a.has_insn(i) && (a.has_insn(i) ==> ({
            let x = a.insn_rec(i);
            let y = b.insn_rec(i);
            x.parent == y.parent && x.prev == y.prev && x.next == y.next && x.mnemonic.operands()
                == y.mnemonic.operands() && x.first_use == y.first_use
        }))
    &&& forall|i: LocalBlockId| #[trigger]
        b.has_block(i) == a.has_block(i) && (a.has_block(i) ==> ({
            let x = a.block_rec(i);
            let y = b.block_rec(i);
            x.instructions == y.instructions && x.edges == y.edges && x.first_use == y.first_use
        }))
    &&& forall|i: LocalParamId| #[trigger]
        b.has_param(i) == a.has_param(i) && (a.has_param(i) ==> a.param_rec(i).first_use
            == b.param_rec(i).first_use)
    &&& forall|t: int|
        0 <= t < a.temps@.len() ==> (#[trigger] b.temps@[t]).first_use == a.temps@[t].first_use
}

/// Whether two bodies hold the same in all that says where everything stands,
/// what the operands are and what uses them.
pub open spec fn same_contents(a: FunctionBody, b: FunctionBody) -> bool {
    &&& a.insns@.len() == b.insns@.len()
    &&& a.blocks@.len() == b.blocks@.len()
    &&& a.params@.len() == b.params@.len()
    &&& a.temps@.len() == b.temps@.len()
    &&& a.temp_spaces@ == b.temp_spaces@
    &&& a.edges@ == b.edges@
    &&& a.uses@ == b.uses@
    &&& a.uses.free@ == b.uses.free@
    &&& a.use_lists == b.use_lists
    &&& a.shared_first_use@ == b.shared_first_use@
    &&& a.roster@ == b.roster@
    &&& forall|i: LocalInsnId| #[trigger]
        b.has_insn(i) == a.has_insn(i) && (a.has_insn(i) ==> ({
            let x = a.insn_rec(i);
            let y = b.insn_rec(i);
            x.parent == y.parent && x.prev == y.prev && x.next == y.next && x.mnemonic.operands()
                == y.mnemonic.operands() && x.first_use == y.first_use
        }))
    &&& forall|i: LocalBlockId| #[trigger]
        b.has_block(i) == a.has_block(i) && (a.has_block(i) ==> ({
            let x = a.block_rec(i);
            let y = b.block_rec(i);
            x.instructions == y.instructions && x.edges@ == y.edges@ && x.first_use == y.first_use
        }))
    &&& forall|i: LocalParamId| #[trigger]
        b.has_param(i) == a.has_param(i) && (a.has_param(i) ==> a.param_rec(i).first_use
            == b.param_rec(i).first_use)
    &&& forall|t: int|
        0 <= t < a.temps@.len() ==> (#[trigger] b.temps@[t]).first_use == a.temps@[t].first_use
}

/// What holds of a body holds of one with the same frame.
pub(crate) proof fn lemma_same_frame(a: FunctionBody, b: FunctionBody)
    requires
        a.wf(),
        same_frame(a, b),
        b.names.wf(),
        names_known(b@),
    ensures
        b.wf(),
        a.uses_complete() ==> b.uses_complete(),
{
    lemma_same_contents(a, b);
}

/// What holds of a body holds of one with the same contents.
pub(crate) proof fn lemma_same_contents(a: FunctionBody, b: FunctionBody)
    requires
        a.wf(),
        same_contents(a, b),
        b.names.wf(),
        names_known(b@),
    ensures
        b.wf(),
        a.uses_complete() ==> b.uses_complete(),
{
    assert forall|x: LocalBlockId| b.has_block(x) implies #[trigger] b.list_ok(x) by {
        assert(a.has_block(x));
        assert(a.list_ok(x));
        assert(b.order(x) == a.order(x));
        assert forall|k: int| 0 <= k < b.order(x).len() implies #[trigger] b.linked_at(x, k) by {
            assert(a.linked_at(x, k));
            assert(b.has_insn(a.order(x)[k]));
        }
    }
    assert forall|i: LocalInsnId| b.has_insn(i) implies #[trigger] b.placed_ok(i) by {
        assert(a.has_insn(i));
        assert(a.placed_ok(i));
        if let Some(x) = a.insn_rec(i).parent {
            assert(b.has_block(x));
        }
    }
    assert(b.cfg_wf()) by {
        assert forall|x: LocalBlockId| b.has_block(x) implies #[trigger] b.incident_ok(x) by {
            assert(a.has_block(x));
            assert(a.incident_ok(x));
            assert forall|e: EdgeId| #[trigger] b.block_rec(x).edges@.contains(
                e,
            ) implies b.has_edge(e) && (b.edge_rec(e).from == x || b.edge_rec(e).to == x) by {
                assert(a.block_rec(x).edges@.contains(e));
                assert(a.has_edge(e));
            }
        }
        assert forall|e: EdgeId| b.has_edge(e) implies #[trigger] b.edge_ok(e) by {
            assert(a.has_edge(e));
            assert(a.edge_ok(e));
            assert(b.has_block(a.edge_rec(e).from));
            assert(b.has_block(a.edge_rec(e).to));
        }
    }
    assert(b.operands_bounded()) by {
        assert forall|i: LocalInsnId| #[trigger] b.has_insn(i) implies b.operands(i).len()
            <= 0x1_0000 by {
            assert(a.has_insn(i));
        }
    }
    assert(b.roster_wf()) by {
        assert forall|k: int| 0 <= k < b.roster@.len() implies b.has_block(
            #[trigger] b.roster@[k],
        ) by {
            assert(a.has_block(a.roster@[k]));
        }
    }
    assert forall|v: LocalValueId| #[trigger] b.has_home(v) == a.has_home(v) && b.head_of(v)
        == a.head_of(v) by {
        match v {
            LocalValueId::Instruction(i) => {
                assert(b.has_insn(i) == a.has_insn(i));
            },
            LocalValueId::BasicBlock(i) => {
                assert(b.has_block(i) == a.has_block(i));
            },
            LocalValueId::BlockParam(i) => {
                assert(b.has_param(i) == a.has_param(i));
            },
            LocalValueId::Temp(t) => {
                if a.has_temp(t) {
                    assert(b.temps@[t.0 as int].first_use == a.temps@[t.0 as int].first_use);
                }
            },
            _ => {},
        }
    }
    assert(b.use_lists_wf(None)) by {
        assert forall|v: LocalValueId| #[trigger] b.use_list_ok(v) by {
            assert(a.use_list_ok(v));
            assert(b.has_home(v) == a.has_home(v));
            assert forall|k: int| 0 <= k < b.use_list(v).len() implies #[trigger] b.use_linked_at(
                v,
                k,
            ) by {
                assert(a.use_linked_at(v, k));
            }
        }
        assert forall|u: UseId| b.has_use(u) implies #[trigger] b.use_list(
            b.use_rec(u).value,
        ).contains(u) by {
            assert(a.has_use(u));
            assert(a.use_list(a.use_rec(u).value).contains(u));
        }
    }
    assert(b.uses_faithful()) by {
        assert forall|u: UseId| b.has_use(u) implies #[trigger] b.use_faithful(u) by {
            assert(a.has_use(u));
            assert(a.use_faithful(u));
            assert(b.has_insn(a.use_rec(u).user));
        }
        assert forall|u: UseId, w: UseId, i: LocalInsnId, k: int| #[trigger]
            b.is_use_of(u, i, k) && #[trigger] b.is_use_of(w, i, k) implies u == w by {
            assert(a.is_use_of(u, i, k) && a.is_use_of(w, i, k));
        }
    }
    if a.uses_complete() {
        assert forall|i: LocalInsnId, k: int|
            b.has_insn(i) && 0 <= k < b.operands(i).len() && b.has_home(
                b.operands(i)[k],
            ) implies #[trigger] b.has_use_of(i, k) by {
            assert(a.has_insn(i));
            assert(b.has_home(b.operands(i)[k]) == a.has_home(a.operands(i)[k]));
            assert(a.has_use_of(i, k));
            let u = choose|u: UseId| #[trigger] a.is_use_of(u, i, k);
            assert(b.is_use_of(u, i, k));
        }
    }
}

/// A list of known names stays known where nothing but one record changes.
pub(crate) proof fn lemma_names_stay_known(a: BodyView, b: BodyView)
    requires
        names_known(a),
        b.names.bases.len() >= a.names.bases.len(),
        forall|i: LocalInsnId| #[trigger]
            b.insns.contains_key(i) ==> name_known(b, b.insns[i].name) || (a.insns.contains_key(i)
                && b.insns[i].name == a.insns[i].name),
        forall|i: LocalBlockId| #[trigger]
            b.blocks.contains_key(i) ==> name_known(b, b.blocks[i].name) || (a.blocks.contains_key(
                i,
            ) && b.blocks[i].name == a.blocks[i].name),
        forall|i: LocalParamId| #[trigger]
            b.params.contains_key(i) ==> name_known(b, b.params[i].name) || (a.params.contains_key(
                i,
            ) && b.params[i].name == a.params[i].name),
        b.temps.len() == a.temps.len(),
        forall|t: int|
            0 <= t < b.temps.len() ==> name_known(b, (#[trigger] b.temps[t]).name)
                || b.temps[t].name == a.temps[t].name,
    ensures
        names_known(b),
{
    assert forall|i: LocalInsnId| b.insns.contains_key(i) implies name_known(
        b,
        #[trigger] b.insns[i].name,
    ) by {
        if a.insns.contains_key(i) {
            assert(name_known(a, a.insns[i].name));
        }
    }
    assert forall|i: LocalBlockId| b.blocks.contains_key(i) implies name_known(
        b,
        #[trigger] b.blocks[i].name,
    ) by {
        if a.blocks.contains_key(i) {
            assert(name_known(a, a.blocks[i].name));
        }
    }
    assert forall|i: LocalParamId| b.params.contains_key(i) implies name_known(
        b,
        #[trigger] b.params[i].name,
    ) by {
        if a.params.contains_key(i) {
            assert(name_known(a, a.params[i].name));
        }
    }
    assert forall|t: int| 0 <= t < b.temps.len() implies name_known(
        b,
        #[trigger] b.temps[t].name,
    ) by {
        assert(name_known(a, a.temps[t].name));
    }
}

impl FunctionBody {
    /// Replaces what an instruction is called, its type and its address.
    pub(crate) fn edit_insn(
        &mut self,
        insn: LocalInsnId,
        name: Option<Name>,
        type_id: TypeId,
        address: Option<u64>,
    )
        requires
            old(self).wf(),
            old(self).has_insn(insn),
            name_known(old(self)@, name),
        ensures
            final(self).wf(),
            old(self).uses_complete() ==> final(self).uses_complete(),
            edges_untouched(*old(self), *final(self)),
            final(self).uses@.len() <= old(self).uses@.len(),
            same_frame(*old(self), *final(self)),
            final(self).names == old(self).names,
            final(self)@ == (BodyView {
                insns: old(self)@.insns.insert(
                    insn,
                    (InsnView { name, type_id, address, ..old(self)@.insns[insn] }),
                ),
                ..old(self)@
            }),
    {
        let ghost before = *self;
        let rec = self.insns.get_mut(insn.0);
        rec.name = name;
        rec.type_id = type_id;
        rec.address = address;
        proof {
            assert forall|i: LocalInsnId| #[trigger] self.has_insn(i) == before.has_insn(i) by {}
            assert(self@.insns =~= before@.insns.insert(
                insn,
                (InsnView { name, type_id, address, ..before@.insns[insn] }),
            ));
            assert(self@.blocks =~= before@.blocks);
            assert(self@.params =~= before@.params);
            assert(self@.edges =~= before@.edges);
            lemma_names_stay_known(before@, self@);
            lemma_same_frame(before, *self);
        }
    }

    /// Replaces the plain fields of a block.
    pub(crate) fn edit_block(
        &mut self,
        block: LocalBlockId,
        name: Option<Name>,
        address: Option<u64>,
    )
        requires
            old(self).wf(),
            old(self).has_block(block),
            name_known(old(self)@, name),
        ensures
            final(self).wf(),
            old(self).uses_complete() ==> final(self).uses_complete(),
            edges_untouched(*old(self), *final(self)),
            final(self).uses@.len() <= old(self).uses@.len(),
            same_frame(*old(self), *final(self)),
            final(self).names == old(self).names,
            final(self)@ == (BodyView {
                blocks: old(self)@.blocks.insert(
                    block,
                    (BlockView { name, address, ..old(self)@.blocks[block] }),
                ),
                ..old(self)@
            }),
    {
        let ghost before = *self;
        let rec = self.blocks.get_mut(block.0);
        rec.name = name;
        rec.address = address;
        proof {
            assert(self@.blocks =~= before@.blocks.insert(
                block,
                (BlockView { name, address, ..before@.blocks[block] }),
            ));
            assert(self@.insns =~= before@.insns);
            assert(self@.params =~= before@.params);
            assert(self@.edges =~= before@.edges);
            lemma_names_stay_known(before@, self@);
            lemma_same_frame(before, *self);
        }
    }

    /// Sets or clears the comment of a block.
    pub fn set_comment(&mut self, block: LocalBlockId, comment: Option<String>)
        requires
            old(self).wf(),
            old(self)@.blocks.contains_key(block),
        ensures
            final(self).wf(),
            old(self).uses_complete() ==> final(self).uses_complete(),
            operands_issued(old(self)@) ==> operands_issued(final(self)@),
            edges_untouched(*old(self), *final(self)),
            final(self).uses@.len() <= old(self).uses@.len(),
            final(self)@ == (BodyView {
                blocks: old(self)@.blocks.insert(
                    block,
                    (BlockView { comment, ..old(self)@.blocks[block] }),
                ),
                ..old(self)@
            }),
    {
        let ghost before = *self;
        let rec = self.blocks.get_mut(block.0);
        rec.comment = comment;
        proof {
            assert(self@.blocks =~= before@.blocks.insert(
                block,
                (BlockView { comment, ..before@.blocks[block] }),
            ));
            assert(self@.insns =~= before@.insns);
            assert(self@.params =~= before@.params);
            assert(self@.edges =~= before@.edges);
            lemma_names_stay_known(before@, self@);
            lemma_same_frame(before, *self);
        }
    }

    /// Makes a block cover one more address, and counts the change.
    pub fn cover_address(&mut self, block: LocalBlockId, address: u64)
        requires
            old(self).wf(),
            old(self)@.blocks.contains_key(block),
        ensures
            final(self).wf(),
            old(self).uses_complete() ==> final(self).uses_complete(),
            operands_issued(old(self)@) ==> operands_issued(final(self)@),
            edges_untouched(*old(self), *final(self)),
            final(self).uses@.len() <= old(self).uses@.len(),
            final(self)@ == ticked(
                BodyView {
                    blocks: old(self)@.blocks.insert(
                        block,
                        (BlockView {
                            extra_addresses: old(self)@.blocks[block].extra_addresses.push(
                                address,
                            ),
                            ..old(self)@.blocks[block]
                        }),
                    ),
                    ..old(self)@
                },
            ),
    {
        let ghost before = *self;
        let rec = self.blocks.get_mut(block.0);
        rec.extra_addresses.push(address);
        proof {
            assert(self@.blocks =~= before@.blocks.insert(
                block,
                (BlockView {
                    extra_addresses: before@.blocks[block].extra_addresses.push(address),
                    ..before@.blocks[block]
                }),
            ));
            assert(self@.insns =~= before@.insns);
            assert(self@.params =~= before@.params);
            assert(self@.edges =~= before@.edges);
            lemma_names_stay_known(before@, self@);
            lemma_same_frame(before, *self);
        }
        self.touch_shape();
    }

    /// Appends a parameter that is there to the list of a block.
    pub fn push_existing_param(&mut self, block: LocalBlockId, param: LocalParamId)
        requires
            old(self).wf(),
            old(self)@.blocks.contains_key(block),
        ensures
            final(self).wf(),
            old(self).uses_complete() ==> final(self).uses_complete(),
            operands_issued(old(self)@) ==> operands_issued(final(self)@),
            edges_untouched(*old(self), *final(self)),
            final(self).uses@.len() <= old(self).uses@.len(),
            same_frame(*old(self), *final(self)),
            final(self)@ == (BodyView {
                blocks: old(self)@.blocks.insert(
                    block,
                    (BlockView {
                        params: old(self)@.blocks[block].params.push(param),
                        ..old(self)@.blocks[block]
                    }),
                ),
                ..old(self)@
            }),
    {
        let ghost before = *self;
        let rec = self.blocks.get_mut(block.0);
        rec.params.push(param);
        proof {
            assert(self@.blocks =~= before@.blocks.insert(
                block,
                (BlockView {
                    params: before@.blocks[block].params.push(param),
                    ..before@.blocks[block]
                }),
            ));
            assert(self@.insns =~= before@.insns);
            assert(self@.params =~= before@.params);
            assert(self@.edges =~= before@.edges);
            lemma_names_stay_known(before@, self@);
            lemma_same_frame(before, *self);
        }
    }

    /// Replaces the plain fields of a parameter.
    pub(crate) fn edit_param(
        &mut self,
        param: LocalParamId,
        name: Option<Name>,
        type_id: TypeId,
        origin: Option<ValueId>,
    )
        requires
            old(self).wf(),
            old(self).has_param(param),
            name_known(old(self)@, name),
        ensures
            final(self).wf(),
            old(self).uses_complete() ==> final(self).uses_complete(),
            edges_untouched(*old(self), *final(self)),
            final(self).uses@.len() <= old(self).uses@.len(),
            same_frame(*old(self), *final(self)),
            final(self).names == old(self).names,
            final(self)@ == (BodyView {
                params: old(self)@.params.insert(
                    param,
                    (ParamView { name, type_id, origin, ..old(self)@.params[param] }),
                ),
                ..old(self)@
            }),
    {
        let ghost before = *self;
        let rec = self.params.get_mut(param.0);
        rec.name = name;
        rec.type_id = type_id;
        rec.origin = origin;
        proof {
            assert(self@.params =~= before@.params.insert(
                param,
                (ParamView { name, type_id, origin, ..before@.params[param] }),
            ));
            assert(self@.insns =~= before@.insns);
            assert(self@.blocks =~= before@.blocks);
            assert(self@.edges =~= before@.edges);
            lemma_names_stay_known(before@, self@);
            lemma_same_frame(before, *self);
        }
    }

    /// Replaces the name of a scratch value.
    pub(crate) fn edit_temp(&mut self, temp: LocalTempId, name: Option<Name>)
        requires
            old(self).wf(),
            old(self).has_temp(temp),
            name_known(old(self)@, name),
        ensures
            final(self).wf(),
            old(self).uses_complete() ==> final(self).uses_complete(),
            edges_untouched(*old(self), *final(self)),
            final(self).uses@.len() <= old(self).uses@.len(),
            same_frame(*old(self), *final(self)),
            final(self).names == old(self).names,
            final(self)@ == (BodyView {
                temps: old(self)@.temps.update(
                    temp.0 as int,
                    (TempView { name, ..old(self)@.temps[temp.0 as int] }),
                ),
                ..old(self)@
            }),
    {
        let ghost before = *self;
        let t: usize = temp.0 as usize;
        let offset: u64 = self.temps[t].offset;
        let size: usize = self.temps[t].size;
        let space = self.temps[t].space;
        let first_use = self.temps[t].first_use;
        self.temps.set(t, Temp { offset, size, space, name, first_use });
        proof {
            assert(self@.temps =~= before@.temps.update(
                temp.0 as int,
                (TempView { name, ..before@.temps[temp.0 as int] }),
            ));
            assert(self@.insns =~= before@.insns);
            assert(self@.blocks =~= before@.blocks);
            assert(self@.params =~= before@.params);
            assert(self@.edges =~= before@.edges);
            lemma_names_stay_known(before@, self@);
            lemma_same_frame(before, *self);
        }
    }

    /// Puts a block at the end of the roster, unless it is on it.
    pub fn add_block(&mut self, block: LocalBlockId)
        requires
            old(self).wf(),
            old(self)@.blocks.contains_key(block),
        ensures
            final(self).wf(),
            old(self).uses_complete() ==> final(self).uses_complete(),
            operands_issued(old(self)@) ==> operands_issued(final(self)@),
            final(self).uses@.len() <= old(self).uses@.len(),
            *final(self) == (FunctionBody { roster: final(self).roster, ..*old(self) }),
            final(self)@ == (BodyView {
                roster: if old(self)@.roster.contains(block) {
                    old(self)@.roster
                } else {
                    old(self)@.roster.push(block)
                },
                ..old(self)@
            }),
    {
        let ghost before = *self;
        let mut k: usize = 0;
        while k < self.roster.len()
            invariant
                *self == before,
                before == *old(self),
                before.wf(),
                k <= self.roster.len(),
                forall|j: int| 0 <= j < k ==> self.roster@[j] != block,
            decreases self.roster.len() - k,
        {
            if self.roster[k] == block {
                proof {
                    assert(before.roster@[k as int] == block);
                }
                return;
            }
            k = k + 1;
        }
        self.roster.push(block);
        proof {
            assert(!before.roster@.contains(block));
            assert(self.roster_wf()) by {
                assert forall|j: int| 0 <= j < self.roster@.len() implies self.has_block(
                    #[trigger] self.roster@[j],
                ) by {
                    if j < before.roster@.len() {
                        assert(before.has_block(before.roster@[j]));
                    }
                }
            }
            lemma_same_records(before, *self);
        }
    }

    /// Records the address of a machine instruction lifted into the function.
    pub fn add_instruction_addr(&mut self, address: u64)
        requires
            old(self).wf(),
        ensures
            final(self).wf(),
            old(self).uses_complete() ==> final(self).uses_complete(),
            operands_issued(old(self)@) ==> operands_issued(final(self)@),
            edges_untouched(*old(self), *final(self)),
            final(self).uses@.len() <= old(self).uses@.len(),
            final(self)@ == (BodyView {
                instruction_addrs: old(self)@.instruction_addrs.insert(address),
                ..old(self)@
            }),
    {
        broadcast use vstd::std_specs::btree::group_btree_axioms;

        let ghost before = *self;
        self.instruction_addrs.insert(address);
        proof {
            lemma_same_storage(before, *self);
        }
    }

    /// Sets the address of a block and counts the change. A block without a
    /// name is labelled with its address, unless that label is taken.
    pub fn set_block_address(&mut self, block: LocalBlockId, address: u64)
        requires
            old(self).wf(),
            old(self)@.blocks.contains_key(block),
        ensures
            final(self).wf(),
            old(self).uses_complete() ==> final(self).uses_complete(),
            operands_issued(old(self)@) ==> operands_issued(final(self)@),
            edges_untouched(*old(self), *final(self)),
            final(self).uses@.len() <= old(self).uses@.len(),
            final(self).id == old(self).id,
            final(self)@ == with_block_address(old(self)@, block, address),
    {
        let ghost before = *self;
        let old_address = self.blocks.get(block.0).address;
        let name = self.blocks.get(block.0).name;
        proof {
            assert(before@.blocks.contains_key(block));
            assert(name_known(before@, before@.blocks[block].name));
        }
        self.edit_block(block, name, Some(address));
        let ghost edited = *self;
        self.touch_shape();
        if name.is_none() {
            if let Some(old_address) = old_address {
                self.unlabel_block(block, old_address);
            }
            let _ = self.label_block(block, address);
        }
        proof {
            assert(self@.id == before@.id);
            assert(edges_untouched(before, edited));
            assert(self.blocks == edited.blocks);
            assert forall|x: LocalBlockId|
                before.has_block(x) && self.has_block(x) implies #[trigger] self.block_rec(x).edges
                == before.block_rec(x).edges by {
                assert(edited.has_block(x) && edited.block_rec(x) == self.block_rec(x));
            }
        }
    }
}

/// `names` once a block without a name has moved from one address to another.
pub open spec fn relabelled(
    names: NamesView<LocalValueId>,
    block: LocalBlockId,
    from: Option<u64>,
    to: u64,
) -> NamesView<LocalValueId> {
    let loose = match from {
        Some(from) => unlabelled(names, block, from),
        None => names,
    };
    if address_taken(loose, to) {
        loose
    } else {
        NamesView { labels: loose.labels.insert(to, LocalValueId::BasicBlock(block)), ..loose }
    }
}

/// `body` with `block` at `address`.
pub open spec fn with_block_address(body: BodyView, block: LocalBlockId, address: u64) -> BodyView {
    let given = body.blocks[block];
    ticked(
        BodyView {
            blocks: body.blocks.insert(block, BlockView { address: Some(address), ..given }),
            names: if given.name is None {
                relabelled(body.names, block, given.address, address)
            } else {
                body.names
            },
            ..body
        },
    )
}

} // verus!
