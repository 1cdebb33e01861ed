//! Edits of a block's list of instructions and parameters as a whole.

use crate::body::cfg::{
    edges_untouched, lemma_kept_trans, lemma_untouched_kept, lemma_untouched_trans, lists_kept,
};
use crate::body::compose::operands_issued;
use crate::body::order::moved_last;
use crate::body::remove::{lemma_removal_kept, without_instruction};
use crate::body::{last_of, BlockParam, BlockView, BodyView, FunctionBody, ParamView};
use crate::context::{lemma_types_grow, Shared};
use crate::ids::{InstructionId, LocalBlockId, LocalInsnId, LocalParamId, TypeId};
use crate::types::TypeView;
use crate::types::intern::registered;
use crate::value::LocalValueId;
use vstd::prelude::*;

verus! {

/// Whether instruction `i` is in block `b`.
pub open spec fn is_in(body: BodyView, i: LocalInsnId, b: LocalBlockId) -> bool {
    body.blocks.contains_key(b) && body.blocks[b].insns.contains(i)
}

/// The block that instruction `i` is in.
pub open spec fn block_of(body: BodyView, i: LocalInsnId) -> Option<LocalBlockId> {
    if exists|b: LocalBlockId| #[trigger] is_in(body, i, b) {
        Some(choose|b: LocalBlockId| #[trigger] is_in(body, i, b))
    } else {
        None
    }
}

/// An instruction is in the block that its record says.
pub(crate) proof fn lemma_block_of(body: FunctionBody, i: LocalInsnId)
    requires
        body.wf(),
        body.has_insn(i),
    ensures
        block_of(body@, i) == body.insn_rec(i).parent,
{
    assert(body.placed_ok(i));
    if let Some(p) = body.insn_rec(i).parent {
        assert(body@.blocks.contains_key(p));
        assert(is_in(body@, i, p));
    }
    assert forall|b: LocalBlockId| #[trigger] is_in(body@, i, b) implies body.insn_rec(i).parent
        == Some(b) by {
        assert(body.has_block(b));
        assert(body.list_ok(b));
        let k = choose|k: int| 0 <= k < body.order(b).len() && body.order(b)[k] == i;
        assert(body.linked_at(b, k));
    }
}

/// `body` with the first `n` of `insns` moved to the end of `block`, one after
/// the other.
pub open spec fn extended(
    body: BodyView,
    block: LocalBlockId,
    insns: Seq<LocalInsnId>,
    n: nat,
) -> BodyView
    decreases n,
{
    if n == 0 {
        body
    } else {
        let prev = extended(body, block, insns, (n - 1) as nat);
        moved_last(prev, block_of(prev, insns[n - 1]), block, insns[n - 1])
    }
}

/// `body` without those of the first `n` of `insns`, of `block`, that `kept`
/// does not keep.
pub open spec fn retained(
    body: BodyView,
    block: LocalBlockId,
    insns: Seq<LocalInsnId>,
    kept: Seq<bool>,
    n: nat,
) -> BodyView
    decreases n,
{
    if n == 0 {
        body
    } else {
        let prev = retained(body, block, insns, kept, (n - 1) as nat);
        if kept[n - 1] {
            prev
        } else {
            without_instruction(prev, Some(block), insns[n - 1])
        }
    }
}

impl FunctionBody {
    /// Moves instructions to the end of a block, one after the other.
    pub fn extend_insns(&mut self, block: LocalBlockId, insns: &Vec<LocalInsnId>)
        requires
            old(self).wf(),
            old(self)@.blocks.contains_key(block),
            forall|k: int| 0 <= k < insns@.len() ==> old(self)@.insns.contains_key(
                    #[trigger] insns@[k],
                ),
        ensures
            final(self).wf(),
            old(self).uses_complete() ==> final(self).uses_complete(),
            operands_issued(old(self)@) ==> operands_issued(final(self)@),
            edges_untouched(*old(self), *final(self)),
            final(self).uses@.len() <= old(self).uses@.len(),
            final(self).id == old(self).id,
            final(self)@ == extended(old(self)@, block, insns@, insns@.len()),
    {
        let mut k: usize = 0;
        while k < insns.len()
            invariant
                k <= insns.len(),
                self.wf(),
                old(self).uses_complete() ==> self.uses_complete(),
                operands_issued(old(self)@) ==> operands_issued(self@),
                edges_untouched(*old(self), *self),
                self.uses@.len() <= old(self).uses@.len(),
                self.id == old(self).id,
                self.has_block(block),
                self@.insns.dom() == old(self)@.insns.dom(),
                forall|j: int|
                    0 <= j < insns@.len() ==> old(self).has_insn(#[trigger] insns@[j]),
                self@ == extended(old(self)@, block, insns@, k as nat),
            decreases insns.len() - k,
        {
            let ghost before = *self;
            proof {
                assert(old(self).has_insn(insns@[k as int]));
                assert(old(self)@.insns.dom().contains(insns@[k as int]));
                assert(self@.insns.contains_key(insns@[k as int]));
                assert(self.has_insn(insns@[k as int]));
                lemma_block_of(*self, insns@[k as int]);
            }
            self.append_insn_local(block, insns[k]);
            proof {
                assert(self@.id == before@.id);
                assert(self@.insns == before@.insns);
                assert(before@.blocks.contains_key(block));
                assert forall|x: LocalBlockId| self@.blocks.contains_key(x) implies #[trigger]
                    before@.blocks.contains_key(x) by {}
                lemma_untouched_trans(*old(self), before, *self);
                assert(self@.blocks.contains_key(block));
            }
            k = k + 1;
        }
    }

    /// Removes the last instruction of a block, where it has one.
    pub fn pop_insn(&mut self, block: LocalBlockId)
        requires
            old(self).wf(),
            old(self).id is Some,
            old(self)@.blocks.contains_key(block),
        ensures
            final(self).wf(),
            old(self).uses_complete() ==> final(self).uses_complete(),
            operands_issued(old(self)@) ==> operands_issued(final(self)@),
            lists_kept(*old(self), *final(self)),
            final(self).uses@.len() <= old(self).uses@.len(),
            final(self).id == old(self).id,
            final(self)@ == (match last_of(old(self).order(block)) {
                Some(last) => without_instruction(old(self)@, Some(block), last),
                None => old(self)@,
            }),
    {
        let ghost before = *self;
        proof {
            assert(self.list_ok(block));
        }
        if let Some(last) = self.blocks.get(block.0).instructions.last {
            proof {
                let s = self.order(block);
                assert(self.linked_at(block, s.len() - 1));
            }
            let func = self.id();
            self.remove_instruction(InstructionId::new(func, last));
            proof {
                assert(self@.id == before@.id);
                lemma_removal_kept(before, *self, last);
            }
        } else {
            proof {
                lemma_untouched_kept(before, *self);
            }
        }
    }

    /// Removes the instructions of a block for which `f` does not hold.
    pub fn retain_insns<F: Fn(InstructionId) -> bool>(&mut self, block: LocalBlockId, f: F)
        requires
            old(self).wf(),
            old(self).id is Some,
            old(self)@.blocks.contains_key(block),
            forall|id: InstructionId| f.requires((id,)),
        ensures
            final(self).wf(),
            old(self).uses_complete() ==> final(self).uses_complete(),
            operands_issued(old(self)@) ==> operands_issued(final(self)@),
            lists_kept(*old(self), *final(self)),
            final(self).uses@.len() <= old(self).uses@.len(),
            final(self).id == old(self).id,
            exists|kept: Seq<bool>|
                {
                    &&& kept.len() == old(self).order(block).len()
                    &&& forall|k: int|
                        0 <= k < kept.len() ==> f.ensures(
                            (InstructionId {
                                func: old(self).id->0,
                                local: old(self).order(block)[k],
                            },),
                            #[trigger] kept[k],
                        )
                    &&& final(self)@ == #[trigger] retained(
                        old(self)@,
                        block,
                        old(self).order(block),
                        kept,
                        kept.len(),
                    )
                },
    {
        let func = self.id();
        let insns = self.insn_vec(block);
        let ghost order = self.order(block);
        let mut kept: Vec<bool> = Vec::new();
        let mut k: usize = 0;
        while k < insns.len()
            invariant
                k <= insns.len(),
                insns@ == order,
                kept@.len() == k,
                forall|id: InstructionId| f.requires((id,)),
                forall|j: int|
                    0 <= j < k ==> f.ensures(
                        (InstructionId { func, local: order[j] },),
                        #[trigger] kept@[j],
                    ),
            decreases insns.len() - k,
        {
            let keep = f(InstructionId::new(func, insns[k]));
            kept.push(keep);
            k = k + 1;
        }
        proof {
            assert(self.list_ok(block));
            assert forall|j: int| 0 <= j < order.len() implies self.has_insn(
                #[trigger] order[j],
            ) && self.insn_rec(order[j]).parent == Some(block) by {
                assert(self.linked_at(block, j));
            }
            lemma_untouched_kept(*self, *self);
        }
        let mut k: usize = 0;
        while k < insns.len()
            invariant
                k <= insns.len(),
                insns@ == order,
                order.no_duplicates(),
                kept@.len() == order.len(),
                self.wf(),
                self.id == Some(func),
                old(self).id == Some(func),
                old(self).uses_complete() ==> self.uses_complete(),
                operands_issued(old(self)@) ==> operands_issued(self@),
                old(self).wf(),
                lists_kept(*old(self), *self),
                self.uses@.len() <= old(self).uses@.len(),
                forall|j: int|
                    k <= j < order.len() ==> self.has_insn(#[trigger] order[j]) && self.insn_rec(
                        order[j],
                    ).parent == Some(block),
                self@ == retained(old(self)@, block, order, kept@, k as nat),
            decreases insns.len() - k,
        {
            let ghost before = *self;
            proof {
                assert(self.has_insn(order[k as int]));
            }
            if !kept[k] {
                self.remove_instruction(InstructionId::new(func, insns[k]));
                proof {
                    assert(self@.id == before@.id);
                    lemma_removal_kept(before, *self, order[k as int]);
                    lemma_kept_trans(*old(self), before, *self);
                    assert forall|j: int| k < j < order.len() implies self.has_insn(
                        #[trigger] order[j],
                    ) && self.insn_rec(order[j]).parent == Some(block) by {
                        assert(before.has_insn(order[j]));
                        assert(order[j] != order[k as int]);
                        assert(before@.insns.contains_key(order[j]));
                        assert(self@.insns.contains_key(order[j]));
                    }
                }
            }
            k = k + 1;
        }
        proof {
            assert(self@ == retained(old(self)@, block, old(self).order(block), kept@, kept@.len()));
        }
    }

    /// Declares a new parameter of a block, an integer of `size` bytes.
    pub fn push_param(&mut self, shared: &mut Shared, block: LocalBlockId, size: usize) -> (local:
        LocalParamId)
        requires
            old(self).wf(),
            old(self)@.blocks.contains_key(block),
            old(self).params.has_room(),
            old(shared).wf(),
            old(shared).types@.len() < u32::MAX,
        ensures
            final(self).wf(),
            edges_untouched(*old(self), *final(self)),
            final(self).uses@.len() == old(self).uses@.len(),
            final(self).id == old(self).id,
            old(self).uses_complete() && old(self).unmentioned(LocalValueId::BlockParam(local))
                ==> final(self).uses_complete(),
            operands_issued(old(self)@) ==> old(self).unmentioned(LocalValueId::BlockParam(local)),
            operands_issued(old(self)@) ==> operands_issued(final(self)@),
            local.0 == old(self)@.params_issued,
            final(shared).wf(),
            *final(shared) == (Shared { types: final(shared).types, ..*old(shared) }),
            exists|type_id: TypeId|
                {
                    &&& #[trigger] registered(
                        old(shared).types@,
                        (TypeView::Int { size }),
                        final(shared).types@,
                        type_id,
                    )
                    &&& final(self)@ == with_param(old(self)@, block, local, type_id)
                },
    {
        let ghost before = *self;
        let index: usize = self.blocks.get(block.0).params.len();
        let ghost shared0 = *shared;
        let type_id = shared.types.get_or_make_int(size);
        proof {
            lemma_types_grow(shared0, *shared);
        }
        let local = self.push_block_param_local(
            block,
            BlockParam {
                index,
                type_id,
                parent: block,
                name: None,
                origin: None,
                protected: false,
                first_use: None,
            },
        );
        proof {
            assert(before@.blocks[block].params == before.block_rec(block).params@);
            assert(self@.id == before@.id);
        }
        local
    }
}

/// `body` with a new parameter of the type `type_id` at the end of the list of
/// `block`.
pub open spec fn with_param(
    body: BodyView,
    block: LocalBlockId,
    local: LocalParamId,
    type_id: TypeId,
) -> BodyView {
    BodyView {
        params: body.params.insert(
            local,
            ParamView {
                index: body.blocks[block].params.len() as usize,
                type_id,
                parent: block,
                name: None,
                origin: None,
                protected: false,
            },
        ),
        params_issued: body.params_issued + 1,
        blocks: body.blocks.insert(
            block,
            BlockView {
                params: body.blocks[block].params.push(local),
                ..body.blocks[block]
            },
        ),
        ..body
    }
}

} // verus!
