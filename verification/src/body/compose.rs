//! Building a whole block at once.

use crate::body::cfg::{edges_untouched, lemma_untouched_trans};
use crate::body::create::empty_block;
use crate::body::naming::{nameable_in, renamed, uniquely_named};
use crate::body::order::moved_last;
use crate::body::{name_known, BlockParam, BlockView, BodyView, FunctionBody, ParamView};
use crate::ids::{LocalBlockId, LocalInsnId, LocalParamId};
use crate::insn::instruction::{InsnView, Instruction};
use crate::names::Name;
use crate::value::LocalValueId;
use vstd::prelude::*;
use vstd::string::*;

verus! {

/// What a list of parameters is.
pub open spec fn param_views(params: Seq<BlockParam>) -> Seq<ParamView> {
    params.map_values(|p: BlockParam| p@)
}

/// What a list of instructions is.
pub open spec fn insn_views(insns: Seq<Instruction>) -> Seq<InsnView> {
    insns.map_values(|i: Instruction| i@)
}

/// `body` with the first `n` of `params` appended to `block`.
pub open spec fn with_params(
    body: BodyView,
    block: LocalBlockId,
    params: Seq<ParamView>,
    n: nat,
) -> BodyView
    decreases n,
{
    if n == 0 {
        body
    } else {
        let prev = with_params(body, block, params, (n - 1) as nat);
        let local = LocalParamId(prev.params_issued as u32);
        BodyView {
            params: prev.params.insert(local, params[n - 1]),
            params_issued: prev.params_issued + 1,
            blocks: prev.blocks.insert(
                block,
                BlockView {
                    params: prev.blocks[block].params.push(local),
                    ..prev.blocks[block]
                },
            ),
            ..prev
        }
    }
}

/// `body` with the first `n` of `insns` appended to `block`.
pub open spec fn with_insns(
    body: BodyView,
    block: LocalBlockId,
    insns: Seq<InsnView>,
    n: nat,
) -> BodyView
    decreases n,
{
    if n == 0 {
        body
    } else {
        let prev = with_insns(body, block, insns, (n - 1) as nat);
        let local = LocalInsnId(prev.insns_issued as u32);
        BodyView {
            insns: prev.insns.insert(local, insns[n - 1]),
            insns_issued: prev.insns_issued + 1,
            blocks: prev.blocks.insert(
                block,
                BlockView {
                    insns: prev.blocks[block].insns.push(local),
                    ..prev.blocks[block]
                },
            ),
            ..prev
        }
    }
}

/// `body` with an empty block `local` at the end of the roster.
pub open spec fn with_block(body: BodyView, local: LocalBlockId) -> BodyView {
    BodyView {
        blocks: body.blocks.insert(local, empty_block()),
        blocks_issued: body.blocks_issued + 1,
        roster: body.roster.push(local),
        ..body
    }
}

/// `after` is `before` with a new block `local` that is called after `text`,
/// made unique, and has the given parameters and instructions.
pub open spec fn built(
    before: BodyView,
    after: BodyView,
    local: LocalBlockId,
    text: Seq<char>,
    params: Seq<ParamView>,
    insns: Seq<InsnView>,
) -> bool {
    &&& local.0 == before.blocks_issued
    &&& exists|named: BodyView, name: Name|
        {
            &&& #[trigger] renamed(
                with_block(before, local),
                named,
                LocalValueId::BasicBlock(local),
                name,
            )
            &&& uniquely_named(before.names, named.names, text, name)
            &&& after == with_insns(
                with_params(named, local, params, params.len()),
                local,
                insns,
                insns.len(),
            )
        }
}

/// Whether a value of a body names something issued, for the given numbers of
/// what has been issued.
pub open spec fn issued(value: LocalValueId, insns: int, blocks: int, params: int) -> bool {
    match value {
        LocalValueId::Instruction(i) => i.0 < insns,
        LocalValueId::BasicBlock(b) => b.0 < blocks,
        LocalValueId::BlockParam(p) => p.0 < params,
        _ => true,
    }
}

/// The number of operands of the first `n` of `insns`.
pub open spec fn operand_sum(insns: Seq<InsnView>, n: nat) -> nat
    decreases n,
{
    if n == 0 {
        0
    } else {
        operand_sum(insns, (n - 1) as nat) + insns[n - 1].mnemonic.operands.len()
    }
}

pub(crate) proof fn lemma_operand_sum(insns: Seq<InsnView>, i: nat, n: nat)
    requires
        i <= n,
    ensures
        operand_sum(insns, i) <= operand_sum(insns, n),
    decreases n - i,
{
    if i < n {
        lemma_operand_sum(insns, i, (n - 1) as nat);
    }
}

/// Whether a value of a body names something that has been issued.
pub open spec fn issued_in(body: BodyView, value: LocalValueId) -> bool {
    issued(
        value,
        body.insns_issued as int,
        body.blocks_issued as int,
        body.params_issued as int,
    )
}

/// Whether all of `values` name something that has been issued.
pub open spec fn all_issued(body: BodyView, values: Seq<LocalValueId>) -> bool {
    forall|k: int| 0 <= k < values.len() ==> issued_in(body, #[trigger] values[k])
}

/// Whether operands name nothing that was never issued.
pub open spec fn operands_issued(body: BodyView) -> bool {
    forall|i: LocalInsnId, k: int|
        body.insns.contains_key(i) && 0 <= k < body.insns[i].mnemonic.operands.len() ==> issued(
            #[trigger] body.insns[i].mnemonic.operands[k],
            body.insns_issued as int,
            body.blocks_issued as int,
            body.params_issued as int,
        )
}

/// Whether the operands of new instructions name nothing that is not issued
/// when their turn comes, after a new block and `params` new parameters.
pub open spec fn new_operands_issued(body: BodyView, params: int, insns: Seq<InsnView>) -> bool {
    forall|n: int, k: int|
        0 <= n < insns.len() && 0 <= k < insns[n].mnemonic.operands.len() ==> issued(
            #[trigger] insns[n].mnemonic.operands[k],
            body.insns_issued + n,
            body.blocks_issued as int + 1,
            body.params_issued + params,
        )
}

/// What has not been issued is named by no operand.
pub(crate) proof fn lemma_unmentioned(body: FunctionBody, value: LocalValueId)
    requires
        operands_issued(body@),
        !issued(
            value,
            body@.insns_issued as int,
            body@.blocks_issued as int,
            body@.params_issued as int,
        ),
    ensures
        body.unmentioned(value),
{
    assert forall|i: LocalInsnId, k: int|
        body.has_insn(i) && 0 <= k < body.operands(i).len() implies #[trigger] body.operands(i)[k]
        != value by {
        assert(body@.insns.contains_key(i));
        assert(body@.insns[i].mnemonic.operands[k] == body.operands(i)[k]);
    }
}

impl FunctionBody {
    /// Appends a new block that is called after `text`, made unique, and has
    /// the given parameters and instructions.
    pub(crate) fn build_block(
        &mut self,
        text: &str,
        params: Vec<BlockParam>,
        insns: Vec<Instruction>,
    ) -> (local: LocalBlockId)
        requires
            old(self).wf(),
            old(self).blocks.has_room(),
            old(self)@.params_issued + params@.len() <= u32::MAX,
            old(self)@.insns_issued + insns@.len() <= u32::MAX,
            old(self)@.names.bases.len() < crate::base::BASE_LIMIT,
            old(self)@.names.few(),
            forall|k: int|
                0 <= k < params@.len() ==> name_known(old(self)@, (#[trigger] params@[k]).name),
            forall|k: int|
                0 <= k < insns@.len() ==> name_known(old(self)@, (#[trigger] insns@[k]).name)
                    && insns@[k].mnemonic.operands().len() <= 0x1_0000,
            old(self).use_room(operand_sum(insn_views(insns@), insns@.len()) as int),
        ensures
            final(self).wf(),
            edges_untouched(*old(self), *final(self)),
            final(self).uses@.len() <= old(self).uses@.len() + operand_sum(
                insn_views(insns@),
                insns@.len(),
            ),
            final(self).id == old(self).id,
            built(
                old(self)@,
                final(self)@,
                local,
                text@,
                param_views(params@),
                insn_views(insns@),
            ),
            old(self).uses_complete() && operands_issued(old(self)@) && new_operands_issued(
                old(self)@,
                params@.len() as int,
                insn_views(insns@),
            ) ==> final(self).uses_complete() && operands_issued(final(self)@),
    {
        let ghost before = *self;
        let ghost tidy = before.uses_complete() && operands_issued(before@) && new_operands_issued(
            before@,
            params@.len() as int,
            insn_views(insns@),
        );
        let ghost ps = param_views(params@);
        let ghost is = insn_views(insns@);
        let local = self.make_block_local();
        proof {
            if tidy {
                lemma_unmentioned(before, LocalValueId::BasicBlock(local));
            }
        }
        let id = LocalValueId::BasicBlock(local);
        let ghost mid = *self;
        proof {
            assert(mid@ == with_block(before@, local));
            assert(mid@.blocks.contains_key(local));
            assert(mid.has_block(local));
            assert(nameable_in(mid, id));
        }
        let name = self.rename_unique(id, text);
        let ghost named = self@;
        let mut params = params;
        let mut rest: Vec<BlockParam> = Vec::new();
        let ghost given = params@;
        while params.len() > 0
            invariant
                given.len() == params.len() + rest.len(),
                forall|k: int| 0 <= k < params.len() ==> params@[k] == given[k],
                forall|k: int| 0 <= k < rest.len() ==> rest@[k] == given[given.len() - 1 - k],
            decreases params.len(),
        {
            if let Some(param) = params.pop() {
                rest.push(param);
            }
        }
        proof {
            assert(self@.blocks.contains_key(local));
            assert(self@.id == before@.id);
            assert(self.uses@.len() == before.uses@.len());
            assert(named.insns == before@.insns);
            assert(tidy ==> operands_issued(self@));
        }
        while rest.len() > 0
            invariant
                self.wf(),
                ps == param_views(given),
                rest.len() <= given.len(),
                forall|k: int| 0 <= k < rest.len() ==> rest@[k] == given[given.len() - 1 - k],
                self.has_block(local),
                edges_untouched(before, *self),
                self.id == before.id,
                self.uses@.len() == before.uses@.len(),
                named.names.bases.len() >= before@.names.bases.len(),
                named.params_issued + given.len() <= u32::MAX,
                named.insns_issued == before@.insns_issued,
                self@ == with_params(named, local, ps, (given.len() - rest.len()) as nat),
                self@.params_issued == named.params_issued + given.len() - rest.len(),
                self@.insns_issued == named.insns_issued,
                self@.insns == before@.insns,
                self@.blocks_issued == before@.blocks_issued + 1,
                self@.names == named.names,
                tidy ==> self.uses_complete() && operands_issued(self@),
                forall|k: int|
                    0 <= k < given.len() ==> name_known(before@, (#[trigger] given[k]).name),
            decreases rest.len(),
        {
            let ghost n = given.len() - rest.len();
            if let Some(param) = rest.pop() {
                proof {
                    assert(param == given[n as int]);
                    assert(name_known(before@, given[n as int].name));
                    assert(ps[n as int] == param@);
                }
                let ghost prev = *self;
                let p = self.push_block_param_local(local, param);
                proof {
                    assert(self@.id == prev@.id);
                    if tidy {
                        lemma_unmentioned(prev, LocalValueId::BlockParam(p));
                    }
                    assert(self@.blocks.contains_key(local));
                    assert forall|x: LocalBlockId| self@.blocks.contains_key(x) implies #[trigger]
                        prev@.blocks.contains_key(x) by {}
                    lemma_untouched_trans(before, prev, *self);
                }
            }
        }
        let ghost framed = self@;
        let mut insns = insns;
        let mut rest: Vec<Instruction> = Vec::new();
        let ghost given = insns@;
        while insns.len() > 0
            invariant
                given.len() == insns.len() + rest.len(),
                forall|k: int| 0 <= k < insns.len() ==> insns@[k] == given[k],
                forall|k: int| 0 <= k < rest.len() ==> rest@[k] == given[given.len() - 1 - k],
            decreases insns.len(),
        {
            if let Some(insn) = insns.pop() {
                rest.push(insn);
            }
        }
        while rest.len() > 0
            invariant
                self.wf(),
                is == insn_views(given),
                rest.len() <= given.len(),
                forall|k: int| 0 <= k < rest.len() ==> rest@[k] == given[given.len() - 1 - k],
                self.has_block(local),
                edges_untouched(before, *self),
                self.id == before.id,
                self.uses@.len() <= before.uses@.len() + operand_sum(
                    is,
                    (given.len() - rest.len()) as nat,
                ),
                before.use_room(operand_sum(is, given.len()) as int),
                framed.insns_issued + given.len() <= u32::MAX,
                framed.names.bases.len() >= before@.names.bases.len(),
                self@ == with_insns(framed, local, is, (given.len() - rest.len()) as nat),
                self@.insns_issued == framed.insns_issued + given.len() - rest.len(),
                self@.names == framed.names,
                self@.blocks_issued == before@.blocks_issued + 1,
                self@.params_issued == framed.params_issued,
                framed.insns_issued == before@.insns_issued,
                tidy ==> new_operands_issued(
                    before@,
                    framed.params_issued - before@.params_issued,
                    is,
                ),
                tidy ==> self.uses_complete() && operands_issued(self@),
                forall|k: int|
                    0 <= k < given.len() ==> name_known(before@, (#[trigger] given[k]).name)
                        && given[k].mnemonic.operands().len() <= 0x1_0000,
            decreases rest.len(),
        {
            let ghost n = given.len() - rest.len();
            let ghost prev = *self;
            if let Some(insn) = rest.pop() {
                proof {
                    assert(insn == given[n as int]);
                    assert(name_known(before@, given[n as int].name));
                    assert(is[n as int] == insn@);
                    lemma_operand_sum(is, (n + 1) as nat, given.len());
                }
                let i = self.push_insn_local(insn);
                let ghost pushed = *self;
                proof {
                    if tidy {
                        lemma_unmentioned(prev, LocalValueId::Instruction(i));
                        assert forall|x: LocalInsnId, k: int|
                            pushed@.insns.contains_key(x) && 0 <= k
                                < pushed@.insns[x].mnemonic.operands.len() implies issued(
                            #[trigger] pushed@.insns[x].mnemonic.operands[k],
                            pushed@.insns_issued as int,
                            pushed@.blocks_issued as int,
                            pushed@.params_issued as int,
                        ) by {
                            if x == i {
                                assert(is[n as int].mnemonic.operands[k]
                                    == pushed@.insns[x].mnemonic.operands[k]);
                            } else {
                                assert(prev@.insns.contains_key(x));
                                assert(prev@.insns[x].mnemonic.operands[k]
                                    == pushed@.insns[x].mnemonic.operands[k]);
                            }
                        }
                    }
                    assert(pushed@.insns.contains_key(i));
                    assert(pushed@.blocks.contains_key(local));
                }
                self.append_insn_local(local, i);
                proof {
                    assert(self@ == moved_last(pushed@, None, local, i));
                    assert(pushed@.id == prev@.id && self@.id == pushed@.id);
                    assert(self@.blocks.contains_key(local));
                    assert(self@ == with_insns(framed, local, is, (n + 1) as nat));
                    assert forall|x: LocalBlockId| self@.blocks.contains_key(x) implies #[trigger]
                        pushed@.blocks.contains_key(x) by {}
                    assert forall|x: LocalBlockId| pushed@.blocks.contains_key(x) implies #[trigger]
                        prev@.blocks.contains_key(x) by {}
                    lemma_untouched_trans(before, prev, pushed);
                    lemma_untouched_trans(before, pushed, *self);
                }
            }
        }
        proof {
            assert(renamed(with_block(before@, local), named, id, name));
        }
        local
    }
}

} // verus!
