//! What blocks that are made or copied as a whole come to.

use crate::body::compose::{built, with_block, with_insns, with_params};
use crate::body::naming::renamed;
use crate::body::{BlockView, BodyView, ParamView};
use crate::clone::{
    clone_map, cloned_across, cloned_within, copied_insn, insns_mapped,
    law_remapping_follows_the_map, moved_insn, moved_map, moved_param, params_for, params_mapped,
};
use crate::context::Context;
use crate::ids::{
    BlockId, BlockParamId, FunctionId, InstructionId, LocalBlockId, LocalInsnId, LocalParamId,
};
use crate::insn::instruction::InsnView;
use crate::names::Name;
use crate::types::{type_size, TypeView};
use crate::value::{LocalValueId, ValueId};
use vstd::prelude::*;

verus! {

proof fn lemma_params(body: BodyView, block: LocalBlockId, params: Seq<ParamView>, n: nat)
    requires
        n <= params.len(),
        body.params_issued + params.len() <= u32::MAX,
        body.blocks.contains_key(block),
        body.blocks[block].params.len() == 0,
    ensures
        ({
            let after = with_params(body, block, params, n);
            let ids = after.blocks[block].params;
            &&& after == (BodyView {
                params: after.params,
                params_issued: body.params_issued + n,
                blocks: after.blocks,
                ..body
            })
            &&& after.blocks == body.blocks.insert(
                block,
                BlockView { params: ids, ..body.blocks[block] },
            )
            &&& ids.len() == n
            &&& forall|k: int|
                0 <= k < n ==> #[trigger] ids[k] == LocalParamId((body.params_issued + k) as u32)
            &&& forall|k: int|
                0 <= k < n ==> after.params.contains_key(#[trigger] ids[k]) && after.params[ids[k]]
                    == params[k]
            &&& forall|p: LocalParamId|
                p.0 < body.params_issued ==> (#[trigger] after.params.contains_key(p)
                    <==> body.params.contains_key(p)) && after.params[p] == body.params[p]
        }),
    decreases n,
{
    if n == 0 {
        assert(body.blocks.insert(
            block,
            BlockView { params: body.blocks[block].params, ..body.blocks[block] },
        ) =~= body.blocks);
    } else {
        lemma_params(body, block, params, (n - 1) as nat);
        let prev = with_params(body, block, params, (n - 1) as nat);
        let after = with_params(body, block, params, n);
        assert(after.blocks =~= body.blocks.insert(
            block,
            BlockView { params: after.blocks[block].params, ..body.blocks[block] },
        ));
    }
}

proof fn lemma_insns(body: BodyView, block: LocalBlockId, insns: Seq<InsnView>, n: nat)
    requires
        n <= insns.len(),
        body.insns_issued + insns.len() <= u32::MAX,
        body.blocks.contains_key(block),
        body.blocks[block].insns.len() == 0,
    ensures
        ({
            let after = with_insns(body, block, insns, n);
            let ids = after.blocks[block].insns;
            &&& after == (BodyView {
                insns: after.insns,
                insns_issued: body.insns_issued + n,
                blocks: after.blocks,
                ..body
            })
            &&& after.blocks == body.blocks.insert(
                block,
                BlockView { insns: ids, ..body.blocks[block] },
            )
            &&& ids.len() == n
            &&& forall|k: int|
                0 <= k < n ==> #[trigger] ids[k] == LocalInsnId((body.insns_issued + k) as u32)
            &&& forall|k: int|
                0 <= k < n ==> after.insns.contains_key(#[trigger] ids[k]) && after.insns[ids[k]]
                    == insns[k]
            &&& forall|i: LocalInsnId|
                i.0 < body.insns_issued ==> (#[trigger] after.insns.contains_key(i)
                    <==> body.insns.contains_key(i)) && after.insns[i] == body.insns[i]
        }),
    decreases n,
{
    if n == 0 {
        assert(body.blocks.insert(
            block,
            BlockView { insns: body.blocks[block].insns, ..body.blocks[block] },
        ) =~= body.blocks);
    } else {
        lemma_insns(body, block, insns, (n - 1) as nat);
        let after = with_insns(body, block, insns, n);
        assert(after.blocks =~= body.blocks.insert(
            block,
            BlockView { insns: after.blocks[block].insns, ..body.blocks[block] },
        ));
    }
}

/// A block that is made as a whole gets the next index, is last on the roster
/// and holds the given parameters and instructions, in their order, under the
/// next indices. Nothing that was there before changes.
pub proof fn law_a_built_block_holds_what_was_given(
    before: BodyView,
    after: BodyView,
    local: LocalBlockId,
    text: Seq<char>,
    params: Seq<ParamView>,
    insns: Seq<InsnView>,
    x: LocalBlockId,
)
    requires
        built(before, after, local, text, params, insns),
        before.params_issued + params.len() <= u32::MAX,
        before.insns_issued + insns.len() <= u32::MAX,
    ensures
        local.0 == before.blocks_issued,
        after.blocks.contains_key(local),
        after.roster == before.roster.push(local),
        after.edges == before.edges,
        after.root == before.root,
        after.blocks[local].name is Some,
        after.blocks[local].address is None,
        after.blocks[local].insns.len() == insns.len(),
        after.blocks[local].params.len() == params.len(),
        forall|k: int|
            0 <= k < insns.len() ==> (#[trigger] after.blocks[local].insns[k]).0
                == before.insns_issued + k && after.insns.contains_key(after.blocks[local].insns[k])
                && after.insns[after.blocks[local].insns[k]] == insns[k],
        forall|k: int|
            0 <= k < params.len() ==> (#[trigger] after.blocks[local].params[k]).0
                == before.params_issued + k && after.params.contains_key(
                after.blocks[local].params[k],
            ) && after.params[after.blocks[local].params[k]] == params[k],
        forall|i: LocalInsnId|
            i.0 < before.insns_issued ==> (#[trigger] after.insns.contains_key(i)
                <==> before.insns.contains_key(i)) && after.insns[i] == before.insns[i],
        forall|p: LocalParamId|
            p.0 < before.params_issued ==> (#[trigger] after.params.contains_key(p)
                <==> before.params.contains_key(p)) && after.params[p] == before.params[p],
        x != local ==> (after.blocks.contains_key(x) <==> before.blocks.contains_key(x))
            && after.blocks[x] == before.blocks[x],
{
    let (named, name) = choose|named: BodyView, name: Name|
        {
            &&& #[trigger] renamed(
                with_block(before, local),
                named,
                LocalValueId::BasicBlock(local),
                name,
            )
            &&& crate::body::naming::uniquely_named(before.names, named.names, text, name)
            &&& after == with_insns(
                with_params(named, local, params, params.len()),
                local,
                insns,
                insns.len(),
            )
        };
    lemma_params(named, local, params, params.len());
    let framed = with_params(named, local, params, params.len());
    lemma_insns(framed, local, insns, insns.len());
}

/// What the map says of the values of a block that is being copied.
proof fn lemma_insns_mapped(
    map: Map<ValueId, ValueId>,
    from: FunctionId,
    old: Seq<LocalInsnId>,
    to: FunctionId,
    first: nat,
    n: nat,
    id: ValueId,
    j: int,
)
    requires
        n <= old.len(),
        old.no_duplicates(),
    ensures
        ({
            let after = insns_mapped(map, from, old, to, first, n);
            &&& 0 <= j < n && id == ValueId::Instruction(InstructionId { func: from, local: old[j] })
                ==> after.contains_key(id) && after[id] == ValueId::Instruction(
                InstructionId { func: to, local: LocalInsnId((first + j) as u32) },
            )
            &&& (forall|k: int|
                0 <= k < n ==> id != ValueId::Instruction(
                    InstructionId { func: from, local: #[trigger] old[k] },
                )) ==> (after.contains_key(id) <==> map.contains_key(id)) && after[id] == map[id]
        }),
    decreases n,
{
    if n > 0 {
        lemma_insns_mapped(map, from, old, to, first, (n - 1) as nat, id, j);
        if 0 <= j < n - 1 {
            assert(old[j] != old[n - 1]);
        }
    }
}

proof fn lemma_params_mapped(
    map: Map<ValueId, ValueId>,
    from: FunctionId,
    old: Seq<LocalParamId>,
    to: FunctionId,
    first: nat,
    n: nat,
    id: ValueId,
    j: int,
)
    requires
        n <= old.len(),
        old.no_duplicates(),
    ensures
        ({
            let after = params_mapped(map, from, old, to, first, n);
            &&& 0 <= j < n && id == ValueId::BlockParam(BlockParamId { func: from, local: old[j] })
                ==> after.contains_key(id) && after[id] == ValueId::BlockParam(
                BlockParamId { func: to, local: LocalParamId((first + j) as u32) },
            )
            &&& (forall|k: int|
                0 <= k < n ==> id != ValueId::BlockParam(
                    BlockParamId { func: from, local: #[trigger] old[k] },
                )) ==> (after.contains_key(id) <==> map.contains_key(id)) && after[id] == map[id]
        }),
    decreases n,
{
    if n > 0 {
        lemma_params_mapped(map, from, old, to, first, (n - 1) as nat, id, j);
        if 0 <= j < n - 1 {
            assert(old[j] != old[n - 1]);
        }
    }
}

/// A copied instruction does what the original does, on the copies: an operand
/// that is a parameter of the block, or an instruction before this one, becomes
/// its copy; another becomes what the map has for it, or stays. Its result is an
/// integer as wide as the original's.
pub proof fn law_a_copied_instruction_uses_the_copies(
    c: Context,
    types: Seq<TypeView>,
    func: FunctionId,
    map: Map<ValueId, ValueId>,
    params: Seq<LocalParamId>,
    first_param: nat,
    insns: Seq<LocalInsnId>,
    first_insn: nat,
    n: nat,
    insn: InsnView,
    p: int,
    j: int,
)
    requires
        n < insns.len(),
        insns.no_duplicates(),
        params.no_duplicates(),
        copied_insn(
            c,
            types,
            func,
            insns[n as int],
            insns_mapped(
                params_mapped(map, func, params, func, first_param, params.len()),
                func,
                insns,
                func,
                first_insn,
                n,
            ),
            insn,
        ),
        0 <= p < c.body_of(func).insn_rec(insns[n as int])@.mnemonic.operands.len(),
    ensures
        ({
            let given = c.body_of(func).insn_rec(insns[n as int])@;
            let was = given.mnemonic.operands[p];
            let is = insn.mnemonic.operands[p];
            &&& insn.mnemonic.operands.len() == given.mnemonic.operands.len()
            &&& insn.name is None
            &&& (types[insn.type_id.0 as int] matches TypeView::Int { size } && size == type_size(
                c.shared.types@,
                given.type_id.0 as int,
            ) as usize)
            &&& 0 <= j < params.len() && was == LocalValueId::BlockParam(params[j]) ==> is
                == LocalValueId::BlockParam(LocalParamId((first_param + j) as u32))
            &&& 0 <= j < n && was == LocalValueId::Instruction(insns[j]) ==> is
                == LocalValueId::Instruction(LocalInsnId((first_insn + j) as u32))
            &&& (forall|k: int|
                0 <= k < params.len() ==> was != LocalValueId::BlockParam(#[trigger] params[k])) && (
            forall|k: int|
                0 <= k < n ==> was != LocalValueId::Instruction(#[trigger] insns[k])) ==> is == (
            if map.contains_key(was.spec_qualify(func)) {
                map[was.spec_qualify(func)].stripped()
            } else {
                was
            })
        }),
{
    let given = c.body_of(func).insn_rec(insns[n as int])@;
    let was = given.mnemonic.operands[p];
    let id = was.spec_qualify(func);
    let map1 = params_mapped(map, func, params, func, first_param, params.len());
    let map2 = insns_mapped(map1, func, insns, func, first_insn, n);
    law_remapping_follows_the_map(given.mnemonic, func, map2, p);
    lemma_insns_mapped(map1, func, insns, func, first_insn, n, id, j);
    lemma_params_mapped(map, func, params, func, first_param, params.len(), id, j);
}

/// A copy of a block in another function has an instruction for each of the
/// original's, in order, with the operation, the operands, the type and the
/// address of the original, and a parameter for each of the original's of the
/// same type.
pub proof fn law_a_block_is_copied_across_as_it_is(
    a: Context,
    b: Context,
    orig: BlockId,
    target: FunctionId,
    local: LocalBlockId,
    k: int,
)
    requires
        cloned_across(a, b, orig, target, local),
        a.body_of(target)@.params_issued + a.body_of(orig.func).block_rec(orig.local).params@.len()
            <= u32::MAX,
        a.body_of(target)@.insns_issued + a.body_of(orig.func).order(orig.local).len() <= u32::MAX,
    ensures
        ({
            let from = a.body_of(orig.func);
            let copy = b.body_of(target)@.blocks[local];
            &&& copy.insns.len() == from.order(orig.local).len()
            &&& copy.params.len() == from.block_rec(orig.local).params@.len()
            &&& 0 <= k < copy.insns.len() ==> {
                let was = from.insn_rec(from.order(orig.local)[k])@;
                let is = b.body_of(target)@.insns[copy.insns[k]];
                is.mnemonic == was.mnemonic && is.type_id == was.type_id && is.address
                    == was.address && is.name is None
            }
            &&& 0 <= k < copy.params.len() ==> {
                let was = from.param_rec(from.block_rec(orig.local).params@[k])@;
                let is = b.body_of(target)@.params[copy.params[k]];
                is.type_id == was.type_id && is.parent == local && is.origin == was.origin && (
                is.name is Some <==> was.name is Some)
            }
        }),
{
    let from = a.body_of(orig.func);
    let params = from.block_rec(orig.local).params@;
    let insns = from.order(orig.local);
    let (mid, ps, is) = choose|mid: BodyView, ps: Seq<ParamView>, is: Seq<InsnView>|
        {
            &&& #[trigger] built(
                mid,
                b.body_of(target)@,
                local,
                crate::clone::moved_label(a, orig),
                ps,
                is,
            )
            &&& mid == (BodyView { names: mid.names, ..a.body_of(target)@ })
            &&& mid.names.held == a.body_of(target)@.names.held
            &&& mid.names.labels == a.body_of(target)@.names.labels
            &&& ps.len() == params.len()
            &&& forall|k: int|
                0 <= k < params.len() ==> moved_param(
                    a,
                    orig.func,
                    params[k],
                    local,
                    mid.names,
                    #[trigger] ps[k],
                )
            &&& is.len() == insns.len()
            &&& forall|k: int|
                0 <= k < insns.len() ==> moved_insn(a, orig.func, insns[k], #[trigger] is[k])
        };
    law_a_built_block_holds_what_was_given(
        mid,
        b.body_of(target)@,
        local,
        crate::clone::moved_label(a, orig),
        ps,
        is,
        local,
    );
    if 0 <= k < insns.len() {
        assert(moved_insn(a, orig.func, insns[k], is[k]));
    }
    if 0 <= k < params.len() {
        assert(moved_param(a, orig.func, params[k], local, mid.names, ps[k]));
    }
}

/// After a block was copied the map tells the copy of each of its parameters and
/// instructions, and of anything else what it told before.
pub proof fn law_the_map_tells_the_copies(
    c: Context,
    orig: BlockId,
    target: FunctionId,
    map: Map<ValueId, ValueId>,
    id: ValueId,
    j: int,
)
    requires
        c.body_of(orig.func).block_rec(orig.local).params@.no_duplicates(),
        c.body_of(orig.func).order(orig.local).no_duplicates(),
    ensures
        ({
            let from = c.body_of(orig.func);
            let params = from.block_rec(orig.local).params@;
            let insns = from.order(orig.local);
            let to = c.body_of(target)@;
            let after = moved_map(c, orig, target, map);
            &&& clone_map(from, orig, map) == moved_map(c, orig, orig.func, map)
            &&& 0 <= j < insns.len() && id == ValueId::Instruction(
                InstructionId { func: orig.func, local: insns[j] },
            ) ==> after.contains_key(id) && after[id] == ValueId::Instruction(
                InstructionId { func: target, local: LocalInsnId((to.insns_issued + j) as u32) },
            )
            &&& 0 <= j < params.len() && id == ValueId::BlockParam(
                BlockParamId { func: orig.func, local: params[j] },
            ) ==> after.contains_key(id) && after[id] == ValueId::BlockParam(
                BlockParamId { func: target, local: LocalParamId((to.params_issued + j) as u32) },
            )
            &&& !(id is Instruction) && !(id is BlockParam) ==> (after.contains_key(id)
                <==> map.contains_key(id)) && after[id] == map[id]
        }),
{
    let from = c.body_of(orig.func);
    let params = from.block_rec(orig.local).params@;
    let insns = from.order(orig.local);
    let to = c.body_of(target)@;
    let map1 = params_mapped(map, orig.func, params, target, to.params_issued, params.len());
    lemma_insns_mapped(map1, orig.func, insns, target, to.insns_issued, insns.len(), id, j);
    lemma_params_mapped(map, orig.func, params, target, to.params_issued, params.len(), id, j);
}

/// A copy of a block within its function has a parameter like each of the
/// original's, and an instruction for each of the original's, in order, whose
/// operands are the copies.
pub proof fn law_a_block_is_copied_within(
    a: Context,
    b: Context,
    orig: BlockId,
    map: Map<ValueId, ValueId>,
    local: LocalBlockId,
    k: int,
    p: int,
    j: int,
)
    requires
        cloned_within(a, b, orig, map, local),
        a.body_of(orig.func)@.params_issued + a.body_of(orig.func).block_rec(
            orig.local,
        ).params@.len() <= u32::MAX,
        a.body_of(orig.func)@.insns_issued + a.body_of(orig.func).order(orig.local).len()
            <= u32::MAX,
        a.body_of(orig.func).block_rec(orig.local).params@.no_duplicates(),
        a.body_of(orig.func).order(orig.local).no_duplicates(),
        0 <= k < a.body_of(orig.func).order(orig.local).len(),
        0 <= p < a.body_of(orig.func).insn_rec(
            a.body_of(orig.func).order(orig.local)[k],
        )@.mnemonic.operands.len(),
    ensures
        ({
            let body = a.body_of(orig.func);
            let params = body.block_rec(orig.local).params@;
            let insns = body.order(orig.local);
            let copy = b.body_of(orig.func)@.blocks[local];
            let was = body.insn_rec(insns[k])@.mnemonic.operands[p];
            let is = b.body_of(orig.func)@.insns[copy.insns[k]].mnemonic.operands[p];
            &&& copy.insns.len() == insns.len()
            &&& copy.params.len() == params.len()
            &&& 0 <= j < params.len() ==> b.body_of(orig.func)@.params[copy.params[j]].type_id
                == body@.params[params[j]].type_id
            &&& 0 <= j < params.len() && was == LocalValueId::BlockParam(params[j]) ==> is
                == LocalValueId::BlockParam(copy.params[j])
            &&& 0 <= j < k && was == LocalValueId::Instruction(insns[j]) ==> is
                == LocalValueId::Instruction(copy.insns[j])
        }),
{
    let body = a.body_of(orig.func);
    let params = body.block_rec(orig.local).params@;
    let insns = body.order(orig.local);
    let map1 = params_mapped(
        map,
        orig.func,
        params,
        orig.func,
        body@.params_issued,
        params.len(),
    );
    let label = crate::clone::clone_label(body.block_rec(orig.local).address);
    let given = params_for(body@, params, local);
    let is = choose|is: Seq<InsnView>|
        {
            &&& #[trigger] built(body@, b.body_of(orig.func)@, local, label, given, is)
            &&& is.len() == insns.len()
            &&& forall|k: int|
                0 <= k < insns.len() ==> copied_insn(
                    a,
                    b.shared.types@,
                    orig.func,
                    insns[k],
                    insns_mapped(map1, orig.func, insns, orig.func, body@.insns_issued, k as nat),
                    #[trigger] is[k],
                )
        };
    law_a_built_block_holds_what_was_given(
        body@,
        b.body_of(orig.func)@,
        local,
        label,
        given,
        is,
        local,
    );
    law_a_copied_instruction_uses_the_copies(
        a,
        b.shared.types@,
        orig.func,
        map,
        params,
        body@.params_issued,
        insns,
        body@.insns_issued,
        k as nat,
        is[k],
        p,
        j,
    );
    let copy = b.body_of(orig.func)@.blocks[local];
    if 0 <= j < params.len() {
        assert(copy.params[j].0 == body@.params_issued + j);
    }
    if 0 <= j < k {
        assert(copy.insns[j].0 == body@.insns_issued + j);
    }
}

} // verus!
