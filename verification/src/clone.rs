//! Copies of blocks.

use crate::block::BasicBlock;
use crate::body::cfg::edges_untouched;
use crate::body::compose::{
    built, insn_views, issued, new_operands_issued, operand_sum, operands_issued, param_views,
};
use crate::body::naming::read_as_text;
use crate::body::{name_known, BlockParam, BodyView, FunctionBody, ParamView};
use crate::context::{lemma_types_grow, Context};
use crate::ids::{
    BlockId, BlockParamId, FunctionId, InstructionId, LocalBlockId, LocalInsnId, LocalParamId,
};
use crate::insn::instruction::{InsnView, Instruction};
use crate::insn::mnemonic::{Mnemonic, MnemonicView};
use crate::insn::substitute::{image, substitute_operands, with_slot_image};
use crate::segment::atoms::both;
use crate::text::{hex, hex_name};
use crate::types::{type_size, TypeView};
use crate::value::{LocalValueId, ValueId};
use crate::value_map::ValueMap;
use vstd::prelude::*;
use vstd::string::*;

verus! {

broadcast use crate::base::group_bases;

/// `map` with the first `n` of `old` mapped to parameters from `first` on.
pub open spec fn params_mapped(
    map: Map<ValueId, ValueId>,
    from: FunctionId,
    old: Seq<LocalParamId>,
    to: FunctionId,
    first: nat,
    n: nat,
) -> Map<ValueId, ValueId>
    decreases n,
{
    if n == 0 {
        map
    } else {
        params_mapped(map, from, old, to, first, (n - 1) as nat).insert(
            ValueId::BlockParam(BlockParamId { func: from, local: old[n - 1] }),
            ValueId::BlockParam(
                BlockParamId { func: to, local: LocalParamId((first + n - 1) as u32) },
            ),
        )
    }
}

/// `map` with the first `n` of `old` mapped to instructions from `first` on.
pub open spec fn insns_mapped(
    map: Map<ValueId, ValueId>,
    from: FunctionId,
    old: Seq<LocalInsnId>,
    to: FunctionId,
    first: nat,
    n: nat,
) -> Map<ValueId, ValueId>
    decreases n,
{
    if n == 0 {
        map
    } else {
        insns_mapped(map, from, old, to, first, (n - 1) as nat).insert(
            ValueId::Instruction(InstructionId { func: from, local: old[n - 1] }),
            ValueId::Instruction(
                InstructionId { func: to, local: LocalInsnId((first + n - 1) as u32) },
            ),
        )
    }
}

/// The first `n` of `operands` that `map` maps, each with what it is mapped
/// to.
pub open spec fn mapped_pairs(
    map: Map<ValueId, ValueId>,
    func: FunctionId,
    operands: Seq<LocalValueId>,
    n: nat,
) -> Seq<(LocalValueId, LocalValueId)>
    decreases n,
{
    if n == 0 {
        Seq::empty()
    } else {
        let rest = mapped_pairs(map, func, operands, (n - 1) as nat);
        let id = operands[n - 1].spec_qualify(func);
        if map.contains_key(id) {
            rest.push((operands[n - 1], map[id].stripped()))
        } else {
            rest
        }
    }
}

/// A mnemonic with its operands replaced as `map` says, all at once.
pub open spec fn remapped(
    m: MnemonicView,
    func: FunctionId,
    map: Map<ValueId, ValueId>,
) -> MnemonicView {
    let pairs = mapped_pairs(map, func, m.operands, m.operands.len());
    MnemonicView {
        shape: with_slot_image(m.shape, pairs),
        operands: m.operands.map_values(|v: LocalValueId| image(pairs, v)),
    }
}

/// The parameters of `body` in the list `old`, for the block `block`.
pub open spec fn params_for(
    body: BodyView,
    old: Seq<LocalParamId>,
    block: LocalBlockId,
) -> Seq<ParamView> {
    Seq::new(old.len(), |k: int| ParamView { parent: block, ..body.params[old[k]] })
}

/// The address of a block after `clone_`; 0 where it has none.
pub open spec fn clone_label(address: Option<u64>) -> Seq<char> {
    "clone_"@ + hex(
        match address {
            Some(address) => address as nat,
            None => 0,
        },
    )
}

/// Whether the block `id` and all its parameters are there, and the operands
/// and the types of its instructions can be copied.
pub open spec fn copyable(c: Context, id: BlockId) -> bool {
    let body = c.body_of(id.func)@;
    &&& c.has_block(id)
    &&& forall|k: int|
        0 <= k < body.blocks[id.local].params.len() ==> body.params.contains_key(
            #[trigger] body.blocks[id.local].params[k],
        )
    &&& forall|k: int|
        0 <= k < body.blocks[id.local].insns.len() ==> c.shared.types.has(
            body.insns[#[trigger] body.blocks[id.local].insns[k]].type_id,
        )
}

/// Whether `body` has room for a copy of a block with `params` parameters,
/// `insns` instructions and `operands` operands.
pub open spec fn has_room_for(body: FunctionBody, params: nat, insns: nat, operands: nat) -> bool {
    &&& body.blocks.has_room()
    &&& body@.params_issued + params <= u32::MAX
    &&& body@.insns_issued + insns <= u32::MAX
    &&& body@.names.bases.len() + params < crate::base::BASE_LIMIT
    &&& body.use_room(operands as int)
    &&& body@.names.few()
}

/// The instructions of a block.
pub open spec fn block_insns(body: BodyView, block: LocalBlockId) -> Seq<InsnView> {
    body.blocks[block].insns.map_values(|i: LocalInsnId| body.insns[i])
}

/// Whether what is mapped within `func` is mapped to what stays in it.
pub open spec fn stays_in(map: Map<ValueId, ValueId>, func: FunctionId) -> bool {
    forall|v: ValueId| #[trigger]
        map.contains_key(v) && v.is_local_to(func) ==> map[v].is_local_to(func)
}

/// Whether what is mapped is mapped to something issued.
pub open spec fn map_issued(map: Map<ValueId, ValueId>, body: BodyView) -> bool {
    forall|v: ValueId| #[trigger]
        map.contains_key(v) ==> issued(
            map[v].stripped(),
            body.insns_issued as int,
            body.blocks_issued as int,
            body.params_issued as int,
        )
}

/// Whether a pair begins with `v`.
spec fn begins(pairs: Seq<(LocalValueId, LocalValueId)>, v: LocalValueId) -> bool {
    exists|j: int| 0 <= j < pairs.len() && (#[trigger] pairs[j]).0 == v
}

/// What a pair puts in is what the map says.
proof fn lemma_image(
    map: Map<ValueId, ValueId>,
    func: FunctionId,
    operands: Seq<LocalValueId>,
    n: nat,
    v: LocalValueId,
)
    requires
        n <= operands.len(),
    ensures
        ({
            let pairs = mapped_pairs(map, func, operands, n);
            let id = v.spec_qualify(func);
            &&& begins(pairs, v) ==> map.contains_key(id) && image(pairs, v) == map[id].stripped()
            &&& !begins(pairs, v) ==> image(pairs, v) == v
            &&& (exists|k: int| 0 <= k < n && operands[k] == v) && map.contains_key(id) ==> begins(
                pairs,
                v,
            )
        }),
    decreases n,
{
    if n > 0 {
        lemma_image(map, func, operands, (n - 1) as nat, v);
        let rest = mapped_pairs(map, func, operands, (n - 1) as nat);
        let pairs = mapped_pairs(map, func, operands, n);
        let w = operands[n - 1];
        if map.contains_key(w.spec_qualify(func)) {
            let pair = (w, map[w.spec_qualify(func)].stripped());
            lemma_image_push(rest, pair, v);
            assert(pairs == rest.push(pair));
            if begins(rest, v) {
                let j = choose|j: int| 0 <= j < rest.len() && (#[trigger] rest[j]).0 == v;
                assert(pairs[j] == rest[j]);
            }
            if w == v {
                assert(pairs[rest.len() as int] == pair);
            }
            if begins(pairs, v) && !begins(rest, v) {
                let j = choose|j: int| 0 <= j < pairs.len() && (#[trigger] pairs[j]).0 == v;
                if j < rest.len() {
                    assert(rest[j] == pairs[j]);
                }
            }
        }
        if exists|k: int| 0 <= k < n && operands[k] == v {
            let k = choose|k: int| 0 <= k < n && operands[k] == v;
            if k < n - 1 {
                assert(exists|k: int| 0 <= k < n - 1 && operands[k] == v);
            }
        }
    }
}

/// One more pair matters to what no pair before it begins with.
proof fn lemma_image_push(
    pairs: Seq<(LocalValueId, LocalValueId)>,
    pair: (LocalValueId, LocalValueId),
    v: LocalValueId,
)
    ensures
        image(pairs.push(pair), v) == (if exists|j: int|
            0 <= j < pairs.len() && (#[trigger] pairs[j]).0 == v {
            image(pairs, v)
        } else if pair.0 == v {
            pair.1
        } else {
            v
        }),
        !(exists|j: int| 0 <= j < pairs.len() && (#[trigger] pairs[j]).0 == v) ==> image(pairs, v)
            == v,
    decreases pairs.len(),
{
    let longer = pairs.push(pair);
    if pairs.len() == 0 {
        assert(longer.skip(1) =~= Seq::empty());
        assert(longer[0] == pair);
    } else {
        assert(longer[0] == pairs[0]);
        assert(longer.skip(1) =~= pairs.skip(1).push(pair));
        lemma_image_push(pairs.skip(1), pair, v);
        let rest = pairs.skip(1);
        if exists|j: int| 0 <= j < pairs.len() && (#[trigger] pairs[j]).0 == v {
            let j = choose|j: int| 0 <= j < pairs.len() && (#[trigger] pairs[j]).0 == v;
            if j > 0 {
                assert(rest[j - 1] == pairs[j]);
            }
        }
        if exists|j: int| 0 <= j < rest.len() && (#[trigger] rest[j]).0 == v {
            let j = choose|j: int| 0 <= j < rest.len() && (#[trigger] rest[j]).0 == v;
            assert(pairs[j + 1] == rest[j]);
        }
    }
}

/// Every operand of a remapped mnemonic is what the map says, or stays.
pub proof fn law_remapping_follows_the_map(
    m: MnemonicView,
    func: FunctionId,
    map: Map<ValueId, ValueId>,
    k: int,
)
    requires
        0 <= k < m.operands.len(),
    ensures
        remapped(m, func, map).operands.len() == m.operands.len(),
        remapped(m, func, map).operands[k] == (if map.contains_key(
            m.operands[k].spec_qualify(func),
        ) {
            map[m.operands[k].spec_qualify(func)].stripped()
        } else {
            m.operands[k]
        }),
{
    let n = m.operands.len();
    lemma_image(map, func, m.operands, n, m.operands[k]);
}

impl FunctionBody {
    /// Copies of the parameters of a block, for the block `to`.
    fn copied_params(&self, block: LocalBlockId, to: LocalBlockId) -> (params: Vec<BlockParam>)
        requires
            self.wf(),
            self.has_block(block),
            forall|k: int|
                0 <= k < self.block_rec(block).params@.len() ==> self.has_param(
                    #[trigger] self.block_rec(block).params@[k],
                ),
        ensures
            param_views(params@) == params_for(self@, self@.blocks[block].params, to),
            forall|k: int|
                0 <= k < params@.len() ==> name_known(self@, (#[trigger] params@[k]).name),
    {
        let old = &self.blocks.get(block.0).params;
        let ghost views = params_for(self@, self@.blocks[block].params, to);
        let mut params: Vec<BlockParam> = Vec::new();
        let mut k: usize = 0;
        while k < old.len()
            invariant
                self.wf(),
                old@ == self.block_rec(block).params@,
                old@ == self@.blocks[block].params,
                views == params_for(self@, self@.blocks[block].params, to),
                k <= old.len(),
                params.len() == k,
                forall|j: int|
                    0 <= j < old@.len() ==> self.has_param(
                        #[trigger] self.block_rec(block).params@[j],
                    ),
                forall|j: int|
                    0 <= j < k ==> (#[trigger] params@[j])@ == views[j] && name_known(
                        self@,
                        params@[j].name,
                    ),
            decreases old.len() - k,
        {
            let id = old[k];
            proof {
                assert(self.has_param(self.block_rec(block).params@[k as int]));
                assert(self@.params.contains_key(id));
                assert(name_known(self@, self@.params[id].name));
            }
            let param = self.params.get(id.0);
            params.push(
                BlockParam {
                    index: param.index,
                    type_id: param.type_id,
                    parent: to,
                    name: param.name,
                    origin: param.origin,
                    protected: param.protected,
                    first_use: None,
                },
            );
            k = k + 1;
        }
        proof {
            assert(param_views(params@) =~= views);
        }
        params
    }
}

/// A mnemonic with its operands replaced as `map` says.
fn remap(mnemonic: &Mnemonic, func: FunctionId, map: &ValueMap) -> (result: Mnemonic)
    requires
        mnemonic.operands().len() <= 0x1_0000,
        stays_in(map@, func),
    ensures
        result@ == remapped(mnemonic@, func, map@),
{
    let mut result = mnemonic.clone();
    let ghost operands = mnemonic.operands();
    let mut pairs: Vec<(LocalValueId, LocalValueId)> = Vec::new();
    let n: usize = mnemonic.operand_count();
    let mut k: usize = 0;
    while k < n
        invariant
            n == operands.len(),
            operands == mnemonic.operands(),
            k <= n,
            stays_in(map@, func),
            pairs@ == mapped_pairs(map@, func, operands, k as nat),
        decreases n - k,
    {
        if let Some(old) = mnemonic.operand(k) {
            let id = old.qualify(func);
            proof {
                assert(id.is_local_to(func));
            }
            if let Some(new) = map.get(id) {
                pairs.push((old, new.localize(func)));
            }
        }
        k = k + 1;
    }
    substitute_operands(&mut result, &pairs);
    result
}

/// Mapping a parameter or an instruction of a function to one of it keeps what
/// is mapped within the function in it.
proof fn lemma_stays_in(map: Map<ValueId, ValueId>, func: FunctionId, a: ValueId, b: ValueId)
    requires
        stays_in(map, func),
        b.is_local_to(func),
    ensures
        stays_in(map.insert(a, b), func),
{
    let after = map.insert(a, b);
    assert forall|v: ValueId| #[trigger]
        after.contains_key(v) && v.is_local_to(func) implies after[v].is_local_to(func) by {
        if v != a {
            assert(map.contains_key(v));
        }
    }
}

impl BasicBlock {
    /// Copies the block `orig` within its function, under a name made of its
    /// address. The copied instructions name the copies of what they named,
    /// and what else `value_map` says; their types are integers of the same
    /// width. `value_map` then also says which copy is of which parameter and
    /// instruction.
    pub fn clone_into_ctx(ctx: &mut Context, orig: BlockId, value_map: &mut ValueMap) -> (copy:
        BlockId)
        requires
            old(ctx).wf(),
            copyable(*old(ctx), orig),
            has_room_for(
                old(ctx).body_of(orig.func),
                old(ctx).body_of(orig.func)@.blocks[orig.local].params.len(),
                old(ctx).body_of(orig.func)@.blocks[orig.local].insns.len(),
                operand_sum(
                    block_insns(old(ctx).body_of(orig.func)@, orig.local),
                    old(ctx).body_of(orig.func)@.blocks[orig.local].insns.len(),
                ),
            ),
            old(ctx).shared.types@.len() + old(ctx).body_of(orig.func)@.blocks[orig.local].insns.len()
                < u32::MAX,
            stays_in(old(value_map)@, orig.func),
        ensures
            final(ctx).wf(),
            copy.func == orig.func,
            cloned_within(*old(ctx), *final(ctx), orig, old(value_map)@, copy.local),
            final(value_map)@ == clone_map(old(ctx).body_of(orig.func), orig, old(value_map)@),
            old(ctx).body_of(orig.func).uses_complete() && operands_issued(
                old(ctx).body_of(orig.func)@,
            ) && map_issued(old(value_map)@, old(ctx).body_of(orig.func)@) ==> final(ctx).body_of(
                orig.func,
            ).uses_complete() && operands_issued(final(ctx).body_of(orig.func)@),
    {
        let f: usize = orig.func.0 as usize;
        let func = orig.func;
        let ghost before = *ctx;
        let ghost body = ctx.body_of(func);
        let ghost map0 = value_map@;
        proof {
            assert(before.body_ok(f as int));
        }
        let digits = match ctx.bodies[f].blocks.get(orig.local.0).address {
            Some(address) => hex_name(address),
            None => hex_name(0),
        };
        let text = both("clone_", digits.as_str());
        let local = LocalBlockId(ctx.bodies[f].blocks.issued() as u32);
        let params = ctx.bodies[f].copied_params(orig.local, local);
        let old_params = &ctx.bodies[f].blocks.get(orig.local.0).params;
        let first_param: usize = ctx.bodies[f].params.issued();
        let mut k: usize = 0;
        while k < old_params.len()
            invariant
                k <= old_params.len(),
                old_params@ == body.block_rec(orig.local).params@,
                first_param == body@.params_issued,
                first_param + old_params.len() <= u32::MAX,
                stays_in(value_map@, func),
                value_map@ == params_mapped(
                    map0,
                    func,
                    old_params@,
                    func,
                    first_param as nat,
                    k as nat,
                ),
            decreases old_params.len() - k,
        {
            let old_id = ValueId::BlockParam(BlockParamId::new(func, old_params[k]));
            let new_id = ValueId::BlockParam(
                BlockParamId::new(func, LocalParamId((first_param + k) as u32)),
            );
            proof {
                lemma_stays_in(value_map@, func, old_id, new_id);
            }
            value_map.insert(old_id, new_id);
            k = k + 1;
        }
        let ghost map1 = value_map@;
        let first_insn: usize = ctx.bodies[f].insns.issued();
        let old_insns = ctx.bodies[f].insn_vec(orig.local);
        let ghost views = block_insns(body@, orig.local);
        let mut insns: Vec<Instruction> = Vec::new();
        let ghost mut is = Seq::<InsnView>::empty();
        let mut k: usize = 0;
        proof {
            assert(body.list_ok(orig.local));
        }
        while k < old_insns.len()
            invariant
                ctx.bodies == before.bodies,
                ctx.same_functions(&before),
                ctx.shared == (crate::context::Shared { types: ctx.shared.types, ..before.shared }),
                ctx.shared.wf(),
                before.wf(),
                f == func.0,
                f < ctx.bodies@.len(),
                orig.func == func,
                body == before.body_of(func),
                body.wf(),
                body.list_ok(orig.local),
                body.has_block(orig.local),
                copyable(before, orig),
                k <= old_insns.len(),
                old_insns@ == body.order(orig.local),
                views == block_insns(body@, orig.local),
                first_insn == body@.insns_issued,
                first_insn + old_insns.len() <= u32::MAX,
                before.shared.types@.len() + old_insns.len() < u32::MAX,
                ctx.shared.types@.len() <= before.shared.types@.len() + k,
                table_grown(before.shared.types@, ctx.shared.types@),
                stays_in(value_map@, func),
                value_map@ == insns_mapped(
                    map1,
                    func,
                    old_insns@,
                    func,
                    first_insn as nat,
                    k as nat,
                ),
                insns.len() == k,
                is == insn_views(insns@),
                operand_sum(is, k as nat) == operand_sum(views, k as nat),
                forall|j: int|
                    0 <= j < k ==> copied_insn(
                        before,
                        ctx.shared.types@,
                        func,
                        old_insns@[j],
                        insns_mapped(map1, func, old_insns@, func, first_insn as nat, j as nat),
                        #[trigger] is[j],
                    ),
                forall|j: int|
                    0 <= j < k ==> (#[trigger] insns@[j]).name is None
                        && insns@[j].mnemonic.operands().len() <= 0x1_0000,
            decreases old_insns.len() - k,
        {
            let old_local = old_insns[k];
            let ghost types0 = ctx.shared.types@;
            proof {
                assert(body.linked_at(orig.local, k as int));
                assert(before.shared.types.has(
                    body.insn_rec(body.order(orig.local)[k as int]).type_id,
                ));
                assert(views[k as int] == body.insn_rec(old_local)@);
            }
            let insn = ctx.bodies[f].insns.get(old_local.0);
            let size: usize = ctx.shared.types.size_of(insn.type_id);
            let mnemonic = remap(&insn.mnemonic, func, value_map);
            proof {
                let m = remapped(insn.mnemonic@, func, value_map@);
                assert(m.operands.len() == insn.mnemonic@.operands.len());
                lemma_sizes_grow(before.shared.types@, types0, insn.type_id.0 as int);
            }
            let ghost old_view = body.insn_rec(old_local)@;
            let ghost shared0 = ctx.shared;
            let type_id = ctx.shared.types.get_or_make_int(size);
            proof {
                lemma_types_grow(shared0, ctx.shared);
                assert forall|j: int| 0 <= j < k implies copied_insn(
                    before,
                    ctx.shared.types@,
                    func,
                    old_insns@[j],
                    insns_mapped(map1, func, old_insns@, func, first_insn as nat, j as nat),
                    #[trigger] is[j],
                ) by {
                    assert(types0[is[j].type_id.0 as int] == ctx.shared.types@[is[j].type_id.0 as int]);
                }
            }
            let ghost earlier = is;
            insns.push(Instruction::new(type_id, mnemonic));
            proof {
                is = insn_views(insns@);
                assert(is =~= earlier.push(insns@[k as int]@));
                lemma_operand_sum_prefix(earlier, is, k as nat);
            }
            let old_id = ValueId::Instruction(InstructionId::new(func, old_local));
            let new_id = ValueId::Instruction(
                InstructionId::new(func, LocalInsnId((first_insn + k) as u32)),
            );
            proof {
                lemma_stays_in(value_map@, func, old_id, new_id);
            }
            value_map.insert(old_id, new_id);
            k = k + 1;
        }
        let ghost types = ctx.shared.types@;
        let ghost ps = param_views(params@);
        proof {
            assert(ps.len() == params@.len());
            if operands_issued(body@) && map_issued(map0, body@) {
                lemma_copies_issued(before, types, orig, map0, is);
            }
        }
        let made = ctx.bodies[f].build_block(text.as_str(), params, insns);
        proof {
            assert forall|g: int| 0 <= g < ctx.bodies@.len() implies #[trigger] ctx.body_ok(g) by {
                assert(before.body_ok(g));
            }
            assert(made == local);
            assert(text@ == clone_label(body.block_rec(orig.local).address));
            assert(ps == params_for(body@, body.block_rec(orig.local).params@, made));
            assert(built(
                body@,
                ctx.body_of(func)@,
                made,
                clone_label(body.block_rec(orig.local).address),
                params_for(body@, body.block_rec(orig.local).params@, made),
                is,
            ));
            assert(ctx.shared == (crate::context::Shared {
                types: ctx.shared.types,
                ..before.shared
            }));
            assert(cloned_within(before, *ctx, orig, map0, made));
        }
        BlockId::new(func, made)
    }
}

/// `insn` is the instruction `old` of `func`, without its name.
pub open spec fn moved_insn(c: Context, func: FunctionId, old: LocalInsnId, insn: InsnView) -> bool {
    insn == (InsnView { name: None, ..c.body_of(func).insn_rec(old)@ })
}

/// `param` is the parameter `old` of `func`, for the block `block` of a body
/// whose names are `names`: its name is written as it was.
pub open spec fn moved_param(
    c: Context,
    func: FunctionId,
    old: LocalParamId,
    block: LocalBlockId,
    names: crate::names::NamesView<LocalValueId>,
    param: ParamView,
) -> bool {
    let given = c.body_of(func).param_rec(old)@;
    &&& param == (ParamView { parent: block, name: param.name, ..given })
    &&& match (given.name, param.name) {
        (Some(a), Some(b)) => b.base.raw() < names.bases.len() && names.text_of(b) == c.body_of(
            func,
        )@.names.text_of(a),
        (None, None) => true,
        _ => false,
    }
}

/// The label of a copy in another function: the name of the block, or else one
/// made of its address.
pub open spec fn moved_label(c: Context, orig: BlockId) -> Seq<char> {
    match c.block_name(orig) {
        Some(name) => name,
        None => clone_label(c.body_of(orig.func).block_rec(orig.local).address),
    }
}

/// `b` is `a` with a copy of `orig` in the function `target`, whose operands
/// are those of `orig`.
pub open spec fn cloned_across(
    a: Context,
    b: Context,
    orig: BlockId,
    target: FunctionId,
    local: LocalBlockId,
) -> bool {
    let body = a.body_of(orig.func);
    let params = body.block_rec(orig.local).params@;
    let insns = body.order(orig.local);
    &&& b.same_functions(&a)
    &&& b.shared == a.shared
    &&& b.bodies@.len() == a.bodies@.len()
    &&& forall|g: int|
        0 <= g < a.bodies@.len() && g != target.0 ==> #[trigger] b.bodies@[g] == a.bodies@[g]
    &&& edges_untouched(a.body_of(target), b.body_of(target))
    &&& exists|mid: BodyView, ps: Seq<ParamView>, is: Seq<InsnView>|
        {
            &&& #[trigger] built(
                mid,
                b.body_of(target)@,
                local,
                moved_label(a, orig),
                ps,
                is,
            )
            &&& mid == (BodyView { names: mid.names, ..a.body_of(target)@ })
            &&& mid.names.held == a.body_of(target)@.names.held
            &&& mid.names.labels == a.body_of(target)@.names.labels
            &&& ps.len() == params.len()
            &&& forall|k: int|
                0 <= k < params.len() ==> moved_param(
                    a,
                    orig.func,
                    params[k],
                    local,
                    mid.names,
                    #[trigger] ps[k],
                )
            &&& is.len() == insns.len()
            &&& forall|k: int|
                0 <= k < insns.len() ==> moved_insn(a, orig.func, insns[k], #[trigger] is[k])
        }
}

/// `map` with the copies, in `target`, of the parameters and the instructions
/// of `orig`.
pub open spec fn moved_map(
    c: Context,
    orig: BlockId,
    target: FunctionId,
    map: Map<ValueId, ValueId>,
) -> Map<ValueId, ValueId> {
    let body = c.body_of(orig.func);
    let params = body.block_rec(orig.local).params@;
    let insns = body.order(orig.local);
    insns_mapped(
        params_mapped(
            map,
            orig.func,
            params,
            target,
            c.body_of(target)@.params_issued,
            params.len(),
        ),
        orig.func,
        insns,
        target,
        c.body_of(target)@.insns_issued,
        insns.len(),
    )
}

impl BasicBlock {
    /// Copies the block `orig` into the function `target`, with its name, made
    /// unique there, and the types and addresses of its instructions. Operands
    /// and targets are left as they are; `value_map` then says which copy is
    /// of which parameter and instruction.
    pub fn clone_block_into(
        ctx: &mut Context,
        orig: BlockId,
        target: FunctionId,
        value_map: &mut ValueMap,
    ) -> (copy: BlockId)
        requires
            old(ctx).wf(),
            old(ctx).has_function(target),
            copyable(*old(ctx), orig),
            has_room_for(
                old(ctx).body_of(target),
                old(ctx).body_of(orig.func)@.blocks[orig.local].params.len(),
                old(ctx).body_of(orig.func)@.blocks[orig.local].insns.len(),
                operand_sum(
                    block_insns(old(ctx).body_of(orig.func)@, orig.local),
                    old(ctx).body_of(orig.func)@.blocks[orig.local].insns.len(),
                ),
            ),
        ensures
            final(ctx).wf(),
            copy.func == target,
            cloned_across(*old(ctx), *final(ctx), orig, target, copy.local),
            final(value_map)@ == moved_map(*old(ctx), orig, target, old(value_map)@),
            old(ctx).body_of(target).uses_complete() && operands_issued(old(ctx).body_of(target)@)
                && new_operands_issued(
                old(ctx).body_of(target)@,
                old(ctx).body_of(orig.func)@.blocks[orig.local].params.len() as int,
                block_insns(old(ctx).body_of(orig.func)@, orig.local),
            ) ==> final(ctx).body_of(target).uses_complete() && operands_issued(
                final(ctx).body_of(target)@,
            ),
    {
        let f: usize = orig.func.0 as usize;
        let t: usize = target.0 as usize;
        let func = orig.func;
        let ghost before = *ctx;
        let ghost body = ctx.body_of(func);
        let ghost map0 = value_map@;
        proof {
            assert(before.body_ok(f as int));
            assert(before.body_ok(t as int));
        }
        let text = match ctx.name_of_block(orig) {
            Some(name) => name,
            None => {
                let digits = match ctx.bodies[f].blocks.get(orig.local.0).address {
                    Some(address) => hex_name(address),
                    None => hex_name(0),
                };
                both("clone_", digits.as_str())
            },
        };
        let local = LocalBlockId(ctx.bodies[t].blocks.issued() as u32);
        let first_param: usize = ctx.bodies[t].params.issued();
        let first_insn: usize = ctx.bodies[t].insns.issued();
        let copies = ctx.bodies[f].copied_params(orig.local, local);
        let texts = ctx.bodies[f].written_names(&copies);
        let old_params = &ctx.bodies[f].blocks.get(orig.local.0).params;
        let mut k: usize = 0;
        while k < old_params.len()
            invariant
                k <= old_params.len(),
                old_params@ == body.block_rec(orig.local).params@,
                first_param == before.body_of(target)@.params_issued,
                first_param + old_params.len() <= u32::MAX,
                value_map@ == params_mapped(
                    map0,
                    func,
                    old_params@,
                    target,
                    first_param as nat,
                    k as nat,
                ),
            decreases old_params.len() - k,
        {
            value_map.insert(
                ValueId::BlockParam(BlockParamId::new(func, old_params[k])),
                ValueId::BlockParam(
                    BlockParamId::new(target, LocalParamId((first_param + k) as u32)),
                ),
            );
            k = k + 1;
        }
        let ghost map1 = value_map@;
        let old_insns = ctx.bodies[f].insn_vec(orig.local);
        let ghost views = block_insns(body@, orig.local);
        let mut insns: Vec<Instruction> = Vec::new();
        let ghost mut is = Seq::<InsnView>::empty();
        let mut k: usize = 0;
        proof {
            assert(body.list_ok(orig.local));
        }
        while k < old_insns.len()
            invariant
                *ctx == before,
                before.wf(),
                f == func.0,
                f < ctx.bodies@.len(),
                orig.func == func,
                body == before.body_of(func),
                body.wf(),
                body.list_ok(orig.local),
                body.has_block(orig.local),
                k <= old_insns.len(),
                old_insns@ == body.order(orig.local),
                views == block_insns(body@, orig.local),
                first_insn == before.body_of(target)@.insns_issued,
                first_insn + old_insns.len() <= u32::MAX,
                value_map@ == insns_mapped(
                    map1,
                    func,
                    old_insns@,
                    target,
                    first_insn as nat,
                    k as nat,
                ),
                insns.len() == k,
                is == insn_views(insns@),
                operand_sum(is, k as nat) == operand_sum(views, k as nat),
                forall|j: int|
                    0 <= j < k ==> moved_insn(before, func, old_insns@[j], #[trigger] is[j]),
                forall|j: int|
                    0 <= j < k ==> (#[trigger] insns@[j]).name is None
                        && insns@[j].mnemonic.operands().len() <= 0x1_0000,
            decreases old_insns.len() - k,
        {
            let old_local = old_insns[k];
            proof {
                assert(body.linked_at(orig.local, k as int));
                assert(views[k as int] == body.insn_rec(old_local)@);
            }
            let insn = ctx.bodies[f].insns.get(old_local.0);
            let mut copy = Instruction::new(insn.type_id, insn.mnemonic.clone());
            copy.address = insn.address;
            let ghost earlier = is;
            insns.push(copy);
            proof {
                is = insn_views(insns@);
                assert(is =~= earlier.push(copy@));
                lemma_operand_sum_prefix(earlier, is, k as nat);
            }
            value_map.insert(
                ValueId::Instruction(InstructionId::new(func, old_local)),
                ValueId::Instruction(
                    InstructionId::new(target, LocalInsnId((first_insn + k) as u32)),
                ),
            );
            k = k + 1;
        }
        proof {
            assert(param_views(copies@).len() == copies@.len());
        }
        let names = ctx.bodies[t].read_names(&texts);
        let ghost mid = ctx.body_of(target);
        proof {
            assert(mid@.id == before.body_of(target)@.id);
        }
        let params = with_names(copies, &names);
        let ghost ps = param_views(params@);
        proof {
            assert forall|k: int| 0 <= k < ps.len() implies moved_param(
                before,
                func,
                body.block_rec(orig.local).params@[k],
                local,
                mid@.names,
                #[trigger] ps[k],
            ) by {
                assert(read_as_text(mid@.names, texts@[k], names@[k]));
                assert(param_views(copies@)[k] == copies@[k]@);
                assert(ps[k] == params@[k]@);
                let old_id = body.block_rec(orig.local).params@[k];
                assert(body.has_param(old_id));
                assert(body@.params[old_id] == body.param_rec(old_id)@);
            }
            assert forall|k: int| 0 <= k < params@.len() implies name_known(
                mid@,
                (#[trigger] params@[k]).name,
            ) by {
                assert(read_as_text(mid@.names, texts@[k], names@[k]));
            }
        }
        proof {
            let views = block_insns(body@, orig.local);
            let from = before.body_of(target)@;
            if new_operands_issued(from, ps.len() as int, views) {
                assert forall|n: int, k: int|
                    0 <= n < is.len() && 0 <= k
                        < is[n].mnemonic.operands.len() implies crate::body::compose::issued(
                    #[trigger] is[n].mnemonic.operands[k],
                    mid@.insns_issued + n,
                    mid@.blocks_issued as int + 1,
                    mid@.params_issued + ps.len() as int,
                ) by {
                    assert(moved_insn(before, func, body.order(orig.local)[n], is[n]));
                    assert(body.list_ok(orig.local));
                    assert(body.linked_at(orig.local, n));
                    assert(body@.blocks[orig.local].insns == body.order(orig.local));
                    assert(views[n].mnemonic.operands == is[n].mnemonic.operands);
                    assert(crate::body::compose::issued(
                        views[n].mnemonic.operands[k],
                        from.insns_issued + n,
                        from.blocks_issued as int + 1,
                        from.params_issued + ps.len() as int,
                    ));
                }
                assert(new_operands_issued(mid@, ps.len() as int, is));
            }
            if operands_issued(from) {
                assert(operands_issued(mid@));
            }
            assert(is == insn_views(insns@));
        }
        let made = ctx.bodies[t].build_block(text.as_str(), params, insns);
        proof {
            assert(made == local);
            assert forall|g: int| 0 <= g < ctx.bodies@.len() implies #[trigger] ctx.body_ok(g) by {
                assert(before.body_ok(g));
            }
            assert(built(mid@, ctx.body_of(target)@, made, moved_label(before, orig), ps, is));
            assert(cloned_across(before, *ctx, orig, target, made));
        }
        BlockId::new(target, made)
    }
}

impl FunctionBody {
    /// How the names that parameters carry are written.
    fn written_names(&self, params: &Vec<BlockParam>) -> (texts: Vec<Option<String>>)
        requires
            self.wf(),
            forall|k: int|
                0 <= k < params@.len() ==> name_known(self@, (#[trigger] params@[k]).name),
        ensures
            texts@.len() == params@.len(),
            forall|k: int|
                0 <= k < params@.len() ==> match (#[trigger] params@[k]).name {
                    Some(name) => texts@[k] matches Some(text) && text@ == self@.names.text_of(
                        name,
                    ),
                    None => texts@[k] is None,
                },
    {
        let mut texts: Vec<Option<String>> = Vec::new();
        let mut k: usize = 0;
        while k < params.len()
            invariant
                k <= params.len(),
                self.wf(),
                texts@.len() == k,
                forall|j: int|
                    0 <= j < params@.len() ==> name_known(self@, (#[trigger] params@[j]).name),
                forall|j: int|
                    0 <= j < k ==> match (#[trigger] params@[j]).name {
                        Some(name) => texts@[j] matches Some(text) && text@
                            == self@.names.text_of(name),
                        None => texts@[j] is None,
                    },
            decreases params.len() - k,
        {
            let text = match params[k].name {
                Some(name) => Some(self.names.render(name)),
                None => None,
            };
            texts.push(text);
            k = k + 1;
        }
        texts
    }
}

/// Parameters with other names.
fn with_names(params: Vec<BlockParam>, names: &Vec<Option<crate::names::Name>>) -> (result: Vec<
    BlockParam,
>)
    requires
        names@.len() == params@.len(),
    ensures
        result@.len() == params@.len(),
        forall|k: int|
            0 <= k < params@.len() ==> (#[trigger] result@[k]) == (BlockParam {
                name: names@[k],
                ..params@[k]
            }),
{
    let mut result: Vec<BlockParam> = Vec::new();
    let mut k: usize = 0;
    while k < params.len()
        invariant
            k <= params.len(),
            names@.len() == params@.len(),
            result@.len() == k,
            forall|j: int|
                0 <= j < k ==> (#[trigger] result@[j]) == (BlockParam {
                    name: names@[j],
                    ..params@[j]
                }),
        decreases params.len() - k,
    {
        let param = &params[k];
        result.push(
            BlockParam {
                index: param.index,
                type_id: param.type_id,
                parent: param.parent,
                name: names[k],
                origin: param.origin,
                protected: param.protected,
                first_use: param.first_use,
            },
        );
        k = k + 1;
    }
    result
}

/// Whether every value of `map` has been issued, for the given numbers of what
/// has been.
spec fn map_below(map: Map<ValueId, ValueId>, insns: int, blocks: int, params: int) -> bool {
    forall|v: ValueId| #[trigger]
        map.contains_key(v) ==> issued(map[v].stripped(), insns, blocks, params)
}

proof fn lemma_params_below(
    map: Map<ValueId, ValueId>,
    func: FunctionId,
    old: Seq<LocalParamId>,
    first: nat,
    n: nat,
    insns: int,
    blocks: int,
)
    requires
        map_below(map, insns, blocks, first as int),
        first + n <= u32::MAX,
    ensures
        map_below(params_mapped(map, func, old, func, first, n), insns, blocks, first as int + n),
    decreases n,
{
    if n > 0 {
        lemma_params_below(map, func, old, first, (n - 1) as nat, insns, blocks);
        let prev = params_mapped(map, func, old, func, first, (n - 1) as nat);
        let after = params_mapped(map, func, old, func, first, n);
        assert forall|v: ValueId| #[trigger] after.contains_key(v) implies issued(
            after[v].stripped(),
            insns,
            blocks,
            first as int + n,
        ) by {
            if v != ValueId::BlockParam(BlockParamId { func, local: old[n - 1] }) {
                assert(prev.contains_key(v));
            }
        }
    } else {
        assert(first + n == first);
    }
}

proof fn lemma_insns_below(
    map: Map<ValueId, ValueId>,
    func: FunctionId,
    old: Seq<LocalInsnId>,
    first: nat,
    n: nat,
    blocks: int,
    params: int,
)
    requires
        map_below(map, first as int, blocks, params),
        first + n <= u32::MAX,
    ensures
        map_below(insns_mapped(map, func, old, func, first, n), first as int + n, blocks, params),
    decreases n,
{
    if n > 0 {
        lemma_insns_below(map, func, old, first, (n - 1) as nat, blocks, params);
        let prev = insns_mapped(map, func, old, func, first, (n - 1) as nat);
        let after = insns_mapped(map, func, old, func, first, n);
        assert forall|v: ValueId| #[trigger] after.contains_key(v) implies issued(
            after[v].stripped(),
            first as int + n,
            blocks,
            params,
        ) by {
            if v != ValueId::Instruction(InstructionId { func, local: old[n - 1] }) {
                assert(prev.contains_key(v));
            }
        }
    } else {
        assert(first + n == first);
    }
}

/// The copies name nothing that is not issued when their turn comes.
proof fn lemma_copies_issued(
    c: Context,
    types: Seq<TypeView>,
    orig: BlockId,
    map: Map<ValueId, ValueId>,
    is: Seq<InsnView>,
)
    requires
        c.wf(),
        copyable(c, orig),
        operands_issued(c.body_of(orig.func)@),
        map_issued(map, c.body_of(orig.func)@),
        ({
            let body = c.body_of(orig.func);
            let params = body.block_rec(orig.local).params@;
            let insns = body.order(orig.local);
            let map1 = params_mapped(
                map,
                orig.func,
                params,
                orig.func,
                body@.params_issued,
                params.len(),
            );
            &&& body@.params_issued + params.len() <= u32::MAX
            &&& body@.insns_issued + insns.len() <= u32::MAX
            &&& is.len() == insns.len()
            &&& forall|k: int|
                0 <= k < insns.len() ==> copied_insn(
                    c,
                    types,
                    orig.func,
                    insns[k],
                    insns_mapped(map1, orig.func, insns, orig.func, body@.insns_issued, k as nat),
                    #[trigger] is[k],
                )
        }),
    ensures
        new_operands_issued(
            c.body_of(orig.func)@,
            c.body_of(orig.func).block_rec(orig.local).params@.len() as int,
            is,
        ),
{
    let func = orig.func;
    let body = c.body_of(func);
    let params = body.block_rec(orig.local).params@;
    let insns = body.order(orig.local);
    let p = body@.params_issued + params.len();
    let b = body@.blocks_issued as int + 1;
    let map1 = params_mapped(map, func, params, func, body@.params_issued, params.len());
    assert(c.body_ok(func.0 as int));
    assert(body.list_ok(orig.local));
    assert(map_below(map, body@.insns_issued as int, b, body@.params_issued as int)) by {
        assert forall|v: ValueId| #[trigger] map.contains_key(v) implies issued(
            map[v].stripped(),
            body@.insns_issued as int,
            b,
            body@.params_issued as int,
        ) by {}
    }
    lemma_params_below(
        map,
        func,
        params,
        body@.params_issued,
        params.len(),
        body@.insns_issued as int,
        b,
    );
    assert forall|n: int, k: int|
        0 <= n < is.len() && 0 <= k < is[n].mnemonic.operands.len() implies issued(
        #[trigger] is[n].mnemonic.operands[k],
        body@.insns_issued + n,
        b,
        p as int,
    ) by {
        let map_n = insns_mapped(map1, func, insns, func, body@.insns_issued, n as nat);
        lemma_insns_below(map1, func, insns, body@.insns_issued, n as nat, b, p as int);
        assert(copied_insn(c, types, func, insns[n], map_n, is[n]));
        assert(body.linked_at(orig.local, n));
        let given = body.insn_rec(insns[n])@.mnemonic;
        law_remapping_follows_the_map(given, func, map_n, k);
        let id = given.operands[k].spec_qualify(func);
        if !map_n.contains_key(id) {
            assert(body@.insns.contains_key(insns[n]));
            assert(body@.insns[insns[n]].mnemonic.operands[k] == given.operands[k]);
        }
    }
}

/// Whether `b` has the types of `a`, and perhaps more.
pub open spec fn table_grown(a: Seq<TypeView>, b: Seq<TypeView>) -> bool {
    a.len() <= b.len() && forall|i: int| 0 <= i < a.len() ==> b[i] == a[i]
}

proof fn lemma_sizes_grow(a: Seq<TypeView>, b: Seq<TypeView>, i: int)
    requires
        table_grown(a, b),
        0 <= i < a.len(),
    ensures
        type_size(a, i) == type_size(b, i),
{
    crate::types::lemma_size_stable(a, b, i);
}

proof fn lemma_operand_sum_prefix(a: Seq<InsnView>, b: Seq<InsnView>, n: nat)
    requires
        n <= a.len() <= b.len(),
        forall|k: int| 0 <= k < n ==> a[k] == b[k],
    ensures
        operand_sum(a, n) == operand_sum(b, n),
    decreases n,
{
    if n > 0 {
        lemma_operand_sum_prefix(a, b, (n - 1) as nat);
    }
}

/// `insn` is a copy of the instruction `old` of `func`: its operands are
/// replaced as `map` says and its type is an integer of the same width, in the
/// table `types`.
pub open spec fn copied_insn(
    c: Context,
    types: Seq<TypeView>,
    func: FunctionId,
    old: LocalInsnId,
    map: Map<ValueId, ValueId>,
    insn: InsnView,
) -> bool {
    let given = c.body_of(func).insn_rec(old)@;
    let size = type_size(c.shared.types@, given.type_id.0 as int);
    &&& insn.name is None
    &&& insn.address is None
    &&& insn.mnemonic == remapped(given.mnemonic, func, map)
    &&& insn.type_id.0 < types.len()
    &&& types[insn.type_id.0 as int] == TypeView::Int { size: size as usize }
}

/// `map` with the copies of the parameters and the instructions of `orig`.
pub open spec fn clone_map(
    body: FunctionBody,
    orig: BlockId,
    map: Map<ValueId, ValueId>,
) -> Map<ValueId, ValueId> {
    let params = body.block_rec(orig.local).params@;
    let insns = body.order(orig.local);
    insns_mapped(
        params_mapped(map, orig.func, params, orig.func, body@.params_issued, params.len()),
        orig.func,
        insns,
        orig.func,
        body@.insns_issued,
        insns.len(),
    )
}

/// `b` is `a` with a copy of `orig` within its function.
pub open spec fn cloned_within(
    a: Context,
    b: Context,
    orig: BlockId,
    map: Map<ValueId, ValueId>,
    local: LocalBlockId,
) -> bool {
    let body = a.body_of(orig.func);
    let params = body.block_rec(orig.local).params@;
    let insns = body.order(orig.local);
    let map1 = params_mapped(
        map,
        orig.func,
        params,
        orig.func,
        body@.params_issued,
        params.len(),
    );
    &&& b.same_functions(&a)
    &&& b.shared == (crate::context::Shared { types: b.shared.types, ..a.shared })
    &&& table_grown(a.shared.types@, b.shared.types@)
    &&& b.bodies@.len() == a.bodies@.len()
    &&& forall|g: int|
        0 <= g < a.bodies@.len() && g != orig.func.0 ==> #[trigger] b.bodies@[g] == a.bodies@[g]
    &&& edges_untouched(body, b.body_of(orig.func))
    &&& exists|is: Seq<InsnView>|
        {
            &&& #[trigger] built(
                body@,
                b.body_of(orig.func)@,
                local,
                clone_label(body.block_rec(orig.local).address),
                params_for(body@, params, local),
                is,
            )
            &&& is.len() == insns.len()
            &&& forall|k: int|
                0 <= k < insns.len() ==> copied_insn(
                    a,
                    b.shared.types@,
                    orig.func,
                    insns[k],
                    insns_mapped(
                        map1,
                        orig.func,
                        insns,
                        orig.func,
                        body@.insns_issued,
                        k as nat,
                    ),
                    #[trigger] is[k],
                )
        }
}

} // verus!
