//! A block of a module.

use crate::block::BasicBlock;
use crate::body::absorb::{
    absorbed, lists_absorbed, params_bound, same_but_operands, with_params_bound,
};
use crate::body::blocks::without_block;
use crate::body::blockwise::{extended, retained, with_param};
use crate::body::cfg::{edges_untouched, lemma_filtered_kept};
use crate::body::compose::operands_issued;
use crate::body::create::ticked;
use crate::body::edit::with_block_address;
use crate::body::naming::rename_outcome;
use crate::body::order::{moved_before, moved_last, taken_out, with_order};
use crate::body::remove::without_instruction;
use crate::body::{first_of, last_of, BlockView, BodyView, FunctionBody};
use crate::context::{Context, Shared};
use crate::error::Error;
use crate::function::edit::FunctionMutRef;
use crate::function::refs::FunctionRef;
use crate::function::root::{body_grown, body_rewired, body_set, lemma_body_set, other_block_at};
use crate::ids::{
    BlockId, BlockParamId, EdgeId, FunctionId, InstructionId, LocalBlockId, LocalInsnId,
    LocalParamId, TypeId,
};
use crate::segment::line::block_text;
use crate::segment::render::{block_display, block_renders};
use crate::types::TypeView;
use crate::types::intern::registered;
use crate::value::{LocalValueId, ValueId};
use vstd::prelude::*;

verus! {

/// A block of a module.
#[derive(Clone, Copy)]
pub struct BlockRef<'a> {
    pub ctx: &'a Context,
    pub id: BlockId,
}

/// A block of a module, to change.
pub struct BlockMutRef<'a> {
    pub ctx: &'a mut Context,
    pub id: BlockId,
}

/// Whether a block of the function `f` is called `text`.
pub open spec fn block_named_in(c: Context, f: int, text: Seq<char>) -> bool {
    exists|b: LocalBlockId| #[trigger]
        c.bodies@[f]@.names.found(text, LocalValueId::BasicBlock(b))
}

impl BasicBlock {
    /// The block `id`, to read.
    pub fn from_id<'a>(ctx: &'a Context, id: BlockId) -> (r: BlockRef<'a>)
        ensures
            r.ctx == ctx,
            r.id == id,
    {
        BlockRef { ctx, id }
    }

    /// The block `id`, to change.
    pub fn from_id_mut<'a>(ctx: &'a mut Context, id: BlockId) -> (r: BlockMutRef<'a>)
        ensures
            r.now() == *old(ctx),
            r.id == id,
            *final(r.ctx) == *final(ctx),
    {
        BlockMutRef { ctx, id }
    }

    /// The block called `name` of the first function that has one.
    pub fn from_name<'a>(ctx: &'a Context, name: &str) -> (r: Option<BlockRef<'a>>)
        requires
            ctx.wf(),
        ensures
            match r {
                Some(r) => r.ctx == ctx && ctx.has_function(r.id.func) && ctx.body_of(
                    r.id.func,
                )@.names.found(name@, LocalValueId::BasicBlock(r.id.local)) && forall|f: int|
                    0 <= f < r.id.func.0 ==> !#[trigger] block_named_in(*ctx, f, name@),
                None => forall|f: int|
                    0 <= f < ctx.bodies@.len() ==> !#[trigger] block_named_in(*ctx, f, name@),
            },
    {
        let n: usize = ctx.bodies.len();
        let mut f: usize = 0;
        while f < n
            invariant
                n == ctx.bodies@.len(),
                ctx.wf(),
                f <= n,
                forall|g: int| 0 <= g < f ==> !#[trigger] block_named_in(*ctx, g, name@),
            decreases n - f,
        {
            proof {
                assert(ctx.body_ok(f as int));
            }
            if let Some(LocalValueId::BasicBlock(local)) = ctx.bodies[f].local_named(name) {
                return Some(BlockRef { ctx, id: BlockId { func: FunctionId(f as u32), local } });
            }
            f = f + 1;
        }
        None
    }

    /// A new block of `func`, at the end of its roster.
    pub fn make<'a>(ctx: &'a mut Context, func: FunctionId) -> (r: BlockMutRef<'a>)
        requires
            old(ctx).wf(),
            old(ctx).has_function(func),
            old(ctx).body_of(func).blocks.has_room(),
        ensures
            r.wf(),
            r.id.func == func,
            r.id.local.0 == old(ctx).body_of(func)@.blocks_issued,
            *final(r.ctx) == *final(ctx),
            body_grown(
                *old(ctx),
                r.now(),
                func,
                crate::body::compose::with_block(old(ctx).body_of(func)@, r.id.local),
                LocalValueId::BasicBlock(r.id.local),
            ),
    {
        let ghost before = *ctx;
        let f: usize = func.0 as usize;
        proof {
            assert(before.body_ok(f as int));
        }
        let local = ctx.bodies[f].make_block_local();
        proof {
            assert(ctx.body_of(func)@.id == before.body_of(func)@.id);
            lemma_body_set(before, *ctx, func);
            assert(ctx.body_of(func)@.blocks.contains_key(local));
        }
        BlockMutRef { ctx, id: BlockId::new(func, local) }
    }
}

impl<'a> BlockRef<'a> {
    /// The module as it is.
    pub open spec fn now(&self) -> Context {
        *self.ctx
    }

    /// Whether there is such a block.
    pub open spec fn wf(&self) -> bool {
        self.now().wf() && self.now().has_block(self.id)
    }

    /// The body that holds the block.
    pub open spec fn body(&self) -> FunctionBody {
        self.now().body_of(self.id.func)
    }

    /// What the block is.
    pub open spec fn at(&self) -> BlockView {
        self.body()@.blocks[self.id.local]
    }

    /// The record of the block.
    pub open spec fn rec(&self) -> BasicBlock {
        self.body().block_rec(self.id.local)
    }

    pub fn id(&self) -> (id: ValueId)
        ensures
            id == ValueId::BasicBlock(self.id),
    {
        ValueId::BasicBlock(self.id)
    }

    fn ctx_body(&self) -> (body: &'a FunctionBody)
        requires
            self.wf(),
        ensures
            *body == self.body(),
            body.wf(),
            body.id == Some(self.id.func),
            body.has_block(self.id.local),
    {
        proof {
            assert(self.now().body_ok(self.id.func.0 as int));
        }
        &self.ctx.bodies[self.id.func.0 as usize]
    }

    fn inner(&self) -> (block: &'a BasicBlock)
        requires
            self.wf(),
        ensures
            *block == self.rec(),
    {
        self.ctx_body().blocks.get(self.id.local.0)
    }

    /// The address of the block.
    pub fn address(&self) -> (address: Option<u64>)
        requires
            self.wf(),
        ensures
            address == self.at().address,
    {
        self.inner().address
    }

    /// How many parameters the block has.
    pub fn num_params(&self) -> (n: usize)
        requires
            self.wf(),
        ensures
            n == self.at().params.len(),
    {
        self.inner().params.len()
    }

    /// How many instructions the block has.
    pub fn len(&self) -> (n: usize)
        requires
            self.wf(),
        ensures
            n == self.at().insns.len(),
    {
        self.ctx_body().block_len(self.id.local)
    }

    /// Whether the block has no instructions.
    pub fn is_empty(&self) -> (b: bool)
        requires
            self.wf(),
        ensures
            b == (self.at().insns.len() == 0),
    {
        self.ctx_body().block_len(self.id.local) == 0
    }

    /// The first instruction.
    pub fn first_instruction(&self) -> (id: Option<InstructionId>)
        requires
            self.wf(),
        ensures
            id == (match first_of(self.at().insns) {
                Some(local) => Some(InstructionId { func: self.id.func, local }),
                None => None,
            }),
    {
        match self.ctx_body().first_in(self.id.local) {
            Some(local) => Some(InstructionId::new(self.id.func, local)),
            None => None,
        }
    }

    /// The last instruction: the terminator, once the block has one.
    pub fn last_instruction(&self) -> (id: Option<InstructionId>)
        requires
            self.wf(),
        ensures
            id == (match last_of(self.at().insns) {
                Some(local) => Some(InstructionId { func: self.id.func, local }),
                None => None,
            }),
    {
        match self.ctx_body().last_in(self.id.local) {
            Some(local) => Some(InstructionId::new(self.id.func, local)),
            None => None,
        }
    }

    /// The instructions, in order.
    pub fn iter_instruction_ids(&self) -> (ids: Vec<InstructionId>)
        requires
            self.wf(),
        ensures
            ids@ == self.at().insns.map_values(
                |local: LocalInsnId| InstructionId { func: self.id.func, local },
            ),
    {
        self.ctx_body().block_insn_ids(self.id)
    }

    /// The instructions, in order.
    pub fn instructions(&self) -> (ids: Vec<InstructionId>)
        requires
            self.wf(),
        ensures
            ids@ == self.at().insns.map_values(
                |local: LocalInsnId| InstructionId { func: self.id.func, local },
            ),
    {
        self.iter_instruction_ids()
    }

    /// Whether the block ends in a terminator.
    pub fn is_terminated(&self) -> (b: bool)
        requires
            self.wf(),
        ensures
            b == (last_of(self.at().insns) matches Some(last)
                && self.body()@.insns[last].mnemonic.shape.terminates()),
    {
        match self.ctx_body().last_in(self.id.local) {
            Some(local) => self.ctx_body().insns.get(local.0).mnemonic.is_terminator(),
            None => false,
        }
    }

    /// The outgoing edges, each with the block it leads to.
    pub fn successors(&self) -> (pairs: Vec<(EdgeId, BlockId)>)
        requires
            self.wf(),
        ensures
            pairs@ == self.rec().edges@.filter(
                |e: EdgeId| self.body().edge_rec(e).from == self.id.local,
            ).map_values(
                |e: EdgeId|
                    (e, BlockId { func: self.id.func, local: self.body().edge_rec(e).to }),
            ),
            pairs@ == self.body().successor_pairs(self.id),
    {
        self.ctx_body().successors(self.id)
    }

    /// The incoming edges, each with the block it comes from.
    pub fn predecessors(&self) -> (pairs: Vec<(EdgeId, BlockId)>)
        requires
            self.wf(),
        ensures
            pairs@ == self.rec().edges@.filter(
                |e: EdgeId| self.body().edge_rec(e).to == self.id.local,
            ).map_values(
                |e: EdgeId|
                    (e, BlockId { func: self.id.func, local: self.body().edge_rec(e).from }),
            ),
            pairs@ == self.body().predecessor_pairs(self.id),
    {
        self.ctx_body().predecessors(self.id)
    }

    pub fn new(ctx: &'a Context, id: BlockId) -> (r: Self)
        ensures
            r.ctx == ctx,
            r.id == id,
    {
        BlockRef { ctx, id }
    }

    /// The block `id`.
    pub fn from_id(ctx: &'a Context, id: BlockId) -> (r: Self)
        ensures
            r.ctx == ctx,
            r.id == id,
    {
        BlockRef { ctx, id }
    }

    /// The name of the block: its own, or else its address.
    pub fn name(&self) -> (name: Option<String>)
        requires
            self.wf(),
        ensures
            match self.ctx.block_name(self.id) {
                Some(text) => name matches Some(name) && name@ == text,
                None => name is None,
            },
    {
        self.ctx.name_of_block(self.id)
    }

    /// The comment on the block.
    pub fn comment(&self) -> (comment: Option<&'a String>)
        requires
            self.wf(),
        ensures
            match self.at().comment {
                Some(text) => comment matches Some(comment) && comment@ == text@,
                None => comment is None,
            },
    {
        match &self.inner().comment {
            Some(comment) => Some(comment),
            None => None,
        }
    }

    /// The parameters of the block, in order.
    pub fn params(&self) -> (ids: Vec<BlockParamId>)
        requires
            self.wf(),
        ensures
            ids@ == self.at().params.map_values(
                |local: LocalParamId| BlockParamId { func: self.id.func, local },
            ),
    {
        let params = &self.inner().params;
        let func = self.id.func;
        let mut ids: Vec<BlockParamId> = Vec::new();
        let mut k: usize = 0;
        while k < params.len()
            invariant
                k <= params.len(),
                ids@.len() == k,
                forall|j: int|
                    0 <= j < k ==> #[trigger] ids@[j] == (BlockParamId { func, local: params@[j] }),
            decreases params.len() - k,
        {
            ids.push(BlockParamId::new(func, params[k]));
            k = k + 1;
        }
        proof {
            assert(ids@ =~= params@.map_values(
                |local: LocalParamId| BlockParamId { func, local },
            ));
        }
        ids
    }

    /// The instructions, in order.
    pub fn iter(&self) -> (ids: Vec<InstructionId>)
        requires
            self.wf(),
        ensures
            ids@ == self.at().insns.map_values(
                |local: LocalInsnId| InstructionId { func: self.id.func, local },
            ),
    {
        self.instructions()
    }

    /// The function of the block.
    pub fn parent(&self) -> (function: FunctionRef<'a>)
        ensures
            function.ctx == self.ctx,
            function.id == self.id.func,
    {
        FunctionRef { ctx: self.ctx, id: self.id.func }
    }

    /// The function of the block.
    pub fn function(&self) -> (function: FunctionRef<'a>)
        ensures
            function.ctx == self.ctx,
            function.id == self.id.func,
    {
        self.parent()
    }

    /// The text of the block.
    pub fn render(&self) -> (text: String)
        requires
            self.ctx.wf(),
            block_renders(*self.ctx, None, self.id),
        ensures
            forall|d: nat|
                (#[trigger] block_text(*self.ctx, None, self.id, d)).ok ==> text@ == block_text(
                    *self.ctx,
                    None,
                    self.id,
                    d,
                ).chars,
    {
        block_display(self.ctx, None, self.id)
    }
}

impl<'a> BlockMutRef<'a> {
    /// The module as it is.
    pub open spec fn now(&self) -> Context {
        *self.ctx
    }

    /// Whether there is such a block.
    pub open spec fn wf(&self) -> bool {
        self.now().wf() && self.now().has_block(self.id)
    }

    /// The body that holds the block.
    pub open spec fn body(&self) -> FunctionBody {
        self.now().body_of(self.id.func)
    }

    /// What the block is.
    pub open spec fn at(&self) -> BlockView {
        self.body()@.blocks[self.id.local]
    }

    /// The record of the block.
    pub open spec fn rec(&self) -> BasicBlock {
        self.body().block_rec(self.id.local)
    }

    pub fn id(&self) -> (id: ValueId)
        ensures
            id == ValueId::BasicBlock(self.id),
    {
        ValueId::BasicBlock(self.id)
    }

    fn ctx_body(&self) -> (body: &FunctionBody)
        requires
            self.wf(),
        ensures
            *body == self.body(),
            body.wf(),
            body.id == Some(self.id.func),
            body.has_block(self.id.local),
    {
        proof {
            assert(self.now().body_ok(self.id.func.0 as int));
        }
        &self.ctx.bodies[self.id.func.0 as usize]
    }

    fn inner(&self) -> (block: &BasicBlock)
        requires
            self.wf(),
        ensures
            *block == self.rec(),
    {
        self.ctx_body().blocks.get(self.id.local.0)
    }

    /// The address of the block.
    pub fn address(&self) -> (address: Option<u64>)
        requires
            self.wf(),
        ensures
            address == self.at().address,
    {
        self.inner().address
    }

    /// How many parameters the block has.
    pub fn num_params(&self) -> (n: usize)
        requires
            self.wf(),
        ensures
            n == self.at().params.len(),
    {
        self.inner().params.len()
    }

    /// How many instructions the block has.
    pub fn len(&self) -> (n: usize)
        requires
            self.wf(),
        ensures
            n == self.at().insns.len(),
    {
        self.ctx_body().block_len(self.id.local)
    }

    /// Whether the block has no instructions.
    pub fn is_empty(&self) -> (b: bool)
        requires
            self.wf(),
        ensures
            b == (self.at().insns.len() == 0),
    {
        self.ctx_body().block_len(self.id.local) == 0
    }

    /// The first instruction.
    pub fn first_instruction(&self) -> (id: Option<InstructionId>)
        requires
            self.wf(),
        ensures
            id == (match first_of(self.at().insns) {
                Some(local) => Some(InstructionId { func: self.id.func, local }),
                None => None,
            }),
    {
        match self.ctx_body().first_in(self.id.local) {
            Some(local) => Some(InstructionId::new(self.id.func, local)),
            None => None,
        }
    }

    /// The last instruction: the terminator, once the block has one.
    pub fn last_instruction(&self) -> (id: Option<InstructionId>)
        requires
            self.wf(),
        ensures
            id == (match last_of(self.at().insns) {
                Some(local) => Some(InstructionId { func: self.id.func, local }),
                None => None,
            }),
    {
        match self.ctx_body().last_in(self.id.local) {
            Some(local) => Some(InstructionId::new(self.id.func, local)),
            None => None,
        }
    }

    /// The instructions, in order.
    pub fn iter_instruction_ids(&self) -> (ids: Vec<InstructionId>)
        requires
            self.wf(),
        ensures
            ids@ == self.at().insns.map_values(
                |local: LocalInsnId| InstructionId { func: self.id.func, local },
            ),
    {
        self.ctx_body().block_insn_ids(self.id)
    }

    /// The instructions, in order.
    pub fn instructions(&self) -> (ids: Vec<InstructionId>)
        requires
            self.wf(),
        ensures
            ids@ == self.at().insns.map_values(
                |local: LocalInsnId| InstructionId { func: self.id.func, local },
            ),
    {
        self.iter_instruction_ids()
    }

    /// Whether the block ends in a terminator.
    pub fn is_terminated(&self) -> (b: bool)
        requires
            self.wf(),
        ensures
            b == (last_of(self.at().insns) matches Some(last)
                && self.body()@.insns[last].mnemonic.shape.terminates()),
    {
        match self.ctx_body().last_in(self.id.local) {
            Some(local) => self.ctx_body().insns.get(local.0).mnemonic.is_terminator(),
            None => false,
        }
    }

    /// The outgoing edges, each with the block it leads to.
    pub fn successors(&self) -> (pairs: Vec<(EdgeId, BlockId)>)
        requires
            self.wf(),
        ensures
            pairs@ == self.rec().edges@.filter(
                |e: EdgeId| self.body().edge_rec(e).from == self.id.local,
            ).map_values(
                |e: EdgeId|
                    (e, BlockId { func: self.id.func, local: self.body().edge_rec(e).to }),
            ),
            pairs@ == self.body().successor_pairs(self.id),
    {
        self.ctx_body().successors(self.id)
    }

    /// The same block, to read.
    pub fn as_ref(&self) -> (r: BlockRef<'_>)
        ensures
            *r.ctx == self.now(),
            r.id == self.id,
    {
        BlockRef { ctx: self.ctx, id: self.id }
    }

    /// The same block, borrowed for a shorter time.
    pub fn reborrow(&mut self) -> (r: BlockMutRef<'_>)
        ensures
            r.now() == old(self).now(),
            r.id == old(self).id,
            final(self).id == old(self).id,
            final(self).now() == *final(r.ctx),
            *final(final(self).ctx) == *final(old(self).ctx),
    {
        BlockMutRef { ctx: self.ctx, id: self.id }
    }

    /// Another block of the module.
    pub fn with_id(&mut self, id: BlockId)
        ensures
            final(self).id == id,
            final(self).now() == old(self).now(),
            *final(final(self).ctx) == *final(old(self).ctx),
    {
        self.id = id;
    }

    /// The function of the block, to change.
    pub fn parent_mut(self) -> (function: FunctionMutRef<'a>)
        ensures
            function.now() == self.now(),
            function.id == self.id.func,
            *final(function.ctx) == *final(self.ctx),
    {
        FunctionMutRef { ctx: self.ctx, id: self.id.func }
    }

    /// Sets or clears the comment.
    pub fn set_comment(&mut self, comment: Option<String>)
        requires
            old(self).wf(),
        ensures
            final(self).wf(),
            final(self).id == old(self).id,
            *final(final(self).ctx) == *final(old(self).ctx),
            body_set(
                old(self).now(),
                final(self).now(),
                old(self).id.func,
                (BodyView {
                    blocks: old(self).body()@.blocks.insert(
                        old(self).id.local,
                        (BlockView { comment, ..old(self).body()@.blocks[old(self).id.local] }),
                    ),
                    ..old(self).body()@
                }),
            ),
    {
        let ghost before = *self.ctx;
        let f: usize = self.id.func.0 as usize;
        proof {
            assert(before.body_ok(f as int));
        }
        self.ctx.bodies[f].set_comment(self.id.local, comment);
        proof {
            assert(self.ctx.body_of(self.id.func)@.id == before.body_of(self.id.func)@.id);
            lemma_body_set(before, *self.ctx, self.id.func);
            assert(before.body_of(self.id.func)@.blocks.contains_key(self.id.local));
            assert(self.ctx.body_of(self.id.func)@.blocks.contains_key(self.id.local));
        }
    }

    /// Makes the block cover one more address, and counts the change.
    pub fn cover_address(&mut self, address: u64)
        requires
            old(self).wf(),
        ensures
            final(self).wf(),
            final(self).id == old(self).id,
            *final(final(self).ctx) == *final(old(self).ctx),
            body_set(
                old(self).now(),
                final(self).now(),
                old(self).id.func,
                ticked(
                    BodyView {
                        blocks: old(self).body()@.blocks.insert(
                            old(self).id.local,
                            (BlockView {
                                extra_addresses: old(self).body()@.blocks[old(self).id.local].extra_addresses.push(
                                    address,
                                ),
                                ..old(self).body()@.blocks[old(self).id.local]
                            }),
                        ),
                        ..old(self).body()@
                    },
                ),
            ),
    {
        let ghost before = *self.ctx;
        let f: usize = self.id.func.0 as usize;
        proof {
            assert(before.body_ok(f as int));
        }
        self.ctx.bodies[f].cover_address(self.id.local, address);
        proof {
            assert(self.ctx.body_of(self.id.func)@.id == before.body_of(self.id.func)@.id);
            lemma_body_set(before, *self.ctx, self.id.func);
            assert(before.body_of(self.id.func)@.blocks.contains_key(self.id.local));
            assert(self.ctx.body_of(self.id.func)@.blocks.contains_key(self.id.local));
        }
    }

    /// Appends a parameter that is there.
    pub fn push_existing_param(&mut self, param: BlockParamId)
        requires
            old(self).wf(),
            param.func == old(self).id.func,
        ensures
            final(self).wf(),
            final(self).id == old(self).id,
            *final(final(self).ctx) == *final(old(self).ctx),
            body_set(
                old(self).now(),
                final(self).now(),
                old(self).id.func,
                (BodyView {
                    blocks: old(self).body()@.blocks.insert(
                        old(self).id.local,
                        (BlockView {
                            params: old(self).body()@.blocks[old(self).id.local].params.push(param.local),
                            ..old(self).body()@.blocks[old(self).id.local]
                        }),
                    ),
                    ..old(self).body()@
                }),
            ),
    {
        let ghost before = *self.ctx;
        let f: usize = self.id.func.0 as usize;
        proof {
            assert(before.body_ok(f as int));
        }
        self.ctx.bodies[f].push_existing_param(self.id.local, param.local);
        proof {
            assert(self.ctx.body_of(self.id.func)@.id == before.body_of(self.id.func)@.id);
            lemma_body_set(before, *self.ctx, self.id.func);
            assert(before.body_of(self.id.func)@.blocks.contains_key(self.id.local));
            assert(self.ctx.body_of(self.id.func)@.blocks.contains_key(self.id.local));
        }
    }

    /// Moves an instruction to the end of the block.
    pub fn push_insn(&mut self, insn: InstructionId)
        requires
            old(self).wf(),
            insn.func == old(self).id.func,
            old(self).now().has_insn(insn),
        ensures
            final(self).wf(),
            final(self).id == old(self).id,
            *final(final(self).ctx) == *final(old(self).ctx),
            body_set(
                old(self).now(),
                final(self).now(),
                old(self).id.func,
                moved_last(
                    old(self).body()@,
                    old(self).body().insn_rec(insn.local).parent,
                    old(self).id.local,
                    insn.local,
                ),
            ),
    {
        let ghost before = *self.ctx;
        let f: usize = self.id.func.0 as usize;
        proof {
            assert(before.body_ok(f as int));
        }
        self.ctx.bodies[f].append_insn_local(self.id.local, insn.local);
        proof {
            assert(self.ctx.body_of(self.id.func)@.id == before.body_of(self.id.func)@.id);
            lemma_body_set(before, *self.ctx, self.id.func);
            assert(before.body_of(self.id.func)@.blocks.contains_key(self.id.local));
            assert(self.ctx.body_of(self.id.func)@.blocks.contains_key(self.id.local));
        }
    }

    /// Moves an instruction to just before another one of the block.
    pub fn insert_insn_before(&mut self, before_id: InstructionId, insn: InstructionId)
        requires
            old(self).wf(),
            insn.func == old(self).id.func,
            before_id.func == old(self).id.func,
            old(self).now().has_insn(insn),
            old(self).now().has_insn(before_id),
            old(self).at().insns.contains(before_id.local),
        ensures
            final(self).wf(),
            final(self).id == old(self).id,
            *final(final(self).ctx) == *final(old(self).ctx),
            body_set(
                old(self).now(),
                final(self).now(),
                old(self).id.func,
                if insn == before_id {
                    old(self).body()@
                } else {
                    moved_before(
                        old(self).body()@,
                        old(self).body().insn_rec(insn.local).parent,
                        old(self).id.local,
                        before_id.local,
                        insn.local,
                    )
                },
            ),
    {
        let ghost before = *self.ctx;
        let f: usize = self.id.func.0 as usize;
        proof {
            assert(before.body_ok(f as int));
        }
        self.ctx.bodies[f].insert_insn_before(self.id, before_id, insn);
        proof {
            assert(self.ctx.body_of(self.id.func)@.id == before.body_of(self.id.func)@.id);
            lemma_body_set(before, *self.ctx, self.id.func);
            assert(before.body_of(self.id.func)@.blocks.contains_key(self.id.local));
            assert(self.ctx.body_of(self.id.func)@.blocks.contains_key(self.id.local));
        }
    }

    /// Moves an instruction to just after another one of the block.
    pub fn insert_insn_after(&mut self, after_id: InstructionId, insn: InstructionId)
        requires
            old(self).wf(),
            insn.func == old(self).id.func,
            after_id.func == old(self).id.func,
            old(self).now().has_insn(insn),
            old(self).now().has_insn(after_id),
            old(self).at().insns.contains(after_id.local),
        ensures
            final(self).wf(),
            final(self).id == old(self).id,
            *final(final(self).ctx) == *final(old(self).ctx),
            body_set(
                old(self).now(),
                final(self).now(),
                old(self).id.func,
                if insn == after_id {
                    old(self).body()@
                } else {
                    moved_after(
                        old(self).body()@,
                        old(self).body().insn_rec(insn.local).parent,
                        old(self).id.local,
                        after_id.local,
                        insn.local,
                    )
                },
            ),
    {
        let ghost before = *self.ctx;
        let f: usize = self.id.func.0 as usize;
        proof {
            assert(before.body_ok(f as int));
        }
        self.ctx.bodies[f].link_after(self.id.local, after_id.local, insn.local);
        proof {
            assert(self.ctx.body_of(self.id.func)@.id == before.body_of(self.id.func)@.id);
            lemma_body_set(before, *self.ctx, self.id.func);
            assert(before.body_of(self.id.func)@.blocks.contains_key(self.id.local));
            assert(self.ctx.body_of(self.id.func)@.blocks.contains_key(self.id.local));
        }
    }

    /// Moves an instruction to the place `index` of the block.
    pub fn insert_insn_at_index(&mut self, index: usize, insn: InstructionId)
        requires
            old(self).wf(),
            insn.func == old(self).id.func,
            old(self).now().has_insn(insn),
            index <= old(self).at().insns.len(),
        ensures
            final(self).wf(),
            final(self).id == old(self).id,
            *final(final(self).ctx) == *final(old(self).ctx),
            body_set(
                old(self).now(),
                final(self).now(),
                old(self).id.func,
                moved_to(
                    old(self).body(),
                    old(self).id.local,
                    index,
                    insn.local,
                ),
            ),
    {
        let ghost before = *self.ctx;
        let f: usize = self.id.func.0 as usize;
        proof {
            assert(before.body_ok(f as int));
        }
        self.ctx.bodies[f].insert_insn_at(self.id.local, index, insn.local);
        proof {
            assert(self.ctx.body_of(self.id.func)@.id == before.body_of(self.id.func)@.id);
            lemma_body_set(before, *self.ctx, self.id.func);
            assert(before.body_of(self.id.func)@.blocks.contains_key(self.id.local));
            assert(self.ctx.body_of(self.id.func)@.blocks.contains_key(self.id.local));
        }
    }

    /// Removes the last instruction, where there is one.
    pub fn pop_insn(&mut self)
        requires
            old(self).wf(),
        ensures
            final(self).wf(),
            final(self).id == old(self).id,
            *final(final(self).ctx) == *final(old(self).ctx),
            body_set(
                old(self).now(),
                final(self).now(),
                old(self).id.func,
                match last_of(old(self).at().insns) {
                    Some(last) => without_instruction(old(self).body()@, Some(old(self).id.local), last),
                    None => old(self).body()@,
                },
            ),
    {
        let ghost before = *self.ctx;
        let f: usize = self.id.func.0 as usize;
        proof {
            assert(before.body_ok(f as int));
        }
        self.ctx.bodies[f].pop_insn(self.id.local);
        proof {
            assert(self.ctx.body_of(self.id.func)@.id == before.body_of(self.id.func)@.id);
            lemma_body_set(before, *self.ctx, self.id.func);
            assert(before.body_of(self.id.func)@.blocks.contains_key(self.id.local));
            assert(self.ctx.body_of(self.id.func)@.blocks.contains_key(self.id.local));
        }
    }

    /// Moves instructions to the end of the block, one after the other.
    pub fn extend_insns(&mut self, insns: &Vec<LocalInsnId>)
        requires
            old(self).wf(),
            forall|k: int| 0 <= k < insns@.len() ==> old(self).body()@.insns.contains_key(
                    #[trigger] insns@[k],
                ),
        ensures
            final(self).wf(),
            final(self).id == old(self).id,
            *final(final(self).ctx) == *final(old(self).ctx),
            body_set(
                old(self).now(),
                final(self).now(),
                old(self).id.func,
                extended(old(self).body()@, old(self).id.local, insns@, insns@.len()),
            ),
    {
        let ghost before = *self.ctx;
        let f: usize = self.id.func.0 as usize;
        proof {
            assert(before.body_ok(f as int));
        }
        self.ctx.bodies[f].extend_insns(self.id.local, insns);
        proof {
            lemma_extended_blocks(before.body_of(self.id.func)@, self.id.local, insns@, insns@.len());
            assert(self.ctx.body_of(self.id.func)@.id == before.body_of(self.id.func)@.id);
            lemma_body_set(before, *self.ctx, self.id.func);
            assert(before.body_of(self.id.func)@.blocks.contains_key(self.id.local));
            assert(self.ctx.body_of(self.id.func)@.blocks.contains_key(self.id.local));
        }
    }

    /// Removes the block, its instructions, parameters and edges.
    pub fn delete(&mut self)
        requires
            old(self).wf(),
            old(self).at().params.no_duplicates(),
            forall|k: int|
                0 <= k < old(self).at().params.len() ==> old(self).body()@.params.contains_key(
                    #[trigger] old(self).at().params[k],
                ),
        ensures
            final(self).now().wf(),
            final(self).id == old(self).id,
            *final(final(self).ctx) == *final(old(self).ctx),
            body_set(
                old(self).now(),
                final(self).now(),
                old(self).id.func,
                without_block(old(self).body()@, old(self).id.local),
            ),
    {
        let ghost before = *self.ctx;
        let f: usize = self.id.func.0 as usize;
        proof {
            assert(before.body_ok(f as int));
        }
        self.ctx.bodies[f].delete_block(self.id);
        proof {
            assert(self.ctx.body_of(self.id.func)@.id == before.body_of(self.id.func)@.id);
            lemma_body_set(before, *self.ctx, self.id.func);
            let gone = self.id.local;
            lemma_filtered_kept(
                before.body_of(self.id.func),
                self.ctx.body_of(self.id.func),
                |e: EdgeId|
                    before.body_of(self.id.func)@.edges[e].from != gone && before.body_of(
                        self.id.func,
                    )@.edges[e].to != gone,
            );
        }
    }

    /// Removes the instructions for which `f` does not hold.
    pub fn retain_insns<F: Fn(InstructionId) -> bool>(&mut self, f: F)
        requires
            old(self).wf(),
            forall|id: InstructionId| f.requires((id,)),
        ensures
            final(self).wf(),
            final(self).id == old(self).id,
            *final(final(self).ctx) == *final(old(self).ctx),
            exists|kept: Seq<bool>|
                {
                    &&& kept.len() == old(self).at().insns.len()
                    &&& forall|k: int|
                        0 <= k < kept.len() ==> f.ensures(
                            (InstructionId {
                                func: old(self).id.func,
                                local: old(self).at().insns[k],
                            },),
                            #[trigger] kept[k],
                        )
                    &&& body_set(
                        old(self).now(),
                        final(self).now(),
                        old(self).id.func,
                        #[trigger] retained(
                            old(self).body()@,
                            old(self).id.local,
                            old(self).at().insns,
                            kept,
                            kept.len(),
                        ),
                    )
                },
    {
        let ghost before = *self.ctx;
        let at: usize = self.id.func.0 as usize;
        proof {
            assert(before.body_ok(at as int));
        }
        self.ctx.bodies[at].retain_insns(self.id.local, f);
        proof {
            lemma_body_set(before, *self.ctx, self.id.func);
            let body = before.body_of(self.id.func);
            let order = body.order(self.id.local);
            let kept = choose|kept: Seq<bool>|
                {
                    &&& kept.len() == order.len()
                    &&& forall|k: int|
                        0 <= k < kept.len() ==> f.ensures(
                            (InstructionId { func: self.id.func, local: order[k] },),
                            #[trigger] kept[k],
                        )
                    &&& self.ctx.body_of(self.id.func)@ == #[trigger] retained(
                        body@,
                        self.id.local,
                        order,
                        kept,
                        kept.len(),
                    )
                };
            assert(before.body_of(self.id.func)@.blocks.contains_key(self.id.local));
            assert(order == body@.blocks[self.id.local].insns);
            lemma_retained_blocks(body@, self.id.local, order, kept, kept.len());
            assert(body_set(
                before,
                *self.ctx,
                self.id.func,
                retained(body@, self.id.local, order, kept, kept.len()),
            ));
        }
    }

    /// Takes the instructions, parameters and edges of `other` over: the block
    /// that `edge_ab` leads to from this one, and nothing from any other.
    pub fn absorb_block(&mut self, other: BlockId, edge_ab: EdgeId)
        requires
            old(self).wf(),
            other.func == old(self).id.func,
            old(self).body().can_absorb(old(self).id.local, other.local, edge_ab),
            old(self).body().edge_room(old(self).body()@.edges_issued as int),
        ensures
            final(self).now().wf(),
            final(self).id == old(self).id,
            *final(final(self).ctx) == *final(old(self).ctx),
            exists|bound: FunctionBody|
                {
                    &&& #[trigger] params_bound(
                        old(self).body(),
                        old(self).body()@.blocks[other.local].params,
                        old(self).body().branch_args(old(self).id.local),
                        bound,
                    )
                    &&& same_but_operands(old(self).body()@, bound@)
                    &&& body_rewired(
                        old(self).now(),
                        final(self).now(),
                        old(self).id.func,
                        absorbed(bound@, old(self).id.local, other.local, edge_ab),
                    )
                    &&& old(self).body().uses_complete() ==> bound@ == with_params_bound(
                        old(self).body()@,
                        old(self).body()@.blocks[other.local].params,
                        old(self).body().branch_args(old(self).id.local),
                    )
                },
            lists_absorbed(
                old(self).body(),
                final(self).body(),
                old(self).id.local,
                other.local,
            ),
    {
        let ghost before = *self.ctx;
        let f: usize = self.id.func.0 as usize;
        proof {
            assert(before.body_ok(f as int));
        }
        self.ctx.bodies[f].absorb_block(self.id, other, edge_ab);
        proof {
            assert(self.ctx.body_of(self.id.func)@.id == before.body_of(self.id.func)@.id);
            lemma_body_set(before, *self.ctx, self.id.func);
        }
    }

    /// Puts the block on the roster of its function.
    pub fn in_function(self, func: FunctionId) -> (r: Self)
        requires
            self.wf(),
            func == self.id.func,
        ensures
            r.now().wf(),
            r.id == self.id,
            *final(r.ctx) == *final(self.ctx),
            body_set(
                self.now(),
                r.now(),
                self.id.func,
                (BodyView {
                    roster: if self.body()@.roster.contains(self.id.local) {
                        self.body()@.roster
                    } else {
                        self.body()@.roster.push(self.id.local)
                    },
                    ..self.body()@
                }),
            ),
    {
        let ghost before = *self.ctx;
        let f: usize = self.id.func.0 as usize;
        proof {
            assert(before.body_ok(f as int));
        }
        let r = self;
        r.ctx.bodies[f].add_block(r.id.local);
        proof {
            lemma_body_set(before, *r.ctx, r.id.func);
        }
        r
    }

    /// Moves the block to `address`, unless another block is there. A block
    /// without a name is labelled with its address. The change is counted in
    /// either case.
    pub fn set_address(&mut self, address: u64) -> (result: Result<(), Error>)
        requires
            old(self).wf(),
        ensures
            final(self).wf(),
            final(self).id == old(self).id,
            *final(final(self).ctx) == *final(old(self).ctx),
            result is Err <==> other_block_at(old(self).now(), old(self).id, address),
            match result {
                Ok(_) => body_set(
                    old(self).now(),
                    final(self).now(),
                    old(self).id.func,
                    with_block_address(old(self).body()@, old(self).id.local, address),
                ),
                Err(e) => (e matches Error::DuplicateAddress(a) && a == address) && body_set(
                    old(self).now(),
                    final(self).now(),
                    old(self).id.func,
                    ticked(old(self).body()@),
                ),
            },
    {
        let ghost before = *self.ctx;
        let result = self.ctx.set_block_address(self.id, address);
        proof {
            assert(before.body_of(self.id.func)@.blocks.contains_key(self.id.local));
            assert(self.ctx.body_of(self.id.func)@.blocks.contains_key(self.id.local));
        }
        result
    }

    /// Moves the block to `address`, where no other block is.
    pub fn with_address(self, address: u64) -> (r: Self)
        requires
            self.wf(),
            !other_block_at(self.now(), self.id, address),
        ensures
            r.wf(),
            r.id == self.id,
            *final(r.ctx) == *final(self.ctx),
            body_set(
                self.now(),
                r.now(),
                self.id.func,
                with_block_address(self.body()@, self.id.local, address),
            ),
    {
        let mut r = self;
        let _ = r.set_address(address);
        r
    }

    /// Names the block. Where another value of the function has that name the
    /// name is refused; where the block itself has it, nothing changes.
    pub fn rename_local(&mut self, name: &str) -> (result: Result<(), Error>)
        requires
            old(self).wf(),
            old(self).body()@.names.bases.len() < crate::base::BASE_LIMIT,
        ensures
            final(self).wf(),
            final(self).id == old(self).id,
            *final(final(self).ctx) == *final(old(self).ctx),
            body_set(
                old(self).now(),
                final(self).now(),
                old(self).id.func,
                final(self).body()@,
            ),
            result is Ok ==> final(self).body()@.names.found(
                name@,
                LocalValueId::BasicBlock(old(self).id.local),
            ),
            rename_outcome(
                old(self).body()@,
                final(self).body()@,
                LocalValueId::BasicBlock(old(self).id.local),
                name@,
                result,
            ),
    {
        let ghost before = *self.ctx;
        let f: usize = self.id.func.0 as usize;
        proof {
            assert(before.body_ok(f as int));
        }
        let result = self.ctx.bodies[f].rename(LocalValueId::BasicBlock(self.id.local), name);
        proof {
            assert(self.ctx.body_of(self.id.func)@.id == before.body_of(self.id.func)@.id);
            lemma_body_set(before, *self.ctx, self.id.func);
            assert(before.body_of(self.id.func)@.blocks.contains_key(self.id.local));
            assert(self.ctx.body_of(self.id.func)@.blocks.contains_key(self.id.local));
        }
        result
    }

    /// Declares a new parameter of the block, an integer of `size` bytes.
    pub fn push_param(&mut self, size: usize) -> (param: BlockParamId)
        requires
            old(self).wf(),
            old(self).body().params.has_room(),
            old(self).now().shared.types@.len() < u32::MAX,
        ensures
            final(self).wf(),
            final(self).id == old(self).id,
            *final(final(self).ctx) == *final(old(self).ctx),
            param.func == old(self).id.func,
            param.local.0 == old(self).body()@.params_issued,
            exists|type_id: TypeId|
                {
                    &&& #[trigger] registered(
                        old(self).now().shared.types@,
                        (TypeView::Int { size }),
                        final(self).now().shared.types@,
                        type_id,
                    )
                    &&& final(self).body()@ == with_param(
                        old(self).body()@,
                        old(self).id.local,
                        param.local,
                        type_id,
                    )
                },
            old(self).body().uses_complete() && old(self).body().unmentioned(
                LocalValueId::BlockParam(param.local),
            ) ==> final(self).body().uses_complete(),
            operands_issued(old(self).body()@) ==> old(self).body().unmentioned(
                LocalValueId::BlockParam(param.local),
            ) && operands_issued(final(self).body()@),
            edges_untouched(old(self).body(), final(self).body()),
            final(self).now().shared == (Shared {
                types: final(self).now().shared.types,
                ..old(self).now().shared
            }),
            final(self).now().same_functions(&old(self).now()),
            final(self).now().bodies@.len() == old(self).now().bodies@.len(),
            forall|g: int|
                0 <= g < old(self).now().bodies@.len() && g != old(self).id.func.0
                    ==> #[trigger] final(self).now().bodies@[g] == old(self).now().bodies@[g],
    {
        let ghost before = *self.ctx;
        let f: usize = self.id.func.0 as usize;
        proof {
            assert(before.body_ok(f as int));
        }
        let ctx = &mut *self.ctx;
        let local = ctx.bodies[f].push_param(&mut ctx.shared, self.id.local, size);
        proof {
            let now = *self.ctx;
            assert forall|g: int| 0 <= g < now.bodies@.len() implies #[trigger] now.body_ok(g) by {
                assert(before.body_ok(g));
            }
            assert(before.body_of(self.id.func)@.blocks.contains_key(self.id.local));
            assert(now.body_of(self.id.func)@.blocks.contains_key(self.id.local));
        }
        BlockParamId::new(self.id.func, local)
    }
}

/// `body` with instruction `i` moved from block `from` to just after the
/// instruction `after` of block `b`.
pub open spec fn moved_after(
    body: BodyView,
    from: Option<LocalBlockId>,
    b: LocalBlockId,
    after: LocalInsnId,
    i: LocalInsnId,
) -> BodyView {
    let out = taken_out(body, from, i);
    let s = out.blocks[b].insns;
    with_order(out, b, s.insert(s.index_of(after) + 1, i))
}

/// `body` with instruction `i` moved to the place `index` of block `b`.
pub open spec fn moved_to(
    body: FunctionBody,
    b: LocalBlockId,
    index: usize,
    i: LocalInsnId,
) -> BodyView {
    let s = body.order(b);
    let from = body.insn_rec(i).parent;
    if index == s.len() {
        moved_last(body@, from, b, i)
    } else if s[index as int] == i {
        body@
    } else {
        moved_before(body@, from, b, s[index as int], i)
    }
}

/// Moving instructions to the end of a block keeps the block.
proof fn lemma_extended_blocks(
    body: BodyView,
    block: LocalBlockId,
    insns: Seq<LocalInsnId>,
    n: nat,
)
    requires
        body.blocks.contains_key(block),
    ensures
        extended(body, block, insns, n).blocks.contains_key(block),
        extended(body, block, insns, n).id == body.id,
        extended(body, block, insns, n).edges == body.edges,
    decreases n,
{
    if n > 0 {
        lemma_extended_blocks(body, block, insns, (n - 1) as nat);
    }
}

/// Removing instructions of a block keeps the block.
proof fn lemma_retained_blocks(
    body: BodyView,
    block: LocalBlockId,
    insns: Seq<LocalInsnId>,
    kept: Seq<bool>,
    n: nat,
)
    requires
        body.blocks.contains_key(block),
    ensures
        retained(body, block, insns, kept, n).blocks.contains_key(block),
    decreases n,
{
    if n > 0 {
        lemma_retained_blocks(body, block, insns, kept, (n - 1) as nat);
    }
}

impl FunctionBody {
    /// How many instructions a block has.
    pub(crate) fn block_len(&self, block: LocalBlockId) -> (n: usize)
        requires
            self.wf(),
            self.has_block(block),
        ensures
            n == self.order(block).len(),
    {
        proof {
            assert(self.list_ok(block));
        }
        self.blocks.get(block.0).instructions.len
    }

    /// The first instruction of a block.
    pub(crate) fn first_in(&self, block: LocalBlockId) -> (id: Option<LocalInsnId>)
        requires
            self.wf(),
            self.has_block(block),
        ensures
            id == first_of(self.order(block)),
    {
        proof {
            assert(self.list_ok(block));
        }
        self.blocks.get(block.0).instructions.first
    }

    /// The last instruction of a block.
    pub(crate) fn last_in(&self, block: LocalBlockId) -> (id: Option<LocalInsnId>)
        requires
            self.wf(),
            self.has_block(block),
        ensures
            id == last_of(self.order(block)),
            id matches Some(last) ==> self.has_insn(last),
    {
        proof {
            assert(self.list_ok(block));
            let s = self.order(block);
            if s.len() > 0 {
                assert(self.linked_at(block, s.len() - 1));
            }
        }
        self.blocks.get(block.0).instructions.last
    }
}

} // verus!
