//! A block parameter of a module.

use crate::body::naming::rename_outcome;
use crate::body::{BlockParam, BodyView, FunctionBody, ParamView};
use crate::context::{lemma_types_grow, Context};
use crate::error::Error;
use crate::function::root::{body_grown, body_set, lemma_body_set};
use crate::ids::{BlockId, BlockParamId, TypeId};
use crate::refs::block::BlockRef;
use crate::refs::insn::types_grown;
use crate::segment::line::param_text;
use crate::types::{type_size, TypeView};
use crate::value::{LocalValueId, ValueId};
use vstd::prelude::*;

verus! {

/// A block parameter of a module.
#[derive(Clone, Copy)]
pub struct BlockParamRef<'a> {
    pub ctx: &'a Context,
    pub id: BlockParamId,
}

/// A block parameter of a module, to change.
pub struct BlockParamMutRef<'a> {
    pub ctx: &'a mut Context,
    pub id: BlockParamId,
}

impl BlockParam {
    /// A new parameter of the block `block`, an integer of `size` bytes. The
    /// block's list does not name it yet; its index is the next in that list.
    pub fn make(ctx: &mut Context, block: BlockId, size: usize) -> (id: BlockParamId)
        requires
            old(ctx).wf(),
            old(ctx).has_block(block),
            old(ctx).body_of(block.func).params.has_room(),
            old(ctx).shared.types@.len() < u32::MAX,
        ensures
            final(ctx).wf(),
            id.func == block.func,
            id.local.0 == old(ctx).body_of(block.func)@.params_issued,
            exists|mid: Context, type_id: TypeId|
                {
                    &&& #[trigger] types_grown(*old(ctx), mid, (TypeView::Int { size }), type_id)
                    &&& body_grown(
                        mid,
                        *final(ctx),
                        block.func,
                        with_loose_param(
                            old(ctx).body_of(block.func)@,
                            block.local,
                            id.local,
                            type_id,
                        ),
                        LocalValueId::BlockParam(id.local),
                    )
                },
    {
        let ghost before = *ctx;
        let f: usize = block.func.0 as usize;
        proof {
            assert(before.body_ok(f as int));
        }
        let index: usize = ctx.bodies[f].blocks.get(block.local.0).params.len();
        let type_id = ctx.shared.types.get_or_make_int(size);
        let ghost mid = *ctx;
        proof {
            lemma_types_grow(before.shared, mid.shared);
            assert forall|g: int| 0 <= g < mid.bodies@.len() implies #[trigger] mid.body_ok(g) by {
                assert(before.body_ok(g));
            }
            assert(types_grown(before, mid, (TypeView::Int { size }), type_id));
            let body = before.body_of(block.func);
            assert(body@.blocks[block.local].params == body.block_rec(block.local).params@);
        }
        let local = ctx.bodies[f].push_loose_param(
            BlockParam {
                index,
                type_id,
                parent: block.local,
                name: None,
                origin: None,
                protected: false,
                first_use: None,
            },
        );
        proof {
            assert(ctx.body_of(block.func)@.id == before.body_of(block.func)@.id);
            lemma_body_set(mid, *ctx, block.func);
        }
        BlockParamId::new(block.func, local)
    }

    /// The parameter `id`, to read.
    pub fn from_id<'a>(ctx: &'a Context, id: BlockParamId) -> (r: BlockParamRef<'a>)
        ensures
            r.ctx == ctx,
            r.id == id,
    {
        BlockParamRef { ctx, id }
    }

    /// The parameter `id`, to change.
    pub fn from_id_mut<'a>(ctx: &'a mut Context, id: BlockParamId) -> (r: BlockParamMutRef<'a>)
        ensures
            r.now() == *old(ctx),
            r.id == id,
            *final(r.ctx) == *final(ctx),
    {
        BlockParamMutRef { ctx, id }
    }
}

impl<'a> BlockParamRef<'a> {
    /// Whether there is such a parameter.
    pub open spec fn wf(&self) -> bool {
        self.ctx.wf() && self.ctx.has_param(self.id)
    }

    /// What the parameter is.
    pub open spec fn at(&self) -> ParamView {
        self.ctx.body_of(self.id.func)@.params[self.id.local]
    }

    /// The record of the parameter.
    pub open spec fn rec(&self) -> BlockParam {
        self.ctx.body_of(self.id.func).param_rec(self.id.local)
    }

    pub fn id(&self) -> (id: ValueId)
        ensures
            id == ValueId::BlockParam(self.id),
    {
        ValueId::BlockParam(self.id)
    }

    fn inner(&self) -> (param: &'a BlockParam)
        requires
            self.wf(),
        ensures
            *param == self.rec(),
    {
        self.ctx.bodies[self.id.func.0 as usize].params.get(self.id.local.0)
    }

    /// The position in the block's list.
    pub fn index(&self) -> (index: usize)
        requires
            self.wf(),
        ensures
            index == self.at().index,
    {
        self.inner().index
    }

    pub fn type_id(&self) -> (type_id: TypeId)
        requires
            self.wf(),
        ensures
            type_id == self.at().type_id,
    {
        self.inner().type_id
    }

    /// The width in bytes.
    pub fn size(&self) -> (size: usize)
        requires
            self.wf(),
            self.ctx.shared.types.has(self.at().type_id),
        ensures
            size == type_size(self.ctx.shared.types@, self.at().type_id.0 as int),
    {
        self.ctx.shared.types.size_of(self.inner().type_id)
    }

    /// The block that declares the parameter.
    pub fn parent(&self) -> (block: BlockRef<'a>)
        requires
            self.wf(),
        ensures
            block.ctx == self.ctx,
            block.id == (BlockId { func: self.id.func, local: self.at().parent }),
    {
        BlockRef { ctx: self.ctx, id: BlockId::new(self.id.func, self.inner().parent) }
    }

    pub fn name(&self) -> (name: Option<String>)
        requires
            self.wf(),
        ensures
            match self.at().name {
                Some(n) => name matches Some(name) && name@ == self.ctx.body_of(
                    self.id.func,
                )@.names.text_of(n),
                None => name is None,
            },
    {
        proof {
            assert(self.ctx.body_ok(self.id.func.0 as int));
        }
        let body = &self.ctx.bodies[self.id.func.0 as usize];
        proof {
            assert(body@.params.contains_key(self.id.local));
            assert(body@.params[self.id.local].name == self.at().name);
        }
        match self.inner().name {
            Some(name) => Some(body.names.render(name)),
            None => None,
        }
    }

    /// The value that the parameter was made for.
    pub fn origin(&self) -> (origin: Option<ValueId>)
        requires
            self.wf(),
        ensures
            origin == self.at().origin,
    {
        self.inner().origin
    }

    /// The text of the parameter: its name, after its type where that is a
    /// struct or points to one.
    pub fn render(&self) -> (text: String)
        requires
            self.ctx.wf(),
            param_text(*self.ctx, self.id).ok,
        ensures
            text@ == param_text(*self.ctx, self.id).chars,
    {
        self.ctx.param_use(self.id)
    }
}

/// `body` with a new parameter of the type `type_id`, for the end of the list
/// of `block`.
pub open spec fn with_loose_param(
    body: BodyView,
    block: crate::ids::LocalBlockId,
    local: crate::ids::LocalParamId,
    type_id: TypeId,
) -> BodyView {
    BodyView {
        params: body.params.insert(
            local,
            ParamView {
                index: body.blocks[block].params.len() as usize,
                type_id,
                parent: block,
                name: None,
                origin: None,
                protected: false,
            },
        ),
        params_issued: body.params_issued + 1,
        ..body
    }
}

/// `body` with other fields of the parameter `id`.
pub open spec fn with_param_fields(
    body: BodyView,
    id: crate::ids::LocalParamId,
    type_id: TypeId,
    origin: Option<ValueId>,
) -> BodyView {
    BodyView {
        params: body.params.insert(id, ParamView { type_id, origin, ..body.params[id] }),
        ..body
    }
}

impl<'a> BlockParamMutRef<'a> {
    /// The module as it is.
    pub open spec fn now(&self) -> Context {
        *self.ctx
    }

    /// Whether there is such a parameter.
    pub open spec fn wf(&self) -> bool {
        self.now().wf() && self.now().has_param(self.id)
    }

    /// The body that holds the parameter.
    pub open spec fn body(&self) -> FunctionBody {
        self.now().body_of(self.id.func)
    }

    /// What the parameter is.
    pub open spec fn at(&self) -> ParamView {
        self.body()@.params[self.id.local]
    }

    /// The record of the parameter.
    pub open spec fn rec(&self) -> BlockParam {
        self.body().param_rec(self.id.local)
    }

    pub fn as_ref(&self) -> (r: BlockParamRef<'_>)
        ensures
            *r.ctx == self.now(),
            r.id == self.id,
    {
        BlockParamRef { ctx: self.ctx, id: self.id }
    }

    fn set_fields(&mut self, type_id: TypeId, origin: Option<ValueId>)
        requires
            old(self).wf(),
        ensures
            final(self).wf(),
            final(self).id == old(self).id,
            *final(final(self).ctx) == *final(old(self).ctx),
            body_set(
                old(self).now(),
                final(self).now(),
                old(self).id.func,
                with_param_fields(old(self).body()@, old(self).id.local, type_id, origin),
            ),
    {
        let ghost before = *self.ctx;
        let f: usize = self.id.func.0 as usize;
        proof {
            assert(before.body_ok(f as int));
            let body = before.body_of(self.id.func);
            assert(body@.params.contains_key(self.id.local));
            assert(crate::body::name_known(body@, body@.params[self.id.local].name));
        }
        let name = self.ctx.bodies[f].params.get(self.id.local.0).name;
        self.ctx.bodies[f].edit_param(self.id.local, name, type_id, origin);
        proof {
            assert(self.ctx.body_of(self.id.func)@.id == before.body_of(self.id.func)@.id);
            lemma_body_set(before, *self.ctx, self.id.func);
            assert(self.ctx.body_of(self.id.func)@.params.contains_key(self.id.local));
        }
    }

    /// Names the value. Where another value of the function has that name the
    /// name is refused; where the value itself has it, nothing changes.
    pub fn rename(&mut self, name: &str) -> (result: Result<(), Error>)
        requires
            old(self).wf(),
            old(self).body()@.names.bases.len() < crate::base::BASE_LIMIT,
        ensures
            final(self).wf(),
            final(self).id == old(self).id,
            *final(final(self).ctx) == *final(old(self).ctx),
            body_set(
                old(self).now(),
                final(self).now(),
                old(self).id.func,
                final(self).body()@,
            ),
            result is Ok ==> final(self).body()@.names.found(
                name@,
                LocalValueId::BlockParam(old(self).id.local),
            ),
            rename_outcome(
                old(self).body()@,
                final(self).body()@,
                LocalValueId::BlockParam(old(self).id.local),
                name@,
                result,
            ),
    {
        let ghost before = *self.ctx;
        let f: usize = self.id.func.0 as usize;
        proof {
            assert(before.body_ok(f as int));
        }
        let result = self.ctx.bodies[f].rename(LocalValueId::BlockParam(self.id.local), name);
        proof {
            assert(self.ctx.body_of(self.id.func)@.id == before.body_of(self.id.func)@.id);
            lemma_body_set(before, *self.ctx, self.id.func);
            assert(before.body_of(self.id.func)@.params.contains_key(self.id.local));
            assert(self.ctx.body_of(self.id.func)@.params.contains_key(self.id.local));
        }
        result
    }

    /// Records the value that the parameter was made for.
    pub fn set_origin(&mut self, origin: ValueId)
        requires
            old(self).wf(),
        ensures
            final(self).wf(),
            final(self).id == old(self).id,
            *final(final(self).ctx) == *final(old(self).ctx),
            body_set(
                old(self).now(),
                final(self).now(),
                old(self).id.func,
                with_param_fields(
                    old(self).body()@,
                    old(self).id.local,
                    old(self).at().type_id,
                    Some(origin),
                ),
            ),
    {
        let type_id = self.ctx.bodies[self.id.func.0 as usize].params.get(self.id.local.0).type_id;
        self.set_fields(type_id, Some(origin));
    }

    /// Makes the parameter an integer of `size` bytes.
    pub fn set_size(&mut self, size: usize)
        requires
            old(self).wf(),
            old(self).now().shared.types@.len() < u32::MAX,
        ensures
            final(self).wf(),
            final(self).id == old(self).id,
            *final(final(self).ctx) == *final(old(self).ctx),
            resized(old(self).now(), final(self).now(), old(self).id, size),
    {
        let ghost before = *self.ctx;
        let origin = self.ctx.bodies[self.id.func.0 as usize].params.get(self.id.local.0).origin;
        let type_id = self.ctx.shared.types.get_or_make_int(size);
        let ghost mid = *self.ctx;
        proof {
            lemma_types_grow(before.shared, mid.shared);
            assert forall|g: int| 0 <= g < mid.bodies@.len() implies #[trigger] mid.body_ok(g) by {
                assert(before.body_ok(g));
            }
            assert(types_grown(before, mid, (TypeView::Int { size }), type_id));
        }
        self.set_fields(type_id, origin);
    }

    /// Makes the parameter an integer of `size` bytes where it has no width;
    /// otherwise it is that wide.
    pub fn constrain_size(&mut self, size: usize)
        requires
            old(self).wf(),
            old(self).now().shared.types@.len() < u32::MAX,
            old(self).now().shared.types.has(old(self).at().type_id),
            ({
                let current = type_size(
                    old(self).now().shared.types@,
                    old(self).at().type_id.0 as int,
                );
                current == 0 || current == size
            }),
        ensures
            final(self).wf(),
            final(self).id == old(self).id,
            *final(final(self).ctx) == *final(old(self).ctx),
            if type_size(old(self).now().shared.types@, old(self).at().type_id.0 as int) == 0 {
                resized(old(self).now(), final(self).now(), old(self).id, size)
            } else {
                final(self).now() == old(self).now()
            },
    {
        let current: usize = self.as_ref().size();
        if current == 0 {
            self.set_size(size);
        }
    }
}

/// `b` is `a` with the parameter `id` an integer of `size` bytes.
pub open spec fn resized(a: Context, b: Context, id: BlockParamId, size: usize) -> bool {
    exists|mid: Context, type_id: TypeId|
        {
            &&& #[trigger] types_grown(a, mid, (TypeView::Int { size }), type_id)
            &&& body_set(
                mid,
                b,
                id.func,
                with_param_fields(
                    a.body_of(id.func)@,
                    id.local,
                    type_id,
                    a.body_of(id.func).param_rec(id.local).origin,
                ),
            )
        }
}

} // verus!
