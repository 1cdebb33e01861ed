//! Rendering values and instructions.

use crate::context::Context;
use crate::ids::{BlockId, BlockParamId, FunctionId, InstructionId, LocalBlockId, TypeId};
use crate::insn::mnemonic::Mnemonic;
use crate::insn::terminator::{Callee, SwitchArm};
use crate::insn::unop::Unop;
use crate::segment::atoms::{both, is_foreign, three};
use crate::segment::line::{
    args_line, arms_line, bare_line, binary_line, branch_arg_label, branch_args_line, branch_line,
    call_args_line, captures_line, cast_line, field_label, fields_line, insn_line, mnemonic_line,
    param_text, unary_line, value_line, Line,
};
use crate::segment::listing::block_listing;
use crate::segment::{token_views, Link, Token, TokenKind};
use crate::space::LocalMemorySpaceId;
use crate::text::{decimal, hex_name};
use crate::value::{LocalValueId, ValueId};
use vstd::prelude::*;
use vstd::string::*;

verus! {

/// Tokens in the making, over a view of the module.
pub struct Seg<'a> {
    pub ctx: &'a Context,
    /// The function whose view it is; `None` for the whole module.
    pub owner: Option<FunctionId>,
    pub out: Vec<Token>,
}

impl<'a> View for Seg<'a> {
    type V = Line;

    open spec fn view(&self) -> Line {
        Line { tokens: token_views(self.out@), ok: true }
    }
}

// Where a whole list can be rendered, each beginning of it can.

proof fn lemma_args_line_ok(
    c: Context,
    o: Option<FunctionId>,
    func: FunctionId,
    args: Seq<LocalValueId>,
    i: nat,
    n: nat,
    depth: nat,
)
    requires
        i <= n,
        args_line(c, o, func, args, n, depth).ok,
    ensures
        args_line(c, o, func, args, i, depth).ok,
    decreases n - i,
{
    if i < n {
        lemma_args_line_ok(c, o, func, args, i, (n - 1) as nat, depth);
    }
}

proof fn lemma_captures_line_ok(
    c: Context,
    o: Option<FunctionId>,
    func: FunctionId,
    args: Seq<LocalValueId>,
    i: nat,
    n: nat,
    depth: nat,
)
    requires
        i <= n,
        captures_line(c, o, func, args, n, depth).ok,
    ensures
        captures_line(c, o, func, args, i, depth).ok,
    decreases n - i,
{
    if i < n {
        lemma_captures_line_ok(c, o, func, args, i, (n - 1) as nat, depth);
    }
}

proof fn lemma_call_args_line_ok(
    c: Context,
    o: Option<FunctionId>,
    func: FunctionId,
    callee: Callee,
    args: Seq<LocalValueId>,
    i: nat,
    n: nat,
    depth: nat,
)
    requires
        i <= n,
        call_args_line(c, o, func, callee, args, n, depth).ok,
    ensures
        call_args_line(c, o, func, callee, args, i, depth).ok,
    decreases n - i,
{
    if i < n {
        lemma_call_args_line_ok(c, o, func, callee, args, i, (n - 1) as nat, depth);
    }
}

proof fn lemma_fields_line_ok(
    c: Context,
    o: Option<FunctionId>,
    func: FunctionId,
    ty: Option<TypeId>,
    args: Seq<LocalValueId>,
    i: nat,
    n: nat,
    depth: nat,
)
    requires
        i <= n,
        fields_line(c, o, func, ty, args, n, depth).ok,
    ensures
        fields_line(c, o, func, ty, args, i, depth).ok,
    decreases n - i,
{
    if i < n {
        lemma_fields_line_ok(c, o, func, ty, args, i, (n - 1) as nat, depth);
    }
}

proof fn lemma_branch_args_line_ok(
    c: Context,
    o: Option<FunctionId>,
    target: BlockId,
    args: Seq<LocalValueId>,
    i: nat,
    n: nat,
    depth: nat,
)
    requires
        i <= n,
        branch_args_line(c, o, target, args, n, depth).ok,
    ensures
        branch_args_line(c, o, target, args, i, depth).ok,
    decreases n - i,
{
    if i < n {
        lemma_branch_args_line_ok(c, o, target, args, i, (n - 1) as nat, depth);
    }
}

proof fn lemma_arms_line_ok(
    c: Context,
    o: Option<FunctionId>,
    func: FunctionId,
    arms: Seq<SwitchArm>,
    i: nat,
    n: nat,
    depth: nat,
)
    requires
        i <= n,
        arms_line(c, o, func, arms, n, depth).ok,
    ensures
        arms_line(c, o, func, arms, i, depth).ok,
    decreases n - i,
{
    if i < n {
        lemma_arms_line_ok(c, o, func, arms, i, (n - 1) as nat, depth);
    }
}

impl<'a> Seg<'a> {
    /// Whether two states are of one view.
    pub open spec fn same_view(&self, other: &Self) -> bool {
        self.ctx == other.ctx && self.owner == other.owner
    }

    pub(crate) fn new(ctx: &'a Context, owner: Option<FunctionId>) -> (seg: Self)
        ensures
            seg.ctx == ctx,
            seg.owner == owner,
            seg@ == Line::empty(),
    {
        let seg = Seg { ctx, owner, out: Vec::new() };
        proof {
            assert(seg@.tokens =~= Line::empty().tokens);
        }
        seg
    }

    pub(crate) fn push(&mut self, text: String, kind: TokenKind, link: Option<Link>)
        ensures
            final(self).same_view(old(self)),
            final(self)@ == old(self)@.push(text@, kind, link),
    {
        self.out.push(Token { text, kind, link });
        proof {
            assert(self@.tokens =~= old(self)@.push(text@, kind, link).tokens);
        }
    }

    fn kw(&mut self, text: &str)
        ensures
            final(self).same_view(old(self)),
            final(self)@ == old(self)@.kw(text@),
    {
        self.push(String::from_str(text), TokenKind::Keyword, None);
    }

    fn op(&mut self, text: &str)
        ensures
            final(self).same_view(old(self)),
            final(self)@ == old(self)@.op(text@),
    {
        self.push(String::from_str(text), TokenKind::Operator, None);
    }

    fn punct(&mut self, text: &str)
        ensures
            final(self).same_view(old(self)),
            final(self)@ == old(self)@.punct(text@),
    {
        self.push(String::from_str(text), TokenKind::Punctuation, None);
    }

    /// The tokens of `other` after these.
    fn append(&mut self, other: Seg<'a>)
        ensures
            final(self).same_view(old(self)),
            final(self)@ == old(self)@.cat(other@),
    {
        let mut tokens = other.out;
        self.out.append(&mut tokens);
        proof {
            assert(self@.tokens =~= old(self)@.cat(other@).tokens);
        }
    }

    fn ty(&mut self, id: TypeId)
        requires
            old(self).ctx.wf(),
            old(self).ctx.type_label(id).ok,
        ensures
            final(self).same_view(old(self)),
            final(self)@ == old(self)@.ty(*old(self).ctx, id),
    {
        let name = self.ctx.shared.types.display_name(id);
        self.push(both(name.as_str(), " "), TokenKind::Type, None);
    }

    fn width(&mut self, size: usize)
        requires
            size * 8 <= u64::MAX,
        ensures
            final(self).same_view(old(self)),
            final(self)@ == old(self)@.width(size),
    {
        let bits = decimal(size as u64 * 8);
        self.push(three("i", bits.as_str(), " "), TokenKind::Type, None);
    }

    fn space(&mut self, space: LocalMemorySpaceId)
        requires
            old(self).ctx.space_label(space).ok,
        ensures
            final(self).same_view(old(self)),
            final(self)@ == old(self)@.space(*old(self).ctx, space),
    {
        let name = self.ctx.space_atom(space);
        self.push(name, TokenKind::Space, None);
    }

    fn callee(&mut self, callee: Callee)
        requires
            old(self).ctx.callee_label(callee).ok,
        ensures
            final(self).same_view(old(self)),
            final(self)@ == old(self)@.callee(*old(self).ctx, callee),
    {
        let (name, link) = self.ctx.callee_name_link(callee);
        self.push(name, TokenKind::Function, link);
    }

    /// A value.
    pub(crate) fn value(&mut self, id: ValueId, Ghost(depth): Ghost<nat>)
        requires
            old(self).ctx.wf(),
            value_line(*old(self).ctx, old(self).owner, id, depth).ok,
        ensures
            final(self).same_view(old(self)),
            final(self)@ == old(self)@.cat(
                value_line(*old(self).ctx, old(self).owner, id, depth),
            ),
        decreases depth, 0int,
    {
        let ctx = self.ctx;
        let owner = self.owner;
        let ghost line = value_line(*ctx, owner, id, depth);
        let link = Some(Link::Value(id));
        match id {
            ValueId::Instruction(i) => {
                self.ty(ctx.bodies[i.func.0 as usize].insns.get(i.local.0).type_id);
                self.push(ctx.insn_atom(i), TokenKind::Variable, link);
            },
            ValueId::BlockParam(p) => {
                self.ty(ctx.bodies[p.func.0 as usize].params.get(p.local.0).type_id);
                self.push(ctx.param_atom(p), TokenKind::BlockParam, link);
            },
            ValueId::Literal(l) => {
                self.ty(ctx.shared.literals.get(l).type_id);
                self.push(ctx.literal_atom_view(owner, l), TokenKind::Literal, link);
            },
            ValueId::Bytes(b) => {
                let bytes = ctx.shared.bytes.get(b);
                self.ty(bytes.type_id);
                self.push(bytes.render(), TokenKind::Bytes, link);
            },
            ValueId::Varnode(v) => {
                let varnode = ctx.shared.varnodes.get(v);
                self.width(varnode.size);
                self.push(String::from_str(varnode.name.as_str()), TokenKind::Varnode, link);
            },
            ValueId::Poison(p) => {
                self.ty(ctx.shared.poisons.get(p).type_id);
                self.push(String::from_str("poison"), TokenKind::Literal, link);
            },
            ValueId::Temp(t) => {
                self.width(ctx.bodies[t.func.0 as usize].temps[t.local.0 as usize].size);
                self.push(ctx.temp_atom(t), TokenKind::Varnode, link);
            },
            ValueId::Function(f) => {
                let name = three("<", ctx.interfaces[f.0 as usize].name.as_str(), ">");
                self.push(name, TokenKind::Function, Some(Link::Function(f)));
            },
            ValueId::BasicBlock(b) => {
                let text = if is_foreign(owner, b.func) {
                    Context::foreign_block_atom(b)
                } else {
                    block_listing(ctx, owner, b, Ghost((depth - 1) as nat))
                };
                self.push(text, TokenKind::Label, Some(Link::Block(b)));
            },
        }
        proof {
            assert(self@.tokens =~= old(self)@.tokens + line.tokens);
        }
    }

    fn operand(&mut self, func: FunctionId, v: LocalValueId, Ghost(depth): Ghost<nat>)
        requires
            old(self).ctx.wf(),
            value_line(*old(self).ctx, old(self).owner, v.spec_qualify(func), depth).ok,
        ensures
            final(self).same_view(old(self)),
            final(self)@ == old(self)@.cat(
                value_line(*old(self).ctx, old(self).owner, v.spec_qualify(func), depth),
            ),
        decreases depth, 1int,
    {
        self.value(v.qualify(func), Ghost(depth));
    }

    /// A value without its type, where it is an instruction's.
    fn bare_value(&mut self, id: ValueId, Ghost(depth): Ghost<nat>)
        requires
            old(self).ctx.wf(),
            bare_line(*old(self).ctx, old(self).owner, id, depth).ok,
        ensures
            final(self).same_view(old(self)),
            final(self)@ == old(self)@.cat(bare_line(*old(self).ctx, old(self).owner, id, depth)),
        decreases depth, 1int,
    {
        match id {
            ValueId::Instruction(i) => {
                let atom = self.ctx.insn_atom(i);
                self.push(atom, TokenKind::Variable, Some(Link::Value(id)));
                proof {
                    let line = bare_line(*old(self).ctx, old(self).owner, id, depth);
                    assert(self@.tokens =~= old(self)@.tokens + line.tokens);
                }
            },
            other => {
                self.value(other, Ghost(depth));
            },
        }
    }

    /// Values between commas.
    fn args(
        &mut self,
        func: FunctionId,
        args: &Vec<LocalValueId>,
        Ghost(depth): Ghost<nat>,
    )
        requires
            old(self).ctx.wf(),
            args_line(*old(self).ctx, old(self).owner, func, args@, args@.len(), depth).ok,
        ensures
            final(self).same_view(old(self)),
            final(self)@ == old(self)@.cat(
                args_line(*old(self).ctx, old(self).owner, func, args@, args@.len(), depth),
            ),
        decreases depth, 2int,
    {
        let ghost c = *self.ctx;
        let ghost o = self.owner;
        let ghost start = self@;
        proof {
            assert(self@.tokens =~= start.cat(args_line(c, o, func, args@, 0, depth)).tokens);
        }
        let mut i: usize = 0;
        while i < args.len()
            invariant
                i <= args.len(),
                self.ctx.wf(),
                self.same_view(old(self)),
                c == *self.ctx,
                o == self.owner,
                start.ok,
                args_line(c, o, func, args@, args@.len(), depth).ok,
                self@ == start.cat(args_line(c, o, func, args@, i as nat, depth)),
            decreases args.len() - i,
        {
            let ghost before = self@;
            proof {
                lemma_args_line_ok(c, o, func, args@, (i + 1) as nat, args@.len(), depth);
            }
            if i > 0 {
                self.punct(", ");
            }
            self.operand(func, args[i], Ghost(depth));
            proof {
                assert(self@.tokens =~= start.cat(
                    args_line(c, o, func, args@, (i + 1) as nat, depth),
                ).tokens);
            }
            i = i + 1;
        }
    }

    /// Values after spaces.
    fn captures(
        &mut self,
        func: FunctionId,
        args: &Vec<LocalValueId>,
        Ghost(depth): Ghost<nat>,
    )
        requires
            old(self).ctx.wf(),
            captures_line(*old(self).ctx, old(self).owner, func, args@, args@.len(), depth).ok,
        ensures
            final(self).same_view(old(self)),
            final(self)@ == old(self)@.cat(
                captures_line(*old(self).ctx, old(self).owner, func, args@, args@.len(), depth),
            ),
        decreases depth, 2int,
    {
        let ghost c = *self.ctx;
        let ghost o = self.owner;
        let ghost start = self@;
        proof {
            assert(self@.tokens =~= start.cat(captures_line(c, o, func, args@, 0, depth)).tokens);
        }
        let mut i: usize = 0;
        while i < args.len()
            invariant
                i <= args.len(),
                self.ctx.wf(),
                self.same_view(old(self)),
                c == *self.ctx,
                o == self.owner,
                start.ok,
                captures_line(c, o, func, args@, args@.len(), depth).ok,
                self@ == start.cat(captures_line(c, o, func, args@, i as nat, depth)),
            decreases args.len() - i,
        {
            let ghost before = self@;
            proof {
                lemma_captures_line_ok(c, o, func, args@, (i + 1) as nat, args@.len(), depth);
            }
            self.punct(" ");
            self.operand(func, args[i], Ghost(depth));
            proof {
                assert(self@.tokens =~= start.cat(
                    captures_line(c, o, func, args@, (i + 1) as nat, depth),
                ).tokens);
            }
            i = i + 1;
        }
    }

    /// Values between commas, after their names.
    fn call_args(
        &mut self,
        func: FunctionId,
        callee: Callee,
        args: &Vec<LocalValueId>,
        Ghost(depth): Ghost<nat>,
    )
        requires
            old(self).ctx.wf(),
            call_args_line(*old(self).ctx, old(self).owner, func, callee, args@, args@.len(), depth).ok,
        ensures
            final(self).same_view(old(self)),
            final(self)@ == old(self)@.cat(
                call_args_line(*old(self).ctx, old(self).owner, func, callee, args@, args@.len(), depth),
            ),
        decreases depth, 2int,
    {
        let ghost c = *self.ctx;
        let ghost o = self.owner;
        let ghost start = self@;
        proof {
            assert(self@.tokens =~= start.cat(call_args_line(c, o, func, callee, args@, 0, depth)).tokens);
        }
        let mut i: usize = 0;
        while i < args.len()
            invariant
                i <= args.len(),
                self.ctx.wf(),
                self.same_view(old(self)),
                c == *self.ctx,
                o == self.owner,
                start.ok,
                call_args_line(c, o, func, callee, args@, args@.len(), depth).ok,
                self@ == start.cat(call_args_line(c, o, func, callee, args@, i as nat, depth)),
            decreases args.len() - i,
        {
            let ghost before = self@;
            proof {
                lemma_call_args_line_ok(c, o, func, callee, args@, (i + 1) as nat, args@.len(), depth);
            }
            if i > 0 {
                self.punct(", ");
            }
            let name = self.ctx.call_arg_name(self.owner, callee, i);
            self.push(name, TokenKind::BlockParam, None);
            self.operand(func, args[i], Ghost(depth));
            proof {
                assert(self@.tokens =~= start.cat(
                    call_args_line(c, o, func, callee, args@, (i + 1) as nat, depth),
                ).tokens);
            }
            i = i + 1;
        }
    }

    /// The fields of an aggregate, after their names.
    fn fields(
        &mut self,
        func: FunctionId,
        ty: Option<TypeId>,
        args: &Vec<LocalValueId>,
        Ghost(depth): Ghost<nat>,
    )
        requires
            old(self).ctx.wf(),
            ty matches Some(ty) ==> old(self).ctx.shared.types.has(ty),
            fields_line(*old(self).ctx, old(self).owner, func, ty, args@, args@.len(), depth).ok,
        ensures
            final(self).same_view(old(self)),
            final(self)@ == old(self)@.cat(
                fields_line(*old(self).ctx, old(self).owner, func, ty, args@, args@.len(), depth),
            ),
        decreases depth, 2int,
    {
        let ghost c = *self.ctx;
        let ghost o = self.owner;
        let ghost start = self@;
        proof {
            assert(self@.tokens =~= start.cat(fields_line(c, o, func, ty, args@, 0, depth)).tokens);
        }
        let mut i: usize = 0;
        while i < args.len()
            invariant
                i <= args.len(),
                self.ctx.wf(),
            ty matches Some(ty) ==> self.ctx.shared.types.has(ty),
                self.same_view(old(self)),
                c == *self.ctx,
                o == self.owner,
                start.ok,
                fields_line(c, o, func, ty, args@, args@.len(), depth).ok,
                self@ == start.cat(fields_line(c, o, func, ty, args@, i as nat, depth)),
            decreases args.len() - i,
        {
            let ghost before = self@;
            proof {
                lemma_fields_line_ok(c, o, func, ty, args@, (i + 1) as nat, args@.len(), depth);
            }
            if i > 0 {
                self.punct(", ");
            }
            let name = self.field_name(ty, i);
            self.push(name, TokenKind::Field, None);
            self.op("=");
            self.operand(func, args[i], Ghost(depth));
            proof {
                assert(self@.tokens =~= start.cat(
                    fields_line(c, o, func, ty, args@, (i + 1) as nat, depth),
                ).tokens);
            }
            i = i + 1;
        }
    }

    /// The name of a field of the type `ty`, or its default name.
    fn field_name(&self, ty: Option<TypeId>, i: usize) -> (name: String)
        requires
            self.ctx.wf(),
            ty matches Some(ty) ==> self.ctx.shared.types.has(ty),
            i < usize::MAX,
        ensures
            name@ == field_label(*self.ctx, ty, i as nat),
    {
        if let Some(ty) = ty {
            if let Some(name) = self.ctx.shared.types.field_name(ty, i) {
                return String::from_str(name.as_str());
            }
        }
        let n = decimal(i as u64 + 1);
        both("field", n.as_str())
    }

    /// The name before argument `i` of a branch.
    fn branch_arg_name(&self, target: BlockId, i: usize) -> (name: String)
        requires
            self.ctx.wf(),
            self.ctx.has_block(target),
            branch_arg_label(*self.ctx, target, i as nat).ok,
        ensures
            name@ == branch_arg_label(*self.ctx, target, i as nat).chars,
    {
        let params = &self.ctx.bodies[target.func.0 as usize].blocks.get(target.local.0).params;
        if i < params.len() {
            self.ctx.param_use(BlockParamId::new(target.func, params[i]))
        } else {
            let n = decimal(i as u64);
            both("@arg", n.as_str())
        }
    }

    /// The arguments of a branch.
    fn branch_args(
        &mut self,
        target: BlockId,
        args: &Vec<LocalValueId>,
        Ghost(depth): Ghost<nat>,
    )
        requires
            old(self).ctx.wf(),
            old(self).ctx.has_block(target),
            branch_args_line(*old(self).ctx, old(self).owner, target, args@, args@.len(), depth).ok,
        ensures
            final(self).same_view(old(self)),
            final(self)@ == old(self)@.cat(
                branch_args_line(*old(self).ctx, old(self).owner, target, args@, args@.len(), depth),
            ),
        decreases depth, 2int,
    {
        let ghost c = *self.ctx;
        let ghost o = self.owner;
        let ghost start = self@;
        proof {
            assert(self@.tokens =~= start.cat(branch_args_line(c, o, target, args@, 0, depth)).tokens);
        }
        let mut i: usize = 0;
        while i < args.len()
            invariant
                i <= args.len(),
                self.ctx.wf(),
            self.ctx.has_block(target),
                self.same_view(old(self)),
                c == *self.ctx,
                o == self.owner,
                start.ok,
                branch_args_line(c, o, target, args@, args@.len(), depth).ok,
                self@ == start.cat(branch_args_line(c, o, target, args@, i as nat, depth)),
            decreases args.len() - i,
        {
            let ghost before = self@;
            proof {
                lemma_branch_args_line_ok(c, o, target, args@, (i + 1) as nat, args@.len(), depth);
            }
            self.punct(" ");
            let name = self.branch_arg_name(target, i);
            self.push(name, TokenKind::BlockParam, None);
            self.op("=");
            self.operand(target.func, args[i], Ghost(depth));
            proof {
                assert(self@.tokens =~= start.cat(
                    branch_args_line(c, o, target, args@, (i + 1) as nat, depth),
                ).tokens);
            }
            i = i + 1;
        }
    }

    /// The target of a branch.
    fn branch_target(
        &mut self,
        func: FunctionId,
        target: LocalBlockId,
        args: &Vec<LocalValueId>,
        Ghost(depth): Ghost<nat>,
    )
        requires
            old(self).ctx.wf(),
            branch_line(*old(self).ctx, old(self).owner, func, target, args@, depth).ok,
        ensures
            final(self).same_view(old(self)),
            final(self)@ == old(self)@.cat(
                branch_line(*old(self).ctx, old(self).owner, func, target, args@, depth),
            ),
        decreases depth, 3int,
    {
        let ghost line = branch_line(*self.ctx, self.owner, func, target, args@, depth);
        let target = BlockId::new(func, target);
        let label = self.ctx.block_atom(target);
        self.push(both("<", label.as_str()), TokenKind::Label, Some(Link::Block(target)));
        self.branch_args(target, args, Ghost(depth));
        self.push(String::from_str(">"), TokenKind::Label, None);
        proof {
            assert(self@.tokens =~= old(self)@.tokens + line.tokens);
        }
    }

    /// The arms of a dispatch.
    fn arms(
        &mut self,
        func: FunctionId,
        arms: &Vec<SwitchArm>,
        Ghost(depth): Ghost<nat>,
    )
        requires
            old(self).ctx.wf(),
            arms_line(*old(self).ctx, old(self).owner, func, arms@, arms@.len(), depth).ok,
        ensures
            final(self).same_view(old(self)),
            final(self)@ == old(self)@.cat(
                arms_line(*old(self).ctx, old(self).owner, func, arms@, arms@.len(), depth),
            ),
        decreases depth, 4int,
    {
        let ghost c = *self.ctx;
        let ghost o = self.owner;
        let ghost start = self@;
        proof {
            assert(self@.tokens =~= start.cat(arms_line(c, o, func, arms@, 0, depth)).tokens);
        }
        let mut i: usize = 0;
        while i < arms.len()
            invariant
                i <= arms.len(),
                self.ctx.wf(),
                self.same_view(old(self)),
                c == *self.ctx,
                o == self.owner,
                start.ok,
                arms_line(c, o, func, arms@, arms@.len(), depth).ok,
                self@ == start.cat(arms_line(c, o, func, arms@, i as nat, depth)),
            decreases arms.len() - i,
        {
            let ghost before = self@;
            proof {
                lemma_arms_line_ok(c, o, func, arms@, (i + 1) as nat, arms@.len(), depth);
            }
            if i > 0 {
                self.punct(", ");
            }
            let n = hex_name(arms[i].value);
            self.push(both("0x", n.as_str()), TokenKind::Literal, None);
            self.op(" => ");
            self.branch_target(func, arms[i].target, &arms[i].args, Ghost(depth));
            proof {
                assert(self@.tokens =~= start.cat(
                    arms_line(c, o, func, arms@, (i + 1) as nat, depth),
                ).tokens);
            }
            i = i + 1;
        }
    }
}

impl Context {
    /// A parameter of a block, before an argument for it.
    pub(crate) fn param_use(&self, id: BlockParamId) -> (text: String)
        requires
            self.wf(),
            param_text(*self, id).ok,
        ensures
            text@ == param_text(*self, id).chars,
    {
        let ty = self.bodies[id.func.0 as usize].params.get(id.local.0).type_id;
        let label = self.shared.types.display_name(ty);
        let atom = self.param_atom(id);
        if self.shared.types.pointee_of(ty).is_some() || self.shared.types.struct_name_of(
            ty,
        ).is_some() {
            three(label.as_str(), " ", atom.as_str())
        } else {
            atom
        }
    }
}

/// A conversion.
fn cast<'a>(
    ctx: &'a Context,
    owner: Option<FunctionId>,
    func: FunctionId,
    word: &str,
    prefix: &str,
    size: usize,
    src: LocalValueId,
    Ghost(depth): Ghost<nat>,
) -> (seg: Seg<'a>)
    requires
        ctx.wf(),
        cast_line(*ctx, owner, func, word@, prefix@, size, src, depth).ok,
    ensures
        seg.ctx == ctx,
        seg.owner == owner,
        seg@ == cast_line(*ctx, owner, func, word@, prefix@, size, src, depth),
    decreases depth, 2int,
{
    let mut seg = Seg::new(ctx, owner);
    seg.kw(word);
    seg.punct("(");
    let bits = decimal(size as u64 * 8);
    seg.push(both(prefix, bits.as_str()), TokenKind::Type, None);
    seg.punct(", ");
    seg.operand(func, src, Ghost(depth));
    seg.punct(");");
    seg
}

/// An operation of one operand.
fn unary_call<'a>(
    ctx: &'a Context,
    owner: Option<FunctionId>,
    func: FunctionId,
    word: &str,
    src: LocalValueId,
    Ghost(depth): Ghost<nat>,
) -> (seg: Seg<'a>)
    requires
        ctx.wf(),
        unary_line(*ctx, owner, func, word@, src, depth).ok,
    ensures
        seg.ctx == ctx,
        seg.owner == owner,
        seg@ == unary_line(*ctx, owner, func, word@, src, depth),
    decreases depth, 2int,
{
    let mut seg = Seg::new(ctx, owner);
    seg.kw(word);
    seg.punct("(");
    seg.operand(func, src, Ghost(depth));
    seg.punct(");");
    seg
}

/// An operation of two operands.
fn binary_call<'a>(
    ctx: &'a Context,
    owner: Option<FunctionId>,
    func: FunctionId,
    word: &str,
    lhs: LocalValueId,
    rhs: LocalValueId,
    Ghost(depth): Ghost<nat>,
) -> (seg: Seg<'a>)
    requires
        ctx.wf(),
        binary_line(*ctx, owner, func, word@, lhs, rhs, depth).ok,
    ensures
        seg.ctx == ctx,
        seg.owner == owner,
        seg@ == binary_line(*ctx, owner, func, word@, lhs, rhs, depth),
    decreases depth, 2int,
{
    let mut seg = Seg::new(ctx, owner);
    seg.kw(word);
    seg.punct("(");
    seg.operand(func, lhs, Ghost(depth));
    seg.punct(", ");
    seg.operand(func, rhs, Ghost(depth));
    seg.punct(");");
    seg
}

/// An operation. `ty` is the type of its result where the names of the fields
/// are to be taken from it.
fn mnemonic_segments<'a>(
    ctx: &'a Context,
    owner: Option<FunctionId>,
    func: FunctionId,
    m: &Mnemonic,
    ty: Option<TypeId>,
    Ghost(depth): Ghost<nat>,
) -> (result: Seg<'a>)
    requires
        ctx.wf(),
        mnemonic_line(*ctx, owner, func, *m, ty, depth).ok,
    ensures
        result.ctx == ctx,
        result.owner == owner,
        result@ == mnemonic_line(*ctx, owner, func, *m, ty, depth),
    decreases depth, 5int,
{
    let mut seg = Seg::new(ctx, owner);
    match m {
        Mnemonic::Load(l) => {
            seg.kw("load");
            seg.punct("(");
            seg.space(l.space);
            seg.punct(":");
            seg.push(decimal(l.size as u64), TokenKind::Type, None);
            seg.punct(", ");
            seg.operand(func, l.ptr, Ghost(depth));
            seg.punct(");");
        },
        Mnemonic::Store(s) => {
            seg.kw("store");
            seg.punct("(");
            seg.space(s.space);
            seg.punct(":");
            seg.push(decimal(s.size as u64), TokenKind::Type, None);
            seg.punct(", ");
            seg.operand(func, s.ptr, Ghost(depth));
            seg.op(" <- ");
            seg.operand(func, s.src, Ghost(depth));
            seg.punct(");");
        },
        Mnemonic::Branch(b) => {
            seg.kw("goto ");
            seg.branch_target(func, b.target, &b.args, Ghost(depth));
            seg.punct(";");
        },
        Mnemonic::BranchInd(b) => {
            seg.kw("goto ");
            seg.punct("[");
            seg.operand(func, b.ptr, Ghost(depth));
            seg.punct("];");
        },
        Mnemonic::CBranch(b) => {
            seg.kw("if ");
            seg.operand(func, b.condition, Ghost(depth));
            seg.kw(" goto ");
            seg.branch_target(func, b.success_block, &b.success_args, Ghost(depth));
            seg.kw(" else goto ");
            seg.branch_target(func, b.failure_block, &b.failure_args, Ghost(depth));
            seg.punct(";");
        },
        Mnemonic::Switch(s) => {
            seg.kw("switch ");
            seg.operand(func, s.scrutinee, Ghost(depth));
            seg.punct(" { ");
            seg.arms(func, &s.cases, Ghost(depth));
            if let Some(target) = s.default {
                if s.cases.len() > 0 {
                    seg.punct(", ");
                }
                seg.kw("default");
                seg.op(" => ");
                seg.branch_target(func, target, &s.default_args, Ghost(depth));
            }
            seg.punct(" };");
        },
        Mnemonic::Apply(a) => {
            seg.kw("apply ");
            seg.callee(a.target);
            seg.punct("(");
            seg.args(func, &a.args, Ghost(depth));
            seg.punct(");");
        },
        Mnemonic::Call(a) => {
            seg.kw("call fn ");
            seg.callee(a.target);
            seg.punct("(");
            seg.call_args(func, a.target, &a.args, Ghost(depth));
            seg.punct(");");
        },
        Mnemonic::TailCall(a) => {
            seg.kw("tailcall fn ");
            seg.callee(a.target);
            seg.punct("(");
            seg.args(func, &a.args, Ghost(depth));
            seg.punct(");");
        },
        Mnemonic::CallInd(a) => {
            seg.kw("call ");
            seg.punct("[");
            seg.operand(func, a.ptr, Ghost(depth));
            seg.punct("]");
            if a.args.len() > 0 {
                seg.punct("(");
                seg.args(func, &a.args, Ghost(depth));
                seg.punct(")");
            }
            seg.punct(";");
        },
        Mnemonic::BadInsn(_) => {
            seg.kw("badinsn");
            seg.punct(";");
        },
        Mnemonic::Return(r) => match r.value {
            Some(value) => {
                seg.kw("return ");
                seg.operand(func, value, Ghost(depth));
                seg.kw(" at ");
                seg.operand(func, r.ptr, Ghost(depth));
                seg.punct(";");
            },
            None => {
                seg.kw("return at ");
                seg.operand(func, r.ptr, Ghost(depth));
                seg.punct(";");
            },
        },
        Mnemonic::ReturnValue(r) => {
            seg.kw("return ");
            seg.operand(func, r.value, Ghost(depth));
            seg.punct(";");
        },
        Mnemonic::Unop(u) => match u.op {
            Unop::IntNegate | Unop::IntNot | Unop::FloatNegate => {
                let symbol = both(u.op.symbol(), " ");
                seg.op(symbol.as_str());
                seg.operand(func, u.src, Ghost(depth));
                seg.punct(";");
            },
            _ => {
                seg = unary_call(ctx, owner, func, u.op.symbol(), u.src, Ghost(depth));
            },
        },
        Mnemonic::Binop(b) => {
            seg.operand(func, b.lhs, Ghost(depth));
            let symbol = three(" ", b.op.symbol(), " ");
            seg.op(symbol.as_str());
            seg.operand(func, b.rhs, Ghost(depth));
            seg.punct(";");
        },
        Mnemonic::Zext(z) => {
            seg = cast(ctx, owner, func, "zext", "i", z.size, z.src, Ghost(depth));
        },
        Mnemonic::Sext(s) => {
            seg = cast(ctx, owner, func, "sext", "i", s.size, s.src, Ghost(depth));
        },
        Mnemonic::IntToFloat(x) => {
            seg = cast(ctx, owner, func, "int2float", "f", x.size, x.src, Ghost(depth));
        },
        Mnemonic::FloatToFloat(x) => {
            seg = cast(ctx, owner, func, "float2float", "f", x.size, x.src, Ghost(depth));
        },
        Mnemonic::FloatToInt(x) => {
            seg = cast(ctx, owner, func, "trunc", "i", x.size, x.src, Ghost(depth));
        },
        Mnemonic::Range(r) => {
            seg.operand(func, r.src, Ghost(depth));
            seg.punct("[");
            seg.push(decimal(r.start as u64), TokenKind::Literal, None);
            seg.punct(":");
            seg.push(decimal((r.start + r.size) as u64), TokenKind::Literal, None);
            seg.punct("];");
        },
        Mnemonic::IsFloatNaN(x) => {
            seg = unary_call(ctx, owner, func, "nan", x.src, Ghost(depth));
        },
        Mnemonic::LzCount(x) => {
            seg = unary_call(ctx, owner, func, "lzcount", x.src, Ghost(depth));
        },
        Mnemonic::PopCount(x) => {
            seg = unary_call(ctx, owner, func, "popcount", x.src, Ghost(depth));
        },
        Mnemonic::Carry(x) => {
            seg = binary_call(ctx, owner, func, "carry", x.lhs, x.rhs, Ghost(depth));
        },
        Mnemonic::SCarry(x) => {
            seg = binary_call(ctx, owner, func, "scarry", x.lhs, x.rhs, Ghost(depth));
        },
        Mnemonic::SBorrow(x) => {
            seg = binary_call(ctx, owner, func, "sborrow", x.lhs, x.rhs, Ghost(depth));
        },
        Mnemonic::Assert(a) => {
            seg.kw("assert ");
            seg.operand(func, a.condition, Ghost(depth));
            seg.punct(";");
        },
        Mnemonic::Tuple(t) => {
            seg.kw("pack");
            seg.punct("(");
            seg.fields(func, ty, &t.fields, Ghost(depth));
            seg.punct(");");
        },
        Mnemonic::Extract(e) => {
            seg.kw("extract");
            seg.punct("(");
            let agg = e.agg.qualify(func);
            seg.bare_value(agg, Ghost(depth));
            let name = match ctx.extract_field_name(agg, e.index) {
                Some(name) => String::from_str(name.as_str()),
                None => {
                    let n = decimal(e.index as u64 + 1);
                    both("field", n.as_str())
                },
            };
            seg.push(both(".", name.as_str()), TokenKind::Field, None);
            seg.punct(");");
        },
        Mnemonic::Gep(g) => {
            seg.kw("gep");
            seg.punct("(");
            let base = g.base.qualify(func);
            seg.bare_value(base, Ghost(depth));
            match ctx.gep_field_name(base, g.offset) {
                Some(name) => {
                    seg.push(both(".", name.as_str()), TokenKind::Field, None);
                },
                None => {
                    seg.op(" + ");
                    let n = hex_name(g.offset as u64);
                    seg.push(both("0x", n.as_str()), TokenKind::Literal, None);
                },
            }
            seg.punct(");");
        },
        Mnemonic::ArrayMap(map) => {
            if map.captures.len() == 0 {
                seg.callee(map.body);
                seg.op(" <$> ");
            } else {
                seg.punct("(");
                seg.callee(map.body);
                seg.captures(func, &map.captures, Ghost(depth));
                seg.op(") <$> ");
            }
            seg.operand(func, map.src, Ghost(depth));
            seg.punct(";");
        },
        Mnemonic::Scan(scan) => {
            let (name, link) = ctx.callee_name_link(scan.body);
            let body = match scan.body {
                Callee::Real(_) => both("@", name.as_str()),
                Callee::Minted(_) => name,
            };
            seg.kw("scanl ");
            if scan.captures.len() == 0 {
                seg.push(body, TokenKind::Function, link);
                seg.punct(" ");
            } else {
                seg.punct("(");
                seg.push(body, TokenKind::Function, link);
                seg.captures(func, &scan.captures, Ghost(depth));
                seg.punct(") ");
            }
            seg.operand(func, scan.init, Ghost(depth));
            seg.punct(" ");
            seg.operand(func, scan.src, Ghost(depth));
            seg.punct(";");
        },
        Mnemonic::PCodeOp(p) => {
            if let Some(dst) = p.dst {
                seg.operand(func, dst, Ghost(depth));
                seg.op(" = ");
            }
            seg.kw(ctx.shared.pcode_ops[p.id.0].as_str());
            seg.punct("(");
            seg.args(func, &p.args, Ghost(depth));
            seg.punct(");");
        },
        Mnemonic::Intrinsic(x) => {
            let name = both("$", x.id.name(&ctx.shared.intrinsics).as_str());
            seg.kw(name.as_str());
            seg.punct("(");
            seg.args(func, &x.args, Ghost(depth));
            seg.punct(");");
        },
    }
    seg
}

/// An instruction as a statement.
pub(crate) fn statement<'a>(
    ctx: &'a Context,
    owner: Option<FunctionId>,
    id: InstructionId,
    Ghost(depth): Ghost<nat>,
) -> (seg: Seg<'a>)
    requires
        ctx.wf(),
        insn_line(*ctx, owner, id, depth).ok,
    ensures
        seg.ctx == ctx,
        seg.owner == owner,
        seg@ == insn_line(*ctx, owner, id, depth),
    decreases depth, 6int,
{
    let mut seg = Seg::new(ctx, owner);
    let insn = ctx.bodies[id.func.0 as usize].insns.get(id.local.0);
    if ctx.shared.types.size_of(insn.type_id) != 0 {
        seg.ty(insn.type_id);
        seg.push(
            ctx.insn_atom(id),
            TokenKind::Variable,
            Some(Link::Value(ValueId::Instruction(id))),
        );
        seg.op(" = ");
    }
    let rest = mnemonic_segments(
        ctx,
        owner,
        id.func,
        &insn.mnemonic,
        Some(insn.type_id),
        Ghost(depth),
    );
    seg.append(rest);
    seg
}

} // verus!
