//! What the tokens of values, instructions and blocks are.
//!
//! A line says which tokens come out and whether they can be made at all:
//! everything they name has to be there. A block that is used as a value is
//! written out in full, so `depth` bounds how deep blocks are nested.

use crate::context::Context;
use crate::ids::{
    BlockId, BlockParamId, EdgeId, FunctionId, InstructionId, LocalBlockId, LocalInsnId, TypeId,
};
use crate::insn::mnemonic::Mnemonic;
use crate::insn::terminator::{Callee, SwitchArm};
use crate::insn::unop::Unop;
use crate::segment::atoms::{foreign, Text};
use crate::segment::{joined, Link, TokenKind, TokenView};
use crate::sort::text_less;
use crate::space::LocalMemorySpaceId;
use crate::text::{dec, hex};
use crate::types::type_size;
use crate::value::{LocalValueId, ValueId};
use vstd::prelude::*;

verus! {

/// A run of tokens, and whether it can be made.
pub struct Line {
    pub tokens: Seq<TokenView>,
    pub ok: bool,
}

impl Line {
    pub open spec fn empty() -> Line {
        Line { tokens: Seq::empty(), ok: true }
    }

    pub open spec fn push(self, text: Seq<char>, kind: TokenKind, link: Option<Link>) -> Line {
        Line { tokens: self.tokens.push(TokenView { text, kind, link }), ok: self.ok }
    }

    /// A token whose text may not be made.
    pub open spec fn write(self, text: Text, kind: TokenKind, link: Option<Link>) -> Line {
        Line {
            tokens: self.tokens.push(TokenView { text: text.chars, kind, link }),
            ok: self.ok && text.ok,
        }
    }

    /// Both runs, one after the other.
    pub open spec fn cat(self, other: Line) -> Line {
        Line { tokens: self.tokens + other.tokens, ok: self.ok && other.ok }
    }

    /// What can be made where `ok` holds.
    pub open spec fn given(self, ok: bool) -> Line {
        Line { tokens: self.tokens, ok: self.ok && ok }
    }

    pub open spec fn kw(self, text: Seq<char>) -> Line {
        self.push(text, TokenKind::Keyword, None)
    }

    pub open spec fn op(self, text: Seq<char>) -> Line {
        self.push(text, TokenKind::Operator, None)
    }

    pub open spec fn punct(self, text: Seq<char>) -> Line {
        self.push(text, TokenKind::Punctuation, None)
    }

    /// The name of a type, and a space.
    pub open spec fn ty(self, c: Context, id: TypeId) -> Line {
        self.write(c.type_label(id).cat(Text::of(" "@)), TokenKind::Type, None)
    }

    /// `i` and a width in bits, and a space.
    pub open spec fn width(self, size: usize) -> Line {
        self.write(
            Text::given(size * 8 <= u64::MAX, "i"@ + dec((size * 8) as nat) + " "@),
            TokenKind::Type,
            None,
        )
    }

    /// The name of a space.
    pub open spec fn space(self, c: Context, space: LocalMemorySpaceId) -> Line {
        self.write(c.space_label(space), TokenKind::Space, None)
    }

    /// The name of a callee.
    pub open spec fn callee(self, c: Context, callee: Callee) -> Line {
        self.write(c.callee_label(callee), TokenKind::Function, Context::callee_link(callee))
    }
}

/// The tokens of a value: its type and its name, constants as they are
/// written, functions and blocks by their names alone.
pub open spec fn value_line(c: Context, o: Option<FunctionId>, id: ValueId, depth: nat) -> Line
    decreases depth, 0int, 0int,
{
    let link = Some(Link::Value(id));
    let line = Line::empty().given(c.has_value(id));
    match id {
        ValueId::Instruction(i) => line.ty(c, c.body_of(i.func).insn_rec(i.local).type_id).push(
            c.insn_label(i),
            TokenKind::Variable,
            link,
        ),
        ValueId::BlockParam(p) => line.ty(c, c.body_of(p.func).param_rec(p.local).type_id).push(
            c.param_label(p),
            TokenKind::BlockParam,
            link,
        ),
        ValueId::Literal(l) => line.ty(c, c.shared.literals@[l.0 as int].type_id).write(
            c.literal_label(o, l),
            TokenKind::Literal,
            link,
        ),
        ValueId::Bytes(b) => line.ty(c, c.shared.bytes.at(b).type_id).push(
            crate::constants::bytes_text(c.shared.bytes.at(b).data@),
            TokenKind::Bytes,
            link,
        ),
        ValueId::Varnode(v) => line.width(c.shared.varnodes.at(v).size).push(
            c.shared.varnodes.at(v).name@,
            TokenKind::Varnode,
            link,
        ),
        ValueId::Poison(p) => line.ty(c, c.shared.poisons.at(p).type_id).push(
            "poison"@,
            TokenKind::Literal,
            link,
        ),
        ValueId::Temp(t) => line.width(c.body_of(t.func).temps@[t.local.0 as int].size).push(
            c.temp_label(t),
            TokenKind::Varnode,
            link,
        ),
        ValueId::Function(f) => line.push(
            "<"@ + c.interface_of(f).name@ + ">"@,
            TokenKind::Function,
            Some(Link::Function(f)),
        ),
        ValueId::BasicBlock(b) => if foreign(o, b.func) {
            Line::empty().push(
                Context::foreign_block_label(b),
                TokenKind::Label,
                Some(Link::Block(b)),
            )
        } else if depth == 0 {
            line.given(false)
        } else {
            line.write(
                block_text(c, o, b, (depth - 1) as nat),
                TokenKind::Label,
                Some(Link::Block(b)),
            )
        },
    }
}

/// A value without its type, where it is an instruction's.
pub open spec fn bare_line(c: Context, o: Option<FunctionId>, id: ValueId, depth: nat) -> Line
    decreases depth, 1int, 0int,
{
    match id {
        ValueId::Instruction(i) => Line::empty().given(c.has_insn(i)).push(
            c.insn_label(i),
            TokenKind::Variable,
            Some(Link::Value(id)),
        ),
        _ => value_line(c, o, id, depth),
    }
}

/// The first `n` of `args`, each after `before`, all but the first after
/// `between`.
pub open spec fn args_line(
    c: Context,
    o: Option<FunctionId>,
    func: FunctionId,
    args: Seq<LocalValueId>,
    n: nat,
    depth: nat,
) -> Line
    decreases depth, 1int, n,
{
    if n == 0 {
        Line::empty()
    } else {
        let line = args_line(c, o, func, args, (n - 1) as nat, depth);
        let line = if n > 1 {
            line.punct(", "@)
        } else {
            line
        };
        line.cat(value_line(c, o, args[n - 1].spec_qualify(func), depth))
    }
}

/// The first `n` captured values, each after a space.
pub open spec fn captures_line(
    c: Context,
    o: Option<FunctionId>,
    func: FunctionId,
    args: Seq<LocalValueId>,
    n: nat,
    depth: nat,
) -> Line
    decreases depth, 1int, n,
{
    if n == 0 {
        Line::empty()
    } else {
        captures_line(c, o, func, args, (n - 1) as nat, depth).punct(" "@).cat(
            value_line(c, o, args[n - 1].spec_qualify(func), depth),
        )
    }
}

/// The first `n` arguments of a direct call, each after its name.
pub open spec fn call_args_line(
    c: Context,
    o: Option<FunctionId>,
    func: FunctionId,
    callee: Callee,
    args: Seq<LocalValueId>,
    n: nat,
    depth: nat,
) -> Line
    decreases depth, 1int, n,
{
    if n == 0 {
        Line::empty()
    } else {
        let line = call_args_line(c, o, func, callee, args, (n - 1) as nat, depth);
        let line = if n > 1 {
            line.punct(", "@)
        } else {
            line
        };
        line.write(c.call_arg_label(o, callee, n - 1), TokenKind::BlockParam, None).cat(
            value_line(c, o, args[n - 1].spec_qualify(func), depth),
        )
    }
}

/// The name of field `i` of an aggregate of the type `ty`, or its default
/// name.
pub open spec fn field_label(c: Context, ty: Option<TypeId>, i: nat) -> Seq<char> {
    match ty {
        Some(ty) => match c.shared.types@[ty.0 as int].fields() {
            Some(fields) if i < fields.len() => fields[i as int].name,
            _ => "field"@ + dec(i + 1),
        },
        None => "field"@ + dec(i + 1),
    }
}

/// The first `n` fields of an aggregate, each after its name.
pub open spec fn fields_line(
    c: Context,
    o: Option<FunctionId>,
    func: FunctionId,
    ty: Option<TypeId>,
    fields: Seq<LocalValueId>,
    n: nat,
    depth: nat,
) -> Line
    decreases depth, 1int, n,
{
    if n == 0 {
        Line::empty()
    } else {
        let line = fields_line(c, o, func, ty, fields, (n - 1) as nat, depth);
        let line = if n > 1 {
            line.punct(", "@)
        } else {
            line
        };
        line.push(field_label(c, ty, (n - 1) as nat), TokenKind::Field, None).op("="@).cat(
            value_line(c, o, fields[n - 1].spec_qualify(func), depth),
        )
    }
}

/// How a parameter of a block is written, before an argument for it: its
/// name, after its type where that is a struct or points to one.
pub open spec fn param_text(c: Context, id: BlockParamId) -> Text {
    let ty = c.body_of(id.func).param_rec(id.local).type_id;
    let label = c.type_label(ty);
    Text::given(
        c.has_param(id) && label.ok,
        if rich(c, ty) {
            label.chars + " "@ + c.param_label(id)
        } else {
            c.param_label(id)
        },
    )
}

/// Whether a type is a struct or points to a type.
pub open spec fn rich(c: Context, ty: TypeId) -> bool {
    c.shared.types@[ty.0 as int] is StructPointer || c.shared.types@[ty.0 as int] is Struct
}

/// The name before argument `i` of a branch to `target`: that of the
/// parameter it is for, or its place where there is none.
pub open spec fn branch_arg_label(c: Context, target: BlockId, i: nat) -> Text {
    let params = c.body_of(target.func).block_rec(target.local).params@;
    if i < params.len() {
        param_text(c, BlockParamId { func: target.func, local: params[i as int] })
    } else {
        Text::of("@arg"@ + dec(i))
    }
}

/// The first `n` arguments of a branch, each after a space and its name.
pub open spec fn branch_args_line(
    c: Context,
    o: Option<FunctionId>,
    target: BlockId,
    args: Seq<LocalValueId>,
    n: nat,
    depth: nat,
) -> Line
    decreases depth, 1int, n,
{
    if n == 0 {
        Line::empty()
    } else {
        branch_args_line(c, o, target, args, (n - 1) as nat, depth).punct(" "@).write(
            branch_arg_label(c, target, (n - 1) as nat),
            TokenKind::BlockParam,
            None,
        ).op("="@).cat(value_line(c, o, args[n - 1].spec_qualify(target.func), depth))
    }
}

/// The target of a branch: its label and the arguments for it.
pub open spec fn branch_line(
    c: Context,
    o: Option<FunctionId>,
    func: FunctionId,
    target: LocalBlockId,
    args: Seq<LocalValueId>,
    depth: nat,
) -> Line
    decreases depth, 2int, 0int,
{
    let target = BlockId { func, local: target };
    Line::empty().given(c.has_block(target)).push(
        "<"@ + c.block_label(target),
        TokenKind::Label,
        Some(Link::Block(target)),
    ).cat(branch_args_line(c, o, target, args, args.len(), depth)).push(
        ">"@,
        TokenKind::Label,
        None,
    )
}

/// The first `n` arms of a dispatch.
pub open spec fn arms_line(
    c: Context,
    o: Option<FunctionId>,
    func: FunctionId,
    arms: Seq<SwitchArm>,
    n: nat,
    depth: nat,
) -> Line
    decreases depth, 3int, n,
{
    if n == 0 {
        Line::empty()
    } else {
        let line = arms_line(c, o, func, arms, (n - 1) as nat, depth);
        let line = if n > 1 {
            line.punct(", "@)
        } else {
            line
        };
        let arm = arms[n - 1];
        line.push("0x"@ + hex(arm.value as nat), TokenKind::Literal, None).op(" => "@).cat(
            branch_line(c, o, func, arm.target, arm.args@, depth),
        )
    }
}

/// A conversion to a type of `size` bytes.
pub open spec fn cast_line(
    c: Context,
    o: Option<FunctionId>,
    func: FunctionId,
    word: Seq<char>,
    prefix: Seq<char>,
    size: usize,
    src: LocalValueId,
    depth: nat,
) -> Line
    decreases depth, 1int, 0int,
{
    Line::empty().kw(word).punct("("@).write(
        Text::given(size * 8 <= u64::MAX, prefix + dec((size * 8) as nat)),
        TokenKind::Type,
        None,
    ).punct(", "@).cat(value_line(c, o, src.spec_qualify(func), depth)).punct(");"@)
}

/// An operation of one operand, by name.
pub open spec fn unary_line(
    c: Context,
    o: Option<FunctionId>,
    func: FunctionId,
    word: Seq<char>,
    src: LocalValueId,
    depth: nat,
) -> Line
    decreases depth, 1int, 0int,
{
    Line::empty().kw(word).punct("("@).cat(
        value_line(c, o, src.spec_qualify(func), depth),
    ).punct(");"@)
}

/// An operation of two operands, by name.
pub open spec fn binary_line(
    c: Context,
    o: Option<FunctionId>,
    func: FunctionId,
    word: Seq<char>,
    lhs: LocalValueId,
    rhs: LocalValueId,
    depth: nat,
) -> Line
    decreases depth, 1int, 0int,
{
    Line::empty().kw(word).punct("("@).cat(
        value_line(c, o, lhs.spec_qualify(func), depth),
    ).punct(", "@).cat(
        value_line(c, o, rhs.spec_qualify(func), depth),
    ).punct(");"@)
}

/// An operation in `func`. `ty` is the type of its result where the names of
/// the fields are to be taken from it.
pub open spec fn mnemonic_line(
    c: Context,
    o: Option<FunctionId>,
    func: FunctionId,
    m: Mnemonic,
    ty: Option<TypeId>,
    depth: nat,
) -> Line
    decreases depth, 4int, 0int,
{
    let line = Line::empty();
    match m {
        Mnemonic::Load(l) => line.kw("load"@).punct("("@).space(c, l.space).punct(":"@).push(
            dec(l.size as nat),
            TokenKind::Type,
            None,
        ).punct(", "@).cat(value_line(c, o, l.ptr.spec_qualify(func), depth)).punct(");"@),
        Mnemonic::Store(s) => line.kw("store"@).punct("("@).space(c, s.space).punct(":"@).push(
            dec(s.size as nat),
            TokenKind::Type,
            None,
        ).punct(", "@).cat(
            value_line(c, o, s.ptr.spec_qualify(func), depth),
        ).op(" <- "@).cat(
            value_line(c, o, s.src.spec_qualify(func), depth),
        ).punct(");"@),
        Mnemonic::Branch(b) => line.kw("goto "@).cat(
            branch_line(c, o, func, b.target, b.args@, depth),
        ).punct(";"@),
        Mnemonic::BranchInd(b) => line.kw("goto "@).punct("["@).cat(
            value_line(c, o, b.ptr.spec_qualify(func), depth),
        ).punct("];"@),
        Mnemonic::CBranch(b) => line.kw("if "@).cat(
            value_line(c, o, b.condition.spec_qualify(func), depth),
        ).kw(
            " goto "@,
        ).cat(branch_line(c, o, func, b.success_block, b.success_args@, depth)).kw(
            " else goto "@,
        ).cat(branch_line(c, o, func, b.failure_block, b.failure_args@, depth)).punct(";"@),
        Mnemonic::Switch(s) => {
            let head = line.kw("switch "@).cat(
                value_line(c, o, s.scrutinee.spec_qualify(func), depth),
            ).punct(
                " { "@,
            ).cat(arms_line(c, o, func, s.cases@, s.cases@.len(), depth));
            let body = match s.default {
                Some(target) => {
                    let gap = if s.cases@.len() > 0 {
                        head.punct(", "@)
                    } else {
                        head
                    };
                    gap.kw("default"@).op(" => "@).cat(
                        branch_line(c, o, func, target, s.default_args@, depth),
                    )
                },
                None => head,
            };
            body.punct(" };"@)
        },
        Mnemonic::Apply(a) => line.kw("apply "@).callee(c, a.target).punct("("@).cat(
            args_line(c, o, func, a.args@, a.args@.len(), depth),
        ).punct(");"@),
        Mnemonic::Call(a) => line.kw("call fn "@).callee(c, a.target).punct("("@).cat(
            call_args_line(c, o, func, a.target, a.args@, a.args@.len(), depth),
        ).punct(");"@),
        Mnemonic::TailCall(a) => line.kw("tailcall fn "@).callee(c, a.target).punct("("@).cat(
            args_line(c, o, func, a.args@, a.args@.len(), depth),
        ).punct(");"@),
        Mnemonic::CallInd(a) => {
            let head = line.kw("call "@).punct("["@).cat(
                value_line(c, o, a.ptr.spec_qualify(func), depth),
            ).punct("]"@);
            let body = if a.args@.len() > 0 {
                head.punct("("@).cat(args_line(c, o, func, a.args@, a.args@.len(), depth)).punct(
                    ")"@,
                )
            } else {
                head
            };
            body.punct(";"@)
        },
        Mnemonic::BadInsn(_) => line.kw("badinsn"@).punct(";"@),
        Mnemonic::Return(r) => match r.value {
            Some(value) => line.kw("return "@).cat(
                value_line(c, o, value.spec_qualify(func), depth),
            ).kw(
                " at "@,
            ).cat(value_line(c, o, r.ptr.spec_qualify(func), depth)).punct(";"@),
            None => line.kw("return at "@).cat(
                value_line(c, o, r.ptr.spec_qualify(func), depth),
            ).punct(";"@),
        },
        Mnemonic::ReturnValue(r) => line.kw("return "@).cat(
            value_line(c, o, r.value.spec_qualify(func), depth),
        ).punct(";"@),
        Mnemonic::Unop(u) => if u.op is IntNegate || u.op is IntNot || u.op is FloatNegate {
            line.op(u.op.spelling() + " "@).cat(
                value_line(c, o, u.src.spec_qualify(func), depth),
            ).punct(";"@)
        } else {
            unary_line(c, o, func, u.op.spelling(), u.src, depth)
        },
        Mnemonic::Binop(b) => line.cat(value_line(c, o, b.lhs.spec_qualify(func), depth)).op(
            " "@ + b.op.spelling() + " "@,
        ).cat(value_line(c, o, b.rhs.spec_qualify(func), depth)).punct(";"@),
        Mnemonic::Zext(z) => cast_line(c, o, func, "zext"@, "i"@, z.size, z.src, depth),
        Mnemonic::Sext(s) => cast_line(c, o, func, "sext"@, "i"@, s.size, s.src, depth),
        Mnemonic::IntToFloat(x) => cast_line(
            c,
            o,
            func,
            "int2float"@,
            "f"@,
            x.size,
            x.src,
            depth,
        ),
        Mnemonic::FloatToFloat(x) => cast_line(
            c,
            o,
            func,
            "float2float"@,
            "f"@,
            x.size,
            x.src,
            depth,
        ),
        Mnemonic::FloatToInt(x) => cast_line(c, o, func, "trunc"@, "i"@, x.size, x.src, depth),
        Mnemonic::Range(r) => line.cat(
            value_line(c, o, r.src.spec_qualify(func), depth),
        ).punct("["@).push(
            dec(r.start as nat),
            TokenKind::Literal,
            None,
        ).punct(":"@).write(
            Text::given(r.start + r.size <= usize::MAX, dec((r.start + r.size) as nat)),
            TokenKind::Literal,
            None,
        ).punct("];"@),
        Mnemonic::IsFloatNaN(x) => unary_line(c, o, func, "nan"@, x.src, depth),
        Mnemonic::LzCount(x) => unary_line(c, o, func, "lzcount"@, x.src, depth),
        Mnemonic::PopCount(x) => unary_line(c, o, func, "popcount"@, x.src, depth),
        Mnemonic::Carry(x) => binary_line(c, o, func, "carry"@, x.lhs, x.rhs, depth),
        Mnemonic::SCarry(x) => binary_line(c, o, func, "scarry"@, x.lhs, x.rhs, depth),
        Mnemonic::SBorrow(x) => binary_line(c, o, func, "sborrow"@, x.lhs, x.rhs, depth),
        Mnemonic::Assert(a) => line.kw("assert "@).cat(
            value_line(c, o, a.condition.spec_qualify(func), depth),
        ).punct(
            ";"@,
        ),
        Mnemonic::Tuple(t) => line.given(ty matches Some(ty) ==> c.shared.types.has(ty)).kw(
            "pack"@,
        ).punct("("@).cat(
            fields_line(c, o, func, ty, t.fields@, t.fields@.len(), depth),
        ).punct(");"@),
        Mnemonic::Extract(e) => line.kw("extract"@).punct("("@).cat(
            bare_line(c, o, e.agg.spec_qualify(func), depth),
        ).write(
            Text::given(
                c.type_readable(e.agg.spec_qualify(func)) && e.index < usize::MAX,
                "."@ + match c.extract_field(e.agg.spec_qualify(func), e.index as int) {
                    Some(name) => name,
                    None => "field"@ + dec((e.index + 1) as nat),
                },
            ),
            TokenKind::Field,
            None,
        ).punct(");"@),
        Mnemonic::Gep(g) => {
            let head = line.kw("gep"@).punct("("@).cat(
                bare_line(c, o, g.base.spec_qualify(func), depth),
            ).given(c.pointee_readable(g.base.spec_qualify(func)));
            let body = match c.gep_field(g.base.spec_qualify(func), g.offset) {
                Some(name) => head.push("."@ + name, TokenKind::Field, None),
                None => head.op(" + "@).push(
                    "0x"@ + hex(g.offset as nat),
                    TokenKind::Literal,
                    None,
                ),
            };
            body.punct(");"@)
        },
        Mnemonic::ArrayMap(map) => if map.captures@.len() == 0 {
            line.callee(c, map.body).op(" <$> "@).cat(
                value_line(c, o, map.src.spec_qualify(func), depth),
            ).punct(";"@)
        } else {
            line.punct("("@).callee(c, map.body).cat(
                captures_line(c, o, func, map.captures@, map.captures@.len(), depth),
            ).op(") <$> "@).cat(value_line(c, o, map.src.spec_qualify(func), depth)).punct(";"@)
        },
        Mnemonic::Scan(scan) => {
            let label = c.callee_label(scan.body);
            let body = match scan.body {
                Callee::Real(_) => Text::of("@"@).cat(label),
                Callee::Minted(_) => label,
            };
            let link = Context::callee_link(scan.body);
            let head = if scan.captures@.len() == 0 {
                line.kw("scanl "@).write(body, TokenKind::Function, link).punct(" "@)
            } else {
                line.kw("scanl "@).punct("("@).write(body, TokenKind::Function, link).cat(
                    captures_line(c, o, func, scan.captures@, scan.captures@.len(), depth),
                ).punct(") "@)
            };
            head.cat(
                value_line(c, o, scan.init.spec_qualify(func), depth),
            ).punct(" "@).cat(
                value_line(c, o, scan.src.spec_qualify(func), depth),
            ).punct(";"@)
        },
        Mnemonic::PCodeOp(p) => {
            let head = match p.dst {
                Some(dst) => line.cat(value_line(c, o, dst.spec_qualify(func), depth)).op(" = "@),
                None => line,
            };
            head.given(p.id.0 < c.shared.pcode_ops@.len()).kw(
                c.shared.pcode_ops@[p.id.0 as int]@,
            ).punct("("@).cat(args_line(c, o, func, p.args@, p.args@.len(), depth)).punct(");"@)
        },
        Mnemonic::Intrinsic(x) => line.given(c.shared.intrinsics.has(x.id)).kw(
            "$"@ + c.shared.intrinsics@[x.id.0 as int].name@,
        ).punct("("@).cat(args_line(c, o, func, x.args@, x.args@.len(), depth)).punct(");"@),
    }
}

/// An instruction as a statement: its result, where it has one, and what it
/// does.
pub open spec fn insn_line(c: Context, o: Option<FunctionId>, id: InstructionId, depth: nat) -> Line
    decreases depth, 5int, 0int,
{
    let insn = c.body_of(id.func).insn_rec(id.local);
    let line = Line::empty().given(c.has_insn(id) && c.shared.types.has(insn.type_id));
    let head = if type_size(c.shared.types@, insn.type_id.0 as int) != 0 {
        line.ty(c, insn.type_id).push(
            c.insn_label(id),
            TokenKind::Variable,
            Some(Link::Value(ValueId::Instruction(id))),
        ).op(" = "@)
    } else {
        line
    };
    head.cat(mnemonic_line(c, o, id.func, insn.mnemonic, Some(insn.type_id), depth))
}

/// The text of a line.
pub open spec fn line_text(line: Line) -> Text {
    Text::given(line.ok, joined(line.tokens, line.tokens.len() as int))
}

/// The first `n` instructions of a block, each on a line of its own.
pub open spec fn statements_text(
    c: Context,
    o: Option<FunctionId>,
    func: FunctionId,
    insns: Seq<LocalInsnId>,
    n: nat,
    depth: nat,
) -> Text
    decreases depth, 6int, n,
{
    if n == 0 {
        Text::of(Seq::empty())
    } else {
        statements_text(c, o, func, insns, (n - 1) as nat, depth).cat(Text::of("\t"@)).cat(
            line_text(insn_line(c, o, InstructionId { func, local: insns[n - 1] }, depth)),
        ).cat(Text::of("\n"@))
    }
}

/// A parameter of a block where it is declared: with its type where it has a
/// name and a scalar type of some width.
pub open spec fn param_decl(c: Context, id: BlockParamId) -> Text {
    let ty = c.body_of(id.func).param_rec(id.local).type_id;
    if c.body_of(id.func).param_rec(id.local).name is Some && !rich(c, ty) && type_size(
        c.shared.types@,
        ty.0 as int,
    ) > 0 {
        Text::given(
            c.has_param(id) && c.type_label(ty).ok,
            c.param_label(id) + ":"@ + c.type_label(ty).chars,
        )
    } else {
        param_text(c, id)
    }
}

/// The first `n` parameters of a block where they are declared, each after a
/// space.
pub open spec fn params_text(c: Context, block: BlockId, n: nat) -> Text
    decreases n,
{
    if n == 0 {
        Text::of(Seq::empty())
    } else {
        let params = c.body_of(block.func).block_rec(block.local).params@;
        params_text(c, block, (n - 1) as nat).cat(Text::of(" "@)).cat(
            param_decl(c, BlockParamId { func: block.func, local: params[n - 1] }),
        )
    }
}

/// The place of the first line break, or the length of `s`.
pub open spec fn line_end(s: Seq<char>) -> int
    decreases s.len(),
{
    if s.len() == 0 || s[0] == '\n' {
        0
    } else {
        1 + line_end(s.skip(1))
    }
}

/// A line without the carriage return before its line break.
pub open spec fn without_return(s: Seq<char>) -> Seq<char> {
    if s.len() > 0 && s.last() == '\r' {
        s.drop_last()
    } else {
        s
    }
}

/// Each line of a comment, after a tab and two slashes.
pub open spec fn comment_text(s: Seq<char>) -> Seq<char>
    decreases s.len(),
    via comment_text_shrinks
{
    let k = line_end(s);
    if s.len() == 0 {
        Seq::empty()
    } else if k >= s.len() {
        "\t// "@ + s + "\n"@
    } else {
        "\t// "@ + without_return(s.take(k)) + "\n"@ + comment_text(s.skip(k + 1))
    }
}

#[via_fn]
proof fn comment_text_shrinks(s: Seq<char>) {
    lemma_line_end(s);
}

pub(crate) proof fn lemma_line_end(s: Seq<char>)
    ensures
        0 <= line_end(s) <= s.len(),
        line_end(s) < s.len() ==> s[line_end(s)] == '\n',
    decreases s.len(),
{
    if s.len() > 0 && s[0] != '\n' {
        lemma_line_end(s.skip(1));
    }
}

/// The names of the blocks that `block` leads to, in the order of its edges.
pub open spec fn successor_labels(c: Context, block: BlockId) -> Seq<Seq<char>> {
    let body = c.body_of(block.func);
    body.block_rec(block.local).edges@.filter(
        |e: EdgeId| body.edge_rec(e).from == block.local,
    ).map_values(
        |e: EdgeId| c.block_label(BlockId { func: block.func, local: body.edge_rec(e).to }),
    )
}

/// How many texts at the front of `s` are not after `text`.
pub open spec fn text_rank(s: Seq<Seq<char>>, text: Seq<char>) -> int
    decreases s.len(),
{
    if s.len() == 0 || text_less(text, s[0]) {
        0
    } else {
        1 + text_rank(s.skip(1), text)
    }
}

/// The first `n` texts, in dictionary order.
pub open spec fn texts_in_order(texts: Seq<Seq<char>>, n: int) -> Seq<Seq<char>>
    decreases n,
{
    if n <= 0 {
        Seq::empty()
    } else {
        let s = texts_in_order(texts, n - 1);
        s.insert(text_rank(s, texts[n - 1]), texts[n - 1])
    }
}

/// The first `n` labels, with commas between them.
pub open spec fn labels_text(labels: Seq<Seq<char>>, n: nat) -> Seq<char>
    decreases n,
{
    if n == 0 {
        Seq::empty()
    } else {
        let gap = if n > 1 {
            ","@
        } else {
            ""@
        };
        labels_text(labels, (n - 1) as nat) + gap + " <"@ + labels[n - 1] + ">"@
    }
}

/// Where control goes after a call or a computed branch, whose syntax does not
/// say: the labels of the blocks, in dictionary order.
pub open spec fn successors_text(c: Context, block: BlockId) -> Seq<char> {
    let body = c.body_of(block.func);
    let insns = body.order(block.local);
    let labels = successor_labels(c, block);
    if insns.len() > 0 && silent(body.insn_rec(insns.last()).mnemonic) && labels.len() > 0 {
        let sorted = texts_in_order(labels, labels.len() as int);
        "\t// ->"@ + labels_text(sorted, sorted.len()) + "\n"@
    } else {
        Seq::empty()
    }
}

/// Whether the syntax of a terminator does not say where control goes.
pub open spec fn silent(m: Mnemonic) -> bool {
    m is Call || m is CallInd || m is BranchInd
}

/// A block: its label and parameters, its comment, its instructions and where
/// control goes.
pub open spec fn block_text(c: Context, o: Option<FunctionId>, id: BlockId, depth: nat) -> Text
    decreases depth, 7int, 0int,
{
    let block = c.body_of(id.func).block_rec(id.local);
    let insns = c.body_of(id.func).order(id.local);
    Text::given(c.has_block(id), "<"@ + c.block_label(id)).cat(
        params_text(c, id, block.params@.len()),
    ).cat(Text::of(">\n"@)).cat(
        Text::of(
            match block.comment {
                Some(comment) => comment_text(comment@),
                None => Seq::empty(),
            },
        ),
    ).cat(statements_text(c, o, id.func, insns, insns.len(), depth)).cat(
        Text::of(successors_text(c, id)),
    )
}

} // verus!
