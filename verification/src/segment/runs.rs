//! The text of each statement, run by run.

use crate::context::Context;
use crate::ids::{FunctionId, TypeId};
use crate::insn::mnemonic::Mnemonic;
use crate::insn::terminator::Callee;
use crate::segment::atoms::Text;
use crate::segment::line::{
    args_line, arms_line, bare_line, branch_line, call_args_line, captures_line, fields_line,
    mnemonic_line, value_line, Line,
};
use crate::segment::{Link, TokenKind, TokenView};
use crate::text::{dec, hex};
use crate::value::LocalValueId;
use vstd::prelude::*;

verus! {

/// The texts of tokens.
pub open spec fn texts(tokens: Seq<TokenView>) -> Seq<Seq<char>> {
    tokens.map_values(|t: TokenView| t.text)
}

broadcast proof fn lemma_texts_push(s: Seq<TokenView>, t: TokenView)
    ensures
        #[trigger] texts(s.push(t)) == texts(s).push(t.text),
{
    assert(texts(s.push(t)) =~= texts(s).push(t.text));
}

broadcast proof fn lemma_texts_cat(a: Seq<TokenView>, b: Seq<TokenView>)
    ensures
        #[trigger] texts(a + b) == texts(a) + texts(b),
{
    assert(texts(a + b) =~= texts(a) + texts(b));
}

broadcast proof fn lemma_texts_none()
    ensures
        #[trigger] texts(Seq::empty()) == Seq::<Seq<char>>::empty(),
{
    assert(texts(Seq::empty()) =~= Seq::<Seq<char>>::empty());
}

broadcast proof fn lemma_push_after(a: Seq<Seq<char>>, b: Seq<Seq<char>>, t: Seq<char>)
    ensures
        #[trigger] (a + b.push(t)) == (a + b).push(t),
{
    assert(a + b.push(t) =~= (a + b).push(t));
}

broadcast proof fn lemma_nothing_after(a: Seq<Seq<char>>)
    ensures
        #[trigger] (a + Seq::<Seq<char>>::empty()) == a,
{
    assert(a + Seq::<Seq<char>>::empty() =~= a);
}

broadcast proof fn lemma_nothing_before(a: Seq<Seq<char>>)
    ensures
        #[trigger] (Seq::<Seq<char>>::empty() + a) == a,
{
    assert(Seq::<Seq<char>>::empty() + a =~= a);
}

broadcast group group_texts {
    lemma_texts_push,
    lemma_texts_cat,
    lemma_texts_none,
    lemma_push_after,
    lemma_nothing_after,
    lemma_nothing_before,
}

/// The texts of a value.
pub open spec fn value_texts(
    c: Context,
    o: Option<FunctionId>,
    func: FunctionId,
    v: LocalValueId,
    d: nat,
) -> Seq<Seq<char>> {
    texts(value_line(c, o, v.spec_qualify(func), d).tokens)
}

/// The texts of a list of values.
pub open spec fn list_texts(
    c: Context,
    o: Option<FunctionId>,
    func: FunctionId,
    args: Seq<LocalValueId>,
    d: nat,
) -> Seq<Seq<char>> {
    texts(args_line(c, o, func, args, args.len(), d).tokens)
}

/// The texts of a statement: its words and signs, with the texts of what it
/// names between them.
pub open spec fn written(
    c: Context,
    o: Option<FunctionId>,
    func: FunctionId,
    m: Mnemonic,
    ty: Option<TypeId>,
    d: nat,
) -> Seq<Seq<char>> {
    let value = |v: LocalValueId| value_texts(c, o, func, v, d);
    match m {
        Mnemonic::Load(x) => seq![
            "load"@,
            "("@,
            c.space_label(x.space).chars,
            ":"@,
            dec(x.size as nat),
            ", "@,
        ] + value(x.ptr) + seq![");"@],
        Mnemonic::Store(x) => seq![
            "store"@,
            "("@,
            c.space_label(x.space).chars,
            ":"@,
            dec(x.size as nat),
            ", "@,
        ] + value(x.ptr) + seq![" <- "@] + value(x.src) + seq![");"@],
        Mnemonic::Branch(x) => seq!["goto "@] + texts(
            branch_line(c, o, func, x.target, x.args@, d).tokens,
        ) + seq![";"@],
        Mnemonic::BranchInd(x) => seq!["goto "@, "["@] + value(x.ptr) + seq!["];"@],
        Mnemonic::CBranch(x) => seq!["if "@] + value(x.condition) + seq![" goto "@] + texts(
            branch_line(c, o, func, x.success_block, x.success_args@, d).tokens,
        ) + seq![" else goto "@] + texts(
            branch_line(c, o, func, x.failure_block, x.failure_args@, d).tokens,
        ) + seq![";"@],
        Mnemonic::Switch(x) => {
            let head = seq!["switch "@] + value(x.scrutinee) + seq![" { "@] + texts(
                arms_line(c, o, func, x.cases@, x.cases@.len(), d).tokens,
            );
            let gap = if x.cases@.len() > 0 {
                seq![", "@]
            } else {
                Seq::empty()
            };
            match x.default {
                Some(target) => head + gap + seq!["default"@, " => "@] + texts(
                    branch_line(c, o, func, target, x.default_args@, d).tokens,
                ) + seq![" };"@],
                None => head + seq![" };"@],
            }
        },
        Mnemonic::Apply(x) => seq!["apply "@, c.callee_label(x.target).chars, "("@] + list_texts(
            c,
            o,
            func,
            x.args@,
            d,
        ) + seq![");"@],
        Mnemonic::Call(x) => seq!["call fn "@, c.callee_label(x.target).chars, "("@] + texts(
            call_args_line(c, o, func, x.target, x.args@, x.args@.len(), d).tokens,
        ) + seq![");"@],
        Mnemonic::TailCall(x) => seq!["tailcall fn "@, c.callee_label(x.target).chars, "("@]
            + list_texts(c, o, func, x.args@, d) + seq![");"@],
        Mnemonic::CallInd(x) => if x.args@.len() > 0 {
            seq!["call "@, "["@] + value(x.ptr) + seq!["]"@, "("@] + list_texts(
                c,
                o,
                func,
                x.args@,
                d,
            ) + seq![")"@, ";"@]
        } else {
            seq!["call "@, "["@] + value(x.ptr) + seq!["]"@, ";"@]
        },
        Mnemonic::BadInsn(_) => seq!["badinsn"@, ";"@],
        Mnemonic::Return(x) => match x.value {
            Some(v) => seq!["return "@] + value(v) + seq![" at "@] + value(x.ptr) + seq![";"@],
            None => seq!["return at "@] + value(x.ptr) + seq![";"@],
        },
        Mnemonic::ReturnValue(x) => seq!["return "@] + value(x.value) + seq![";"@],
        Mnemonic::Unop(x) => if x.op is IntNegate || x.op is IntNot || x.op is FloatNegate {
            seq![x.op.spelling() + " "@] + value(x.src) + seq![";"@]
        } else {
            seq![x.op.spelling(), "("@] + value(x.src) + seq![");"@]
        },
        Mnemonic::Binop(x) => value(x.lhs) + seq![" "@ + x.op.spelling() + " "@] + value(x.rhs)
            + seq![";"@],
        Mnemonic::Zext(x) => seq!["zext"@, "("@, "i"@ + dec((x.size * 8) as nat), ", "@] + value(
            x.src,
        ) + seq![");"@],
        Mnemonic::Sext(x) => seq!["sext"@, "("@, "i"@ + dec((x.size * 8) as nat), ", "@] + value(
            x.src,
        ) + seq![");"@],
        Mnemonic::IntToFloat(x) => seq![
            "int2float"@,
            "("@,
            "f"@ + dec((x.size * 8) as nat),
            ", "@,
        ] + value(x.src) + seq![");"@],
        Mnemonic::FloatToFloat(x) => seq![
            "float2float"@,
            "("@,
            "f"@ + dec((x.size * 8) as nat),
            ", "@,
        ] + value(x.src) + seq![");"@],
        Mnemonic::FloatToInt(x) => seq!["trunc"@, "("@, "i"@ + dec((x.size * 8) as nat), ", "@]
            + value(x.src) + seq![");"@],
        Mnemonic::Range(x) => value(x.src) + seq![
            "["@,
            dec(x.start as nat),
            ":"@,
            dec((x.start + x.size) as nat),
            "];"@,
        ],
        Mnemonic::IsFloatNaN(x) => seq!["nan"@, "("@] + value(x.src) + seq![");"@],
        Mnemonic::LzCount(x) => seq!["lzcount"@, "("@] + value(x.src) + seq![");"@],
        Mnemonic::PopCount(x) => seq!["popcount"@, "("@] + value(x.src) + seq![");"@],
        Mnemonic::Carry(x) => seq!["carry"@, "("@] + value(x.lhs) + seq![", "@] + value(x.rhs)
            + seq![");"@],
        Mnemonic::SCarry(x) => seq!["scarry"@, "("@] + value(x.lhs) + seq![", "@] + value(x.rhs)
            + seq![");"@],
        Mnemonic::SBorrow(x) => seq!["sborrow"@, "("@] + value(x.lhs) + seq![", "@] + value(x.rhs)
            + seq![");"@],
        Mnemonic::Assert(x) => seq!["assert "@] + value(x.condition) + seq![";"@],
        Mnemonic::Tuple(x) => seq!["pack"@, "("@] + texts(
            fields_line(c, o, func, ty, x.fields@, x.fields@.len(), d).tokens,
        ) + seq![");"@],
        Mnemonic::Extract(x) => seq!["extract"@, "("@] + texts(
            bare_line(c, o, x.agg.spec_qualify(func), d).tokens,
        ) + seq![
            "."@ + (match c.extract_field(x.agg.spec_qualify(func), x.index as int) {
                Some(name) => name,
                None => "field"@ + dec((x.index + 1) as nat),
            }),
            ");"@,
        ],
        Mnemonic::Gep(x) => {
            let base = seq!["gep"@, "("@] + texts(
                bare_line(c, o, x.base.spec_qualify(func), d).tokens,
            );
            match c.gep_field(x.base.spec_qualify(func), x.offset) {
                Some(name) => base + seq!["."@ + name, ");"@],
                None => base + seq![" + "@, "0x"@ + hex(x.offset as nat), ");"@],
            }
        },
        Mnemonic::ArrayMap(x) => if x.captures@.len() == 0 {
            seq![c.callee_label(x.body).chars, " <$> "@] + value(x.src) + seq![";"@]
        } else {
            seq!["("@, c.callee_label(x.body).chars] + texts(
                captures_line(c, o, func, x.captures@, x.captures@.len(), d).tokens,
            ) + seq![") <$> "@] + value(x.src) + seq![";"@]
        },
        Mnemonic::Scan(x) => {
            let body = match x.body {
                Callee::Real(_) => "@"@ + c.callee_label(x.body).chars,
                Callee::Minted(_) => c.callee_label(x.body).chars,
            };
            let head = if x.captures@.len() == 0 {
                seq!["scanl "@, body, " "@]
            } else {
                seq!["scanl "@, "("@, body] + texts(
                    captures_line(c, o, func, x.captures@, x.captures@.len(), d).tokens,
                ) + seq![") "@]
            };
            head + value(x.init) + seq![" "@] + value(x.src) + seq![";"@]
        },
        Mnemonic::PCodeOp(x) => (match x.dst {
            Some(dst) => value(dst) + seq![" = "@],
            None => Seq::empty(),
        }) + seq![c.shared.pcode_ops@[x.id.0 as int]@, "("@] + list_texts(c, o, func, x.args@, d)
            + seq![");"@],
        Mnemonic::Intrinsic(x) => seq![
            "$"@ + c.shared.intrinsics@[x.id.0 as int].name@,
            "("@,
        ] + list_texts(c, o, func, x.args@, d) + seq![");"@],
    }
}

proof fn lemma_texts_switch(scrutinee: Line, arms: Line, default: Line)
    ensures
        ({
            let head = Line::empty().kw("switch "@).cat(scrutinee).punct(" { "@).cat(arms);
            let words = seq!["switch "@] + texts(scrutinee.tokens) + seq![" { "@] + texts(
                arms.tokens,
            );
            &&& texts(head.punct(" };"@).tokens) == words + seq![" };"@]
            &&& texts(head.kw("default"@).op(" => "@).cat(default).punct(" };"@).tokens) == words
                + Seq::<Seq<char>>::empty() + seq!["default"@, " => "@] + texts(default.tokens)
                + seq![" };"@]
            &&& texts(
                head.punct(", "@).kw("default"@).op(" => "@).cat(default).punct(" };"@).tokens,
            ) == words + seq![", "@] + seq!["default"@, " => "@] + texts(default.tokens)
                + seq![" };"@]
        }),
{
    broadcast use group_texts;

}

proof fn lemma_texts_call(c: Context, word: Seq<char>, target: Callee, args: Line)
    ensures
        texts(Line::empty().kw(word).callee(c, target).punct("("@).cat(args).punct(");"@).tokens)
            == seq![word, c.callee_label(target).chars, "("@] + texts(args.tokens) + seq![");"@],
{
    broadcast use group_texts;

}

proof fn lemma_texts_call_ind(ptr: Line, args: Line)
    ensures
        ({
            let head = Line::empty().kw("call "@).punct("["@).cat(ptr).punct("]"@);
            &&& texts(head.punct(";"@).tokens) == seq!["call "@, "["@] + texts(ptr.tokens)
                + seq!["]"@, ";"@]
            &&& texts(head.punct("("@).cat(args).punct(")"@).punct(";"@).tokens) == seq![
                "call "@,
                "["@,
            ] + texts(ptr.tokens) + seq!["]"@, "("@] + texts(args.tokens) + seq![")"@, ";"@]
        }),
{
    broadcast use group_texts;

}

proof fn lemma_texts_map(c: Context, body: Callee, captures: Line, src: Line)
    ensures
        texts(Line::empty().callee(c, body).op(" <$> "@).cat(src).punct(";"@).tokens) == seq![
            c.callee_label(body).chars,
            " <$> "@,
        ] + texts(src.tokens) + seq![";"@],
        texts(
            Line::empty().punct("("@).callee(c, body).cat(captures).op(") <$> "@).cat(src).punct(
                ";"@,
            ).tokens,
        ) == seq!["("@, c.callee_label(body).chars] + texts(captures.tokens) + seq![") <$> "@]
            + texts(src.tokens) + seq![";"@],
{
    broadcast use group_texts;

}

proof fn lemma_texts_scan(
    body: Text,
    link: Option<Link>,
    captures: Line,
    init: Line,
    src: Line,
)
    ensures
        texts(
            Line::empty().kw("scanl "@).write(body, TokenKind::Function, link).punct(" "@).cat(
                init,
            ).punct(" "@).cat(src).punct(";"@).tokens,
        ) == seq!["scanl "@, body.chars, " "@] + texts(init.tokens) + seq![" "@] + texts(src.tokens)
            + seq![";"@],
        texts(
            Line::empty().kw("scanl "@).punct("("@).write(body, TokenKind::Function, link).cat(
                captures,
            ).punct(") "@).cat(init).punct(" "@).cat(src).punct(";"@).tokens,
        ) == seq!["scanl "@, "("@, body.chars] + texts(captures.tokens) + seq![") "@] + texts(
            init.tokens,
        ) + seq![" "@] + texts(src.tokens) + seq![";"@],
{
    broadcast use group_texts;

}

proof fn lemma_texts_access(space: Text, size: Seq<char>, ptr: Line, src: Line)
    ensures
        texts(
            Line::empty().kw("load"@).punct("("@).write(space, TokenKind::Space, None).punct(
                ":"@,
            ).push(size, TokenKind::Type, None).punct(", "@).cat(ptr).punct(");"@).tokens,
        ) == seq!["load"@, "("@, space.chars, ":"@, size, ", "@] + texts(ptr.tokens) + seq![");"@],
        texts(
            Line::empty().kw("store"@).punct("("@).write(space, TokenKind::Space, None).punct(
                ":"@,
            ).push(size, TokenKind::Type, None).punct(", "@).cat(ptr).op(" <- "@).cat(src).punct(
                ");"@,
            ).tokens,
        ) == seq!["store"@, "("@, space.chars, ":"@, size, ", "@] + texts(ptr.tokens)
            + seq![" <- "@] + texts(src.tokens) + seq![");"@],
{
    broadcast use group_texts;

}

proof fn lemma_texts_branch(a: Line, b: Line, d: Line)
    ensures
        texts(Line::empty().kw("goto "@).cat(a).punct(";"@).tokens) == seq!["goto "@] + texts(
            a.tokens,
        ) + seq![";"@],
        texts(Line::empty().kw("goto "@).punct("["@).cat(a).punct("];"@).tokens) == seq![
            "goto "@,
            "["@,
        ] + texts(a.tokens) + seq!["];"@],
        texts(
            Line::empty().kw("if "@).cat(a).kw(" goto "@).cat(b).kw(" else goto "@).cat(d).punct(
                ";"@,
            ).tokens,
        ) == seq!["if "@] + texts(a.tokens) + seq![" goto "@] + texts(b.tokens)
            + seq![" else goto "@] + texts(d.tokens) + seq![";"@],
{
    broadcast use group_texts;

}

proof fn lemma_texts_end(value: Line, ptr: Line)
    ensures
        texts(Line::empty().kw("badinsn"@).punct(";"@).tokens) == seq!["badinsn"@, ";"@],
        texts(Line::empty().kw("assert "@).cat(value).punct(";"@).tokens) == seq!["assert "@]
            + texts(value.tokens) + seq![";"@],
        texts(Line::empty().kw("return "@).cat(value).punct(";"@).tokens) == seq!["return "@]
            + texts(value.tokens) + seq![";"@],
        texts(Line::empty().kw("return at "@).cat(ptr).punct(";"@).tokens) == seq!["return at "@]
            + texts(ptr.tokens) + seq![";"@],
        texts(
            Line::empty().kw("return "@).cat(value).kw(" at "@).cat(ptr).punct(";"@).tokens,
        ) == seq!["return "@] + texts(value.tokens) + seq![" at "@] + texts(ptr.tokens)
            + seq![";"@],
{
    broadcast use group_texts;

}

proof fn lemma_texts_binop(sign: Seq<char>, lhs: Line, rhs: Line)
    ensures
        texts(Line::empty().cat(lhs).op(sign).cat(rhs).punct(";"@).tokens) == texts(lhs.tokens)
            + seq![sign] + texts(rhs.tokens) + seq![";"@],
{
    broadcast use group_texts;

}

proof fn lemma_texts_range(src: Line, start: Seq<char>, end: Text)
    ensures
        texts(
            Line::empty().cat(src).punct("["@).push(start, TokenKind::Literal, None).punct(
                ":"@,
            ).write(end, TokenKind::Literal, None).punct("];"@).tokens,
        ) == texts(src.tokens) + seq!["["@, start, ":"@, end.chars, "];"@],
{
    broadcast use group_texts;

}

proof fn lemma_texts_named(ok: bool, name: Seq<char>, dst: Line, args: Line)
    ensures
        texts(Line::empty().given(ok).kw(name).punct("("@).cat(args).punct(");"@).tokens) == seq![
            name,
            "("@,
        ] + texts(args.tokens) + seq![");"@],
        texts(
            Line::empty().cat(dst).op(" = "@).given(ok).kw(name).punct("("@).cat(args).punct(
                ");"@,
            ).tokens,
        ) == texts(dst.tokens) + seq![" = "@] + seq![name, "("@] + texts(args.tokens)
            + seq![");"@],
        Seq::<Seq<char>>::empty() + seq![name, "("@] == seq![name, "("@],
{
    broadcast use group_texts;

}

proof fn lemma_texts_unary(word: Seq<char>, src: Line)
    ensures
        texts(Line::empty().op(word).cat(src).punct(";"@).tokens) == seq![word] + texts(src.tokens)
            + seq![";"@],
        texts(Line::empty().kw(word).punct("("@).cat(src).punct(");"@).tokens) == seq![word, "("@]
            + texts(src.tokens) + seq![");"@],
{
    broadcast use group_texts;

}

proof fn lemma_texts_cast(word: Seq<char>, width: Text, src: Line)
    ensures
        texts(
            Line::empty().kw(word).punct("("@).write(width, TokenKind::Type, None).punct(", "@).cat(
                src,
            ).punct(");"@).tokens,
        ) == seq![word, "("@, width.chars, ", "@] + texts(src.tokens) + seq![");"@],
{
    broadcast use group_texts;

}

proof fn lemma_texts_flag(word: Seq<char>, lhs: Line, rhs: Line)
    ensures
        texts(
            Line::empty().kw(word).punct("("@).cat(lhs).punct(", "@).cat(rhs).punct(");"@).tokens,
        ) == seq![word, "("@] + texts(lhs.tokens) + seq![", "@] + texts(rhs.tokens)
            + seq![");"@],
{
    broadcast use group_texts;

}

proof fn lemma_written_memory(
    c: Context,
    o: Option<FunctionId>,
    func: FunctionId,
    m: Mnemonic,
    ty: Option<TypeId>,
    d: nat,
)
    requires
        m is Load || m is Store,
    ensures
        texts(mnemonic_line(c, o, func, m, ty, d).tokens) == written(c, o, func, m, ty, d),
{
    match m {
        Mnemonic::Load(x) => lemma_texts_access(
            c.space_label(x.space),
            dec(x.size as nat),
            value_line(c, o, x.ptr.spec_qualify(func), d),
            Line::empty(),
        ),
        Mnemonic::Store(x) => lemma_texts_access(
            c.space_label(x.space),
            dec(x.size as nat),
            value_line(c, o, x.ptr.spec_qualify(func), d),
            value_line(c, o, x.src.spec_qualify(func), d),
        ),
        _ => {},
    }
}

proof fn lemma_written_fields(
    c: Context,
    o: Option<FunctionId>,
    func: FunctionId,
    m: Mnemonic,
    ty: Option<TypeId>,
    d: nat,
)
    requires
        m is Gep || m is Extract || m is Tuple,
    ensures
        texts(mnemonic_line(c, o, func, m, ty, d).tokens) == written(c, o, func, m, ty, d),
{
    broadcast use group_texts;

}

proof fn lemma_written_branch(
    c: Context,
    o: Option<FunctionId>,
    func: FunctionId,
    m: Mnemonic,
    ty: Option<TypeId>,
    d: nat,
)
    requires
        m is Branch || m is BranchInd || m is CBranch,
    ensures
        texts(mnemonic_line(c, o, func, m, ty, d).tokens) == written(c, o, func, m, ty, d),
{
    match m {
        Mnemonic::Branch(x) => lemma_texts_branch(
            branch_line(c, o, func, x.target, x.args@, d),
            Line::empty(),
            Line::empty(),
        ),
        Mnemonic::BranchInd(x) => lemma_texts_branch(
            value_line(c, o, x.ptr.spec_qualify(func), d),
            Line::empty(),
            Line::empty(),
        ),
        Mnemonic::CBranch(x) => lemma_texts_branch(
            value_line(c, o, x.condition.spec_qualify(func), d),
            branch_line(c, o, func, x.success_block, x.success_args@, d),
            branch_line(c, o, func, x.failure_block, x.failure_args@, d),
        ),
        _ => {},
    }
}

proof fn lemma_written_switch(
    c: Context,
    o: Option<FunctionId>,
    func: FunctionId,
    m: Mnemonic,
    ty: Option<TypeId>,
    d: nat,
)
    requires
        m is Switch,
    ensures
        texts(mnemonic_line(c, o, func, m, ty, d).tokens) == written(c, o, func, m, ty, d),
{
    let s = m->Switch_0;
    let scrutinee = value_line(c, o, s.scrutinee.spec_qualify(func), d);
    let arms = arms_line(c, o, func, s.cases@, s.cases@.len(), d);
    match s.default {
        Some(target) => {
            let line = branch_line(c, o, func, target, s.default_args@, d);
            lemma_texts_switch(scrutinee, arms, line);
        },
        None => lemma_texts_switch(scrutinee, arms, Line::empty()),
    }
}

proof fn lemma_written_end(
    c: Context,
    o: Option<FunctionId>,
    func: FunctionId,
    m: Mnemonic,
    ty: Option<TypeId>,
    d: nat,
)
    requires
        m is BadInsn || m is Assert || m is Return || m is ReturnValue,
    ensures
        texts(mnemonic_line(c, o, func, m, ty, d).tokens) == written(c, o, func, m, ty, d),
{
    match m {
        Mnemonic::Assert(x) => lemma_texts_end(
            value_line(c, o, x.condition.spec_qualify(func), d),
            Line::empty(),
        ),
        Mnemonic::ReturnValue(x) => lemma_texts_end(
            value_line(c, o, x.value.spec_qualify(func), d),
            Line::empty(),
        ),
        Mnemonic::Return(x) => {
            let ptr = value_line(c, o, x.ptr.spec_qualify(func), d);
            match x.value {
                Some(value) => lemma_texts_end(
                    value_line(c, o, value.spec_qualify(func), d),
                    ptr,
                ),
                None => lemma_texts_end(Line::empty(), ptr),
            }
        },
        _ => lemma_texts_end(Line::empty(), Line::empty()),
    }
}

proof fn lemma_written_call(
    c: Context,
    o: Option<FunctionId>,
    func: FunctionId,
    m: Mnemonic,
    ty: Option<TypeId>,
    d: nat,
)
    requires
        m is Call || m is TailCall || m is Apply,
    ensures
        texts(mnemonic_line(c, o, func, m, ty, d).tokens) == written(c, o, func, m, ty, d),
{
    match m {
        Mnemonic::Call(x) => lemma_texts_call(
            c,
            "call fn "@,
            x.target,
            call_args_line(c, o, func, x.target, x.args@, x.args@.len(), d),
        ),
        Mnemonic::TailCall(x) => lemma_texts_call(
            c,
            "tailcall fn "@,
            x.target,
            args_line(c, o, func, x.args@, x.args@.len(), d),
        ),
        Mnemonic::Apply(x) => lemma_texts_call(
            c,
            "apply "@,
            x.target,
            args_line(c, o, func, x.args@, x.args@.len(), d),
        ),
        _ => {},
    }
}

proof fn lemma_written_call_ind(
    c: Context,
    o: Option<FunctionId>,
    func: FunctionId,
    m: Mnemonic,
    ty: Option<TypeId>,
    d: nat,
)
    requires
        m is CallInd,
    ensures
        texts(mnemonic_line(c, o, func, m, ty, d).tokens) == written(c, o, func, m, ty, d),
{
    let x = m->CallInd_0;
    lemma_texts_call_ind(
        value_line(c, o, x.ptr.spec_qualify(func), d),
        args_line(c, o, func, x.args@, x.args@.len(), d),
    );
}

proof fn lemma_written_unary(
    c: Context,
    o: Option<FunctionId>,
    func: FunctionId,
    m: Mnemonic,
    ty: Option<TypeId>,
    d: nat,
)
    requires
        m is Unop || m is IsFloatNaN || m is LzCount || m is PopCount,
    ensures
        texts(mnemonic_line(c, o, func, m, ty, d).tokens) == written(c, o, func, m, ty, d),
{
    match m {
        Mnemonic::Unop(x) => {
            let src = value_line(c, o, x.src.spec_qualify(func), d);
            lemma_texts_unary(x.op.spelling() + " "@, src);
            lemma_texts_unary(x.op.spelling(), src);
        },
        Mnemonic::IsFloatNaN(x) => lemma_texts_unary("nan"@, value_line(c, o, x.src.spec_qualify(func), d)),
        Mnemonic::LzCount(x) => lemma_texts_unary(
            "lzcount"@,
            value_line(c, o, x.src.spec_qualify(func), d),
        ),
        Mnemonic::PopCount(x) => lemma_texts_unary(
            "popcount"@,
            value_line(c, o, x.src.spec_qualify(func), d),
        ),
        _ => {},
    }
}

proof fn lemma_written_binary(
    c: Context,
    o: Option<FunctionId>,
    func: FunctionId,
    m: Mnemonic,
    ty: Option<TypeId>,
    d: nat,
)
    requires
        m is Binop,
    ensures
        texts(mnemonic_line(c, o, func, m, ty, d).tokens) == written(c, o, func, m, ty, d),
{
    let x = m->Binop_0;
    lemma_texts_binop(
        " "@ + x.op.spelling() + " "@,
        value_line(c, o, x.lhs.spec_qualify(func), d),
        value_line(c, o, x.rhs.spec_qualify(func), d),
    );
}

proof fn lemma_written_range(
    c: Context,
    o: Option<FunctionId>,
    func: FunctionId,
    m: Mnemonic,
    ty: Option<TypeId>,
    d: nat,
)
    requires
        m is Range,
    ensures
        texts(mnemonic_line(c, o, func, m, ty, d).tokens) == written(c, o, func, m, ty, d),
{
    let x = m->Range_0;
    lemma_texts_range(
        value_line(c, o, x.src.spec_qualify(func), d),
        dec(x.start as nat),
        Text::given(x.start + x.size <= usize::MAX, dec((x.start + x.size) as nat)),
    );
}

proof fn lemma_written_cast(
    c: Context,
    o: Option<FunctionId>,
    func: FunctionId,
    m: Mnemonic,
    ty: Option<TypeId>,
    d: nat,
)
    requires
        m is Zext || m is Sext || m is IntToFloat || m is FloatToFloat || m is FloatToInt,
    ensures
        texts(mnemonic_line(c, o, func, m, ty, d).tokens) == written(c, o, func, m, ty, d),
{
    match m {
        Mnemonic::Zext(x) => lemma_texts_cast(
            "zext"@,
            Text::given(x.size * 8 <= u64::MAX, "i"@ + dec((x.size * 8) as nat)),
            value_line(c, o, x.src.spec_qualify(func), d),
        ),
        Mnemonic::Sext(x) => lemma_texts_cast(
            "sext"@,
            Text::given(x.size * 8 <= u64::MAX, "i"@ + dec((x.size * 8) as nat)),
            value_line(c, o, x.src.spec_qualify(func), d),
        ),
        Mnemonic::IntToFloat(x) => lemma_texts_cast(
            "int2float"@,
            Text::given(x.size * 8 <= u64::MAX, "f"@ + dec((x.size * 8) as nat)),
            value_line(c, o, x.src.spec_qualify(func), d),
        ),
        Mnemonic::FloatToFloat(x) => lemma_texts_cast(
            "float2float"@,
            Text::given(x.size * 8 <= u64::MAX, "f"@ + dec((x.size * 8) as nat)),
            value_line(c, o, x.src.spec_qualify(func), d),
        ),
        Mnemonic::FloatToInt(x) => lemma_texts_cast(
            "trunc"@,
            Text::given(x.size * 8 <= u64::MAX, "i"@ + dec((x.size * 8) as nat)),
            value_line(c, o, x.src.spec_qualify(func), d),
        ),
        _ => {},
    }
}

proof fn lemma_written_flag(
    c: Context,
    o: Option<FunctionId>,
    func: FunctionId,
    m: Mnemonic,
    ty: Option<TypeId>,
    d: nat,
)
    requires
        m is Carry || m is SCarry || m is SBorrow,
    ensures
        texts(mnemonic_line(c, o, func, m, ty, d).tokens) == written(c, o, func, m, ty, d),
{
    match m {
        Mnemonic::Carry(x) => lemma_texts_flag(
            "carry"@,
            value_line(c, o, x.lhs.spec_qualify(func), d),
            value_line(c, o, x.rhs.spec_qualify(func), d),
        ),
        Mnemonic::SCarry(x) => lemma_texts_flag(
            "scarry"@,
            value_line(c, o, x.lhs.spec_qualify(func), d),
            value_line(c, o, x.rhs.spec_qualify(func), d),
        ),
        Mnemonic::SBorrow(x) => lemma_texts_flag(
            "sborrow"@,
            value_line(c, o, x.lhs.spec_qualify(func), d),
            value_line(c, o, x.rhs.spec_qualify(func), d),
        ),
        _ => {},
    }
}

proof fn lemma_written_map(
    c: Context,
    o: Option<FunctionId>,
    func: FunctionId,
    m: Mnemonic,
    ty: Option<TypeId>,
    d: nat,
)
    requires
        m is ArrayMap,
    ensures
        texts(mnemonic_line(c, o, func, m, ty, d).tokens) == written(c, o, func, m, ty, d),
{
    let x = m->ArrayMap_0;
    lemma_texts_map(
        c,
        x.body,
        captures_line(c, o, func, x.captures@, x.captures@.len(), d),
        value_line(c, o, x.src.spec_qualify(func), d),
    );
}

proof fn lemma_written_scan(
    c: Context,
    o: Option<FunctionId>,
    func: FunctionId,
    m: Mnemonic,
    ty: Option<TypeId>,
    d: nat,
)
    requires
        m is Scan,
    ensures
        texts(mnemonic_line(c, o, func, m, ty, d).tokens) == written(c, o, func, m, ty, d),
{
    let x = m->Scan_0;
    let label = c.callee_label(x.body);
    let body = match x.body {
        Callee::Real(_) => Text::of("@"@).cat(label),
        Callee::Minted(_) => label,
    };
    lemma_texts_scan(
        body,
        Context::callee_link(x.body),
        captures_line(c, o, func, x.captures@, x.captures@.len(), d),
        value_line(c, o, x.init.spec_qualify(func), d),
        value_line(c, o, x.src.spec_qualify(func), d),
    );
}

proof fn lemma_written_pcode_op(
    c: Context,
    o: Option<FunctionId>,
    func: FunctionId,
    m: Mnemonic,
    ty: Option<TypeId>,
    d: nat,
)
    requires
        m is PCodeOp,
    ensures
        texts(mnemonic_line(c, o, func, m, ty, d).tokens) == written(c, o, func, m, ty, d),
{
    let x = m->PCodeOp_0;
    let args = args_line(c, o, func, x.args@, x.args@.len(), d);
    let name = c.shared.pcode_ops@[x.id.0 as int]@;
    let ok = x.id.0 < c.shared.pcode_ops@.len();
    match x.dst {
        Some(dst) => lemma_texts_named(
            ok,
            name,
            value_line(c, o, dst.spec_qualify(func), d),
            args,
        ),
        None => lemma_texts_named(ok, name, Line::empty(), args),
    }
}

proof fn lemma_written_intrinsic(
    c: Context,
    o: Option<FunctionId>,
    func: FunctionId,
    m: Mnemonic,
    ty: Option<TypeId>,
    d: nat,
)
    requires
        m is Intrinsic,
    ensures
        texts(mnemonic_line(c, o, func, m, ty, d).tokens) == written(c, o, func, m, ty, d),
{
    let x = m->Intrinsic_0;
    lemma_texts_named(
        c.shared.intrinsics.has(x.id),
        "$"@ + c.shared.intrinsics@[x.id.0 as int].name@,
        Line::empty(),
        args_line(c, o, func, x.args@, x.args@.len(), d),
    );
}

/// A statement is written run by run as its operation asks for.
pub proof fn law_a_statement_is_written_run_by_run(
    c: Context,
    o: Option<FunctionId>,
    func: FunctionId,
    m: Mnemonic,
    ty: Option<TypeId>,
    d: nat,
)
    ensures
        texts(mnemonic_line(c, o, func, m, ty, d).tokens) == written(c, o, func, m, ty, d),
{
    match m {
        Mnemonic::Load(_)
        | Mnemonic::Store(_) => lemma_written_memory(c, o, func, m, ty, d),
        Mnemonic::Gep(_)
        | Mnemonic::Extract(_)
        | Mnemonic::Tuple(_) => lemma_written_fields(c, o, func, m, ty, d),
        Mnemonic::Branch(_)
        | Mnemonic::BranchInd(_)
        | Mnemonic::CBranch(_) => lemma_written_branch(c, o, func, m, ty, d),
        Mnemonic::Switch(_) => lemma_written_switch(c, o, func, m, ty, d),
        Mnemonic::BadInsn(_)
        | Mnemonic::Assert(_)
        | Mnemonic::Return(_)
        | Mnemonic::ReturnValue(_) => lemma_written_end(c, o, func, m, ty, d),
        Mnemonic::Call(_)
        | Mnemonic::TailCall(_)
        | Mnemonic::Apply(_) => lemma_written_call(c, o, func, m, ty, d),
        Mnemonic::CallInd(_) => lemma_written_call_ind(c, o, func, m, ty, d),
        Mnemonic::Unop(_)
        | Mnemonic::IsFloatNaN(_)
        | Mnemonic::LzCount(_)
        | Mnemonic::PopCount(_) => lemma_written_unary(c, o, func, m, ty, d),
        Mnemonic::Binop(_) => lemma_written_binary(c, o, func, m, ty, d),
        Mnemonic::Range(_) => lemma_written_range(c, o, func, m, ty, d),
        Mnemonic::Zext(_)
        | Mnemonic::Sext(_)
        | Mnemonic::IntToFloat(_)
        | Mnemonic::FloatToFloat(_)
        | Mnemonic::FloatToInt(_) => lemma_written_cast(c, o, func, m, ty, d),
        Mnemonic::Carry(_)
        | Mnemonic::SCarry(_)
        | Mnemonic::SBorrow(_) => lemma_written_flag(c, o, func, m, ty, d),
        Mnemonic::ArrayMap(_) => lemma_written_map(c, o, func, m, ty, d),
        Mnemonic::Scan(_) => lemma_written_scan(c, o, func, m, ty, d),
        Mnemonic::PCodeOp(_) => lemma_written_pcode_op(c, o, func, m, ty, d),
        Mnemonic::Intrinsic(_) => lemma_written_intrinsic(c, o, func, m, ty, d),
    }
}

} // verus!
