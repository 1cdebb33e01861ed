//! What the text of a statement says of the instruction.

use crate::context::Context;
use crate::ids::{BlockId, FunctionId, InstructionId, LocalBlockId, TypeId};
use crate::insn::aggregate::{Extract, Gep};
use crate::insn::binop::Binary;
use crate::insn::casting::{FloatToFloat, FloatToInt, IntToFloat, Range, Sext, Zext};
use crate::insn::memory::{Load, Store};
use crate::insn::mnemonic::Mnemonic;
use crate::insn::opcode::opcode_text;
use crate::insn::terminator::{Callee, SwitchArm};
use crate::segment::line::{
    args_line, arms_line, bare_line, branch_args_line, branch_line, call_args_line, captures_line,
    fields_line, insn_line, mnemonic_line, value_line, Line,
};
use crate::segment::{Link, TokenKind, TokenView};
use crate::text::{dec, hex};
use crate::types::type_size;
use crate::value::{LocalValueId, ValueId};
use vstd::prelude::*;

verus! {

/// What the tokens refer to, in their order.
pub open spec fn links(tokens: Seq<TokenView>) -> Seq<Link>
    decreases tokens.len(),
{
    if tokens.len() == 0 {
        Seq::empty()
    } else {
        match tokens.last().link {
            Some(link) => links(tokens.drop_last()).push(link),
            None => links(tokens.drop_last()),
        }
    }
}

broadcast proof fn lemma_links_push(s: Seq<TokenView>, t: TokenView)
    ensures
        #[trigger] links(s.push(t)) == (match t.link {
            Some(link) => links(s).push(link),
            None => links(s),
        }),
{
    assert(s.push(t).drop_last() =~= s);
}

broadcast proof fn lemma_links_cat(a: Seq<TokenView>, b: Seq<TokenView>)
    ensures
        #[trigger] links(a + b) == links(a) + links(b),
    decreases b.len(),
{
    if b.len() == 0 {
        assert(a + b =~= a);
        assert(links(a) + links(b) =~= links(a));
    } else {
        lemma_links_cat(a, b.drop_last());
        assert((a + b).drop_last() =~= a + b.drop_last());
        assert(links(a + b) =~= links(a) + links(b));
    }
}

broadcast group group_links {
    lemma_links_push,
    lemma_links_cat,
}

/// What the text of a value refers to: a function or a block as such.
pub open spec fn value_link(id: ValueId) -> Link {
    match id {
        ValueId::Function(f) => Link::Function(f),
        ValueId::BasicBlock(b) => Link::Block(b),
        _ => Link::Value(id),
    }
}

/// What the texts of values refer to.
pub open spec fn value_links(func: FunctionId, values: Seq<LocalValueId>) -> Seq<Link> {
    values.map_values(|v: LocalValueId| value_link(v.spec_qualify(func)))
}

/// What the name of a callee refers to.
pub open spec fn function_links(callee: Callee) -> Seq<Link> {
    match callee {
        Callee::Real(f) => seq![Link::Function(f)],
        Callee::Minted(_) => Seq::empty(),
    }
}

/// The text of a value refers to the value, and to nothing else.
pub proof fn law_a_value_refers_to_itself(
    c: Context,
    o: Option<FunctionId>,
    id: ValueId,
    d: nat,
)
    requires
        value_line(c, o, id, d).ok,
    ensures
        links(value_line(c, o, id, d).tokens) == seq![value_link(id)],
{
    broadcast use group_links;

    let none = Seq::<TokenView>::empty();
    assert(links(none) == Seq::<Link>::empty());
    assert(links(value_line(c, o, id, d).tokens) =~= seq![value_link(id)]);
}

proof fn lemma_bare(c: Context, o: Option<FunctionId>, id: ValueId, d: nat)
    requires
        bare_line(c, o, id, d).ok,
    ensures
        links(bare_line(c, o, id, d).tokens) == seq![value_link(id)],
{
    broadcast use group_links;

    let none = Seq::<TokenView>::empty();
    assert(links(none) == Seq::<Link>::empty());
    if let ValueId::Instruction(_) = id {
        assert(links(bare_line(c, o, id, d).tokens) =~= seq![value_link(id)]);
    } else {
        law_a_value_refers_to_itself(c, o, id, d);
    }
}

proof fn lemma_values_grow(func: FunctionId, values: Seq<LocalValueId>, n: int)
    requires
        0 < n <= values.len(),
    ensures
        value_links(func, values.take(n)) == value_links(func, values.take(n - 1)).push(
            value_link(values[n - 1].spec_qualify(func)),
        ),
{
    assert(value_links(func, values.take(n)) =~= value_links(func, values.take(n - 1)).push(
        value_link(values[n - 1].spec_qualify(func)),
    ));
}

proof fn lemma_args(
    c: Context,
    o: Option<FunctionId>,
    func: FunctionId,
    args: Seq<LocalValueId>,
    n: nat,
    d: nat,
)
    requires
        args_line(c, o, func, args, n, d).ok,
        n <= args.len(),
    ensures
        links(args_line(c, o, func, args, n, d).tokens) == value_links(func, args.take(n as int)),
    decreases n,
{
    broadcast use group_links;

    if n == 0 {
        assert(value_links(func, args.take(0)) =~= Seq::<Link>::empty());
    } else {
        lemma_args(c, o, func, args, (n - 1) as nat, d);
        law_a_value_refers_to_itself(c, o, args[n - 1].spec_qualify(func), d);
        lemma_values_grow(func, args, n as int);
        assert(links(args_line(c, o, func, args, n, d).tokens) =~= value_links(
            func,
            args.take(n as int),
        ));
    }
}

proof fn lemma_captures(
    c: Context,
    o: Option<FunctionId>,
    func: FunctionId,
    args: Seq<LocalValueId>,
    n: nat,
    d: nat,
)
    requires
        captures_line(c, o, func, args, n, d).ok,
        n <= args.len(),
    ensures
        links(captures_line(c, o, func, args, n, d).tokens) == value_links(
            func,
            args.take(n as int),
        ),
    decreases n,
{
    broadcast use group_links;

    if n == 0 {
        assert(value_links(func, args.take(0)) =~= Seq::<Link>::empty());
    } else {
        lemma_captures(c, o, func, args, (n - 1) as nat, d);
        law_a_value_refers_to_itself(c, o, args[n - 1].spec_qualify(func), d);
        lemma_values_grow(func, args, n as int);
        assert(links(captures_line(c, o, func, args, n, d).tokens) =~= value_links(
            func,
            args.take(n as int),
        ));
    }
}

proof fn lemma_call_args(
    c: Context,
    o: Option<FunctionId>,
    func: FunctionId,
    callee: Callee,
    args: Seq<LocalValueId>,
    n: nat,
    d: nat,
)
    requires
        call_args_line(c, o, func, callee, args, n, d).ok,
        n <= args.len(),
    ensures
        links(call_args_line(c, o, func, callee, args, n, d).tokens) == value_links(
            func,
            args.take(n as int),
        ),
    decreases n,
{
    broadcast use group_links;

    if n == 0 {
        assert(value_links(func, args.take(0)) =~= Seq::<Link>::empty());
    } else {
        lemma_call_args(c, o, func, callee, args, (n - 1) as nat, d);
        law_a_value_refers_to_itself(c, o, args[n - 1].spec_qualify(func), d);
        lemma_values_grow(func, args, n as int);
        assert(links(call_args_line(c, o, func, callee, args, n, d).tokens) =~= value_links(
            func,
            args.take(n as int),
        ));
    }
}

proof fn lemma_fields(
    c: Context,
    o: Option<FunctionId>,
    func: FunctionId,
    ty: Option<TypeId>,
    fields: Seq<LocalValueId>,
    n: nat,
    d: nat,
)
    requires
        fields_line(c, o, func, ty, fields, n, d).ok,
        n <= fields.len(),
    ensures
        links(fields_line(c, o, func, ty, fields, n, d).tokens) == value_links(
            func,
            fields.take(n as int),
        ),
    decreases n,
{
    broadcast use group_links;

    if n == 0 {
        assert(value_links(func, fields.take(0)) =~= Seq::<Link>::empty());
    } else {
        lemma_fields(c, o, func, ty, fields, (n - 1) as nat, d);
        law_a_value_refers_to_itself(c, o, fields[n - 1].spec_qualify(func), d);
        lemma_values_grow(func, fields, n as int);
        assert(links(fields_line(c, o, func, ty, fields, n, d).tokens) =~= value_links(
            func,
            fields.take(n as int),
        ));
    }
}

proof fn lemma_branch_args(
    c: Context,
    o: Option<FunctionId>,
    target: BlockId,
    args: Seq<LocalValueId>,
    n: nat,
    d: nat,
)
    requires
        branch_args_line(c, o, target, args, n, d).ok,
        n <= args.len(),
    ensures
        links(branch_args_line(c, o, target, args, n, d).tokens) == value_links(
            target.func,
            args.take(n as int),
        ),
    decreases n,
{
    broadcast use group_links;

    if n == 0 {
        assert(value_links(target.func, args.take(0)) =~= Seq::<Link>::empty());
    } else {
        lemma_branch_args(c, o, target, args, (n - 1) as nat, d);
        law_a_value_refers_to_itself(c, o, args[n - 1].spec_qualify(target.func), d);
        lemma_values_grow(target.func, args, n as int);
        assert(links(branch_args_line(c, o, target, args, n, d).tokens) =~= value_links(
            target.func,
            args.take(n as int),
        ));
    }
}

/// What the target of a branch refers to: the block, and the values of its
/// parameters.
pub open spec fn target_links(
    func: FunctionId,
    target: LocalBlockId,
    args: Seq<LocalValueId>,
) -> Seq<Link> {
    seq![Link::Block(BlockId { func, local: target })] + value_links(func, args)
}

proof fn lemma_branch(
    c: Context,
    o: Option<FunctionId>,
    func: FunctionId,
    target: LocalBlockId,
    args: Seq<LocalValueId>,
    d: nat,
)
    requires
        branch_line(c, o, func, target, args, d).ok,
    ensures
        links(branch_line(c, o, func, target, args, d).tokens) == target_links(func, target, args),
{
    broadcast use group_links;

    lemma_branch_args(c, o, BlockId { func, local: target }, args, args.len(), d);
    assert(args.take(args.len() as int) =~= args);
    assert(links(branch_line(c, o, func, target, args, d).tokens) =~= target_links(
        func,
        target,
        args,
    ));
}

/// What the arms of a switch refer to, arm by arm.
pub open spec fn arm_links(func: FunctionId, arms: Seq<SwitchArm>) -> Seq<Link>
    decreases arms.len(),
{
    if arms.len() == 0 {
        Seq::empty()
    } else {
        arm_links(func, arms.drop_last()) + target_links(
            func,
            arms.last().target,
            arms.last().args@,
        )
    }
}

proof fn lemma_arms(
    c: Context,
    o: Option<FunctionId>,
    func: FunctionId,
    arms: Seq<SwitchArm>,
    n: nat,
    d: nat,
)
    requires
        arms_line(c, o, func, arms, n, d).ok,
        n <= arms.len(),
    ensures
        links(arms_line(c, o, func, arms, n, d).tokens) == arm_links(func, arms.take(n as int)),
    decreases n,
{
    broadcast use group_links;

    if n > 0 {
        lemma_arms(c, o, func, arms, (n - 1) as nat, d);
        let arm = arms[n - 1];
        lemma_branch(c, o, func, arm.target, arm.args@, d);
        assert(arms.take(n as int).drop_last() =~= arms.take(n - 1));
        assert(links(arms_line(c, o, func, arms, n, d).tokens) =~= arm_links(
            func,
            arms.take(n as int),
        ));
    }
}

/// What an operation in `func` refers to, in the order it is written.
pub open spec fn referred(func: FunctionId, m: Mnemonic) -> Seq<Link> {
    let one = |v: LocalValueId| value_links(func, seq![v]);
    match m {
        Mnemonic::Load(x) => one(x.ptr),
        Mnemonic::Store(x) => one(x.ptr) + one(x.src),
        Mnemonic::Branch(x) => target_links(func, x.target, x.args@),
        Mnemonic::BranchInd(x) => one(x.ptr),
        Mnemonic::CBranch(x) => one(x.condition) + target_links(
            func,
            x.success_block,
            x.success_args@,
        ) + target_links(func, x.failure_block, x.failure_args@),
        Mnemonic::Switch(x) => one(x.scrutinee) + arm_links(func, x.cases@) + (match x.default {
            Some(target) => target_links(func, target, x.default_args@),
            None => Seq::empty(),
        }),
        Mnemonic::Apply(x) => function_links(x.target) + value_links(func, x.args@),
        Mnemonic::Call(x) => function_links(x.target) + value_links(func, x.args@),
        Mnemonic::TailCall(x) => function_links(x.target) + value_links(func, x.args@),
        Mnemonic::CallInd(x) => one(x.ptr) + value_links(func, x.args@),
        Mnemonic::BadInsn(_) => Seq::empty(),
        Mnemonic::Return(x) => match x.value {
            Some(value) => one(value) + one(x.ptr),
            None => one(x.ptr),
        },
        Mnemonic::ReturnValue(x) => one(x.value),
        Mnemonic::Unop(x) => one(x.src),
        Mnemonic::Binop(x) => one(x.lhs) + one(x.rhs),
        Mnemonic::Zext(x) => one(x.src),
        Mnemonic::Sext(x) => one(x.src),
        Mnemonic::IntToFloat(x) => one(x.src),
        Mnemonic::FloatToFloat(x) => one(x.src),
        Mnemonic::FloatToInt(x) => one(x.src),
        Mnemonic::Range(x) => one(x.src),
        Mnemonic::IsFloatNaN(x) => one(x.src),
        Mnemonic::LzCount(x) => one(x.src),
        Mnemonic::PopCount(x) => one(x.src),
        Mnemonic::Carry(x) => one(x.lhs) + one(x.rhs),
        Mnemonic::SCarry(x) => one(x.lhs) + one(x.rhs),
        Mnemonic::SBorrow(x) => one(x.lhs) + one(x.rhs),
        Mnemonic::Assert(x) => one(x.condition),
        Mnemonic::Tuple(x) => value_links(func, x.fields@),
        Mnemonic::Extract(x) => one(x.agg),
        Mnemonic::Gep(x) => one(x.base),
        Mnemonic::ArrayMap(x) => function_links(x.body) + value_links(func, x.captures@) + one(x.src),
        Mnemonic::Scan(x) => function_links(x.body) + value_links(func, x.captures@) + one(x.init)
            + one(x.src),
        Mnemonic::PCodeOp(x) => (match x.dst {
            Some(dst) => one(dst),
            None => Seq::empty(),
        }) + value_links(func, x.args@),
        Mnemonic::Intrinsic(x) => value_links(func, x.args@),
    }
}

/// What is told of the operands of an operation, one by one.
proof fn lemma_one(c: Context, o: Option<FunctionId>, func: FunctionId, v: LocalValueId, d: nat)
    requires
        value_line(c, o, v.spec_qualify(func), d).ok,
    ensures
        links(value_line(c, o, v.spec_qualify(func), d).tokens) == value_links(func, seq![v]),
{
    law_a_value_refers_to_itself(c, o, v.spec_qualify(func), d);
    assert(value_links(func, seq![v]) =~= seq![value_link(v.spec_qualify(func))]);
}

proof fn lemma_list(args: Seq<LocalValueId>)
    ensures
        args.take(args.len() as int) == args,
{
    assert(args.take(args.len() as int) =~= args);
}

/// A statement refers to the operands of its operation and to the blocks and
/// the function that it names, in the order they are written, and to nothing
/// else.
pub proof fn law_a_statement_refers_to_its_operands_in_order(
    c: Context,
    o: Option<FunctionId>,
    func: FunctionId,
    m: Mnemonic,
    ty: Option<TypeId>,
    d: nat,
)
    requires
        mnemonic_line(c, o, func, m, ty, d).ok,
    ensures
        links(mnemonic_line(c, o, func, m, ty, d).tokens) == referred(func, m),
{
    broadcast use group_links;

    let line = mnemonic_line(c, o, func, m, ty, d);
    let none = Seq::<TokenView>::empty();
    assert(links(none) == Seq::<Link>::empty());
    match m {
        Mnemonic::Load(x) => lemma_one(c, o, func, x.ptr, d),
        Mnemonic::Store(x) => {
            lemma_one(c, o, func, x.ptr, d);
            lemma_one(c, o, func, x.src, d);
        },
        Mnemonic::Branch(x) => lemma_branch(c, o, func, x.target, x.args@, d),
        Mnemonic::BranchInd(x) => lemma_one(c, o, func, x.ptr, d),
        Mnemonic::CBranch(x) => {
            lemma_one(c, o, func, x.condition, d);
            lemma_branch(c, o, func, x.success_block, x.success_args@, d);
            lemma_branch(c, o, func, x.failure_block, x.failure_args@, d);
        },
        Mnemonic::Switch(x) => {
            lemma_one(c, o, func, x.scrutinee, d);
            lemma_arms(c, o, func, x.cases@, x.cases@.len(), d);
            assert(x.cases@.take(x.cases@.len() as int) =~= x.cases@);
            if let Some(target) = x.default {
                lemma_branch(c, o, func, target, x.default_args@, d);
            }
        },
        Mnemonic::Apply(x) => {
            lemma_args(c, o, func, x.args@, x.args@.len(), d);
            lemma_list(x.args@);
        },
        Mnemonic::Call(x) => {
            lemma_call_args(c, o, func, x.target, x.args@, x.args@.len(), d);
            lemma_list(x.args@);
        },
        Mnemonic::TailCall(x) => {
            lemma_args(c, o, func, x.args@, x.args@.len(), d);
            lemma_list(x.args@);
        },
        Mnemonic::CallInd(x) => {
            lemma_one(c, o, func, x.ptr, d);
            lemma_list(x.args@);
            if x.args@.len() > 0 {
                lemma_args(c, o, func, x.args@, x.args@.len(), d);
            } else {
                assert(value_links(func, x.args@) =~= Seq::<Link>::empty());
            }
        },
        Mnemonic::Return(x) => {
            lemma_one(c, o, func, x.ptr, d);
            if let Some(value) = x.value {
                lemma_one(c, o, func, value, d);
            }
        },
        Mnemonic::ReturnValue(x) => lemma_one(c, o, func, x.value, d),
        Mnemonic::Unop(x) => lemma_one(c, o, func, x.src, d),
        Mnemonic::Binop(x) => {
            lemma_one(c, o, func, x.lhs, d);
            lemma_one(c, o, func, x.rhs, d);
        },
        Mnemonic::Zext(x) => lemma_one(c, o, func, x.src, d),
        Mnemonic::Sext(x) => lemma_one(c, o, func, x.src, d),
        Mnemonic::IntToFloat(x) => lemma_one(c, o, func, x.src, d),
        Mnemonic::FloatToFloat(x) => lemma_one(c, o, func, x.src, d),
        Mnemonic::FloatToInt(x) => lemma_one(c, o, func, x.src, d),
        Mnemonic::Range(x) => lemma_one(c, o, func, x.src, d),
        Mnemonic::IsFloatNaN(x) => lemma_one(c, o, func, x.src, d),
        Mnemonic::LzCount(x) => lemma_one(c, o, func, x.src, d),
        Mnemonic::PopCount(x) => lemma_one(c, o, func, x.src, d),
        Mnemonic::Carry(x) => {
            lemma_one(c, o, func, x.lhs, d);
            lemma_one(c, o, func, x.rhs, d);
        },
        Mnemonic::SCarry(x) => {
            lemma_one(c, o, func, x.lhs, d);
            lemma_one(c, o, func, x.rhs, d);
        },
        Mnemonic::SBorrow(x) => {
            lemma_one(c, o, func, x.lhs, d);
            lemma_one(c, o, func, x.rhs, d);
        },
        Mnemonic::Assert(x) => lemma_one(c, o, func, x.condition, d),
        Mnemonic::Tuple(x) => {
            lemma_fields(c, o, func, ty, x.fields@, x.fields@.len(), d);
            lemma_list(x.fields@);
        },
        Mnemonic::Extract(x) => {
            lemma_bare(c, o, x.agg.spec_qualify(func), d);
            assert(value_links(func, seq![x.agg]) =~= seq![value_link(x.agg.spec_qualify(func))]);
        },
        Mnemonic::Gep(x) => {
            lemma_bare(c, o, x.base.spec_qualify(func), d);
            assert(value_links(func, seq![x.base]) =~= seq![value_link(x.base.spec_qualify(func))]);
        },
        Mnemonic::ArrayMap(x) => {
            lemma_one(c, o, func, x.src, d);
            lemma_list(x.captures@);
            if x.captures@.len() > 0 {
                lemma_captures(c, o, func, x.captures@, x.captures@.len(), d);
            } else {
                assert(value_links(func, x.captures@) =~= Seq::<Link>::empty());
            }
        },
        Mnemonic::Scan(x) => {
            lemma_one(c, o, func, x.init, d);
            lemma_one(c, o, func, x.src, d);
            lemma_list(x.captures@);
            if x.captures@.len() > 0 {
                lemma_captures(c, o, func, x.captures@, x.captures@.len(), d);
            } else {
                assert(value_links(func, x.captures@) =~= Seq::<Link>::empty());
            }
        },
        Mnemonic::PCodeOp(x) => {
            lemma_args(c, o, func, x.args@, x.args@.len(), d);
            lemma_list(x.args@);
            if let Some(dst) = x.dst {
                lemma_one(c, o, func, dst, d);
            }
        },
        Mnemonic::Intrinsic(x) => {
            lemma_args(c, o, func, x.args@, x.args@.len(), d);
            lemma_list(x.args@);
        },
        Mnemonic::BadInsn(_) => {},
    }
    assert(links(line.tokens) =~= referred(func, m));
}

/// The first of the tokens.
pub open spec fn first(tokens: Seq<TokenView>) -> Option<TokenView> {
    if tokens.len() == 0 {
        None
    } else {
        Some(tokens[0])
    }
}

broadcast proof fn lemma_first_push(s: Seq<TokenView>, t: TokenView)
    ensures
        #[trigger] first(s.push(t)) == (match first(s) {
            Some(x) => Some(x),
            None => Some(t),
        }),
{
}

broadcast proof fn lemma_first_cat(a: Seq<TokenView>, b: Seq<TokenView>)
    ensures
        #[trigger] first(a + b) == (match first(a) {
            Some(x) => Some(x),
            None => first(b),
        }),
{
    if a.len() == 0 {
        assert(a + b =~= b);
    }
}

broadcast group group_first {
    lemma_first_push,
    lemma_first_cat,
}

/// The word that the statement of an operation starts with, for those that do
/// not start with an operand.
pub open spec fn first_word(c: Context, m: Mnemonic) -> Option<Seq<char>> {
    match m {
        Mnemonic::Load(_) => Some("load"@),
        Mnemonic::Store(_) => Some("store"@),
        Mnemonic::Branch(_) => Some("goto "@),
        Mnemonic::BranchInd(_) => Some("goto "@),
        Mnemonic::CBranch(_) => Some("if "@),
        Mnemonic::Switch(_) => Some("switch "@),
        Mnemonic::Apply(_) => Some("apply "@),
        Mnemonic::Call(_) => Some("call fn "@),
        Mnemonic::TailCall(_) => Some("tailcall fn "@),
        Mnemonic::CallInd(_) => Some("call "@),
        Mnemonic::BadInsn(_) => Some("badinsn"@),
        Mnemonic::Return(x) => Some(
            if x.value is Some {
                "return "@
            } else {
                "return at "@
            },
        ),
        Mnemonic::ReturnValue(_) => Some("return "@),
        Mnemonic::Unop(x) => Some(
            if x.op is IntNegate || x.op is IntNot || x.op is FloatNegate {
                x.op.spelling() + " "@
            } else {
                x.op.spelling()
            },
        ),
        Mnemonic::Zext(_) => Some("zext"@),
        Mnemonic::Sext(_) => Some("sext"@),
        Mnemonic::IntToFloat(_) => Some("int2float"@),
        Mnemonic::FloatToFloat(_) => Some("float2float"@),
        Mnemonic::FloatToInt(_) => Some("trunc"@),
        Mnemonic::IsFloatNaN(_) => Some("nan"@),
        Mnemonic::LzCount(_) => Some("lzcount"@),
        Mnemonic::PopCount(_) => Some("popcount"@),
        Mnemonic::Carry(_) => Some("carry"@),
        Mnemonic::SCarry(_) => Some("scarry"@),
        Mnemonic::SBorrow(_) => Some("sborrow"@),
        Mnemonic::Assert(_) => Some("assert "@),
        Mnemonic::Tuple(_) => Some("pack"@),
        Mnemonic::Extract(_) => Some("extract"@),
        Mnemonic::Gep(_) => Some("gep"@),
        Mnemonic::Scan(_) => Some("scanl "@),
        Mnemonic::Intrinsic(x) => Some("$"@ + c.shared.intrinsics@[x.id.0 as int].name@),
        Mnemonic::Binop(_) | Mnemonic::Range(_) | Mnemonic::ArrayMap(_) | Mnemonic::PCodeOp(_) => {
            None
        },
    }
}

/// A statement starts with the word of its operation.
pub proof fn law_a_statement_starts_with_its_word(
    c: Context,
    o: Option<FunctionId>,
    func: FunctionId,
    m: Mnemonic,
    ty: Option<TypeId>,
    d: nat,
)
    ensures
        first_word(c, m) matches Some(word) ==> (first(
            mnemonic_line(c, o, func, m, ty, d).tokens,
        ) matches Some(token) && token.text == word),
{
    match m {
        Mnemonic::Load(_) | Mnemonic::Store(_) | Mnemonic::Gep(_) | Mnemonic::Extract(_) | Mnemonic::Tuple(_) => lemma_word_of_memory(c, o, func, m, ty, d),
        Mnemonic::Branch(_) | Mnemonic::BranchInd(_) | Mnemonic::CBranch(_) => lemma_word_of_branch(c, o, func, m, ty, d),
        Mnemonic::Switch(_) | Mnemonic::BadInsn(_) | Mnemonic::Assert(_) => lemma_word_of_switch(c, o, func, m, ty, d),
        Mnemonic::Call(_) | Mnemonic::TailCall(_) | Mnemonic::Apply(_) | Mnemonic::CallInd(_) => lemma_word_of_call(c, o, func, m, ty, d),
        Mnemonic::Return(_) | Mnemonic::ReturnValue(_) => lemma_word_of_return(c, o, func, m, ty, d),
        Mnemonic::Unop(_) | Mnemonic::IsFloatNaN(_) | Mnemonic::LzCount(_) | Mnemonic::PopCount(_) => lemma_word_of_unary(c, o, func, m, ty, d),
        Mnemonic::Zext(_) | Mnemonic::Sext(_) | Mnemonic::IntToFloat(_) | Mnemonic::FloatToFloat(_) | Mnemonic::FloatToInt(_) => lemma_word_of_cast(c, o, func, m, ty, d),
        Mnemonic::Carry(_) | Mnemonic::SCarry(_) | Mnemonic::SBorrow(_) => lemma_word_of_flag(c, o, func, m, ty, d),
        Mnemonic::Scan(_) | Mnemonic::Intrinsic(_) => lemma_word_of_list(c, o, func, m, ty, d),
        _ => {},
    }
}

proof fn lemma_word_of_memory(
    c: Context,
    o: Option<FunctionId>,
    func: FunctionId,
    m: Mnemonic,
    ty: Option<TypeId>,
    d: nat,
)
    requires
        m is Load || m is Store || m is Gep || m is Extract || m is Tuple,
    ensures
        first(mnemonic_line(c, o, func, m, ty, d).tokens) matches Some(token) && Some(token.text)
            == first_word(c, m),
{
    broadcast use group_first;

    assert(first(Seq::<TokenView>::empty()) is None);
}

proof fn lemma_word_of_branch(
    c: Context,
    o: Option<FunctionId>,
    func: FunctionId,
    m: Mnemonic,
    ty: Option<TypeId>,
    d: nat,
)
    requires
        m is Branch || m is BranchInd || m is CBranch,
    ensures
        first(mnemonic_line(c, o, func, m, ty, d).tokens) matches Some(token) && Some(token.text)
            == first_word(c, m),
{
    broadcast use group_first;

    assert(first(Seq::<TokenView>::empty()) is None);
}

proof fn lemma_word_of_switch(
    c: Context,
    o: Option<FunctionId>,
    func: FunctionId,
    m: Mnemonic,
    ty: Option<TypeId>,
    d: nat,
)
    requires
        m is Switch || m is BadInsn || m is Assert,
    ensures
        first(mnemonic_line(c, o, func, m, ty, d).tokens) matches Some(token) && Some(token.text)
            == first_word(c, m),
{
    broadcast use group_first;

    assert(first(Seq::<TokenView>::empty()) is None);
}

proof fn lemma_word_of_call(
    c: Context,
    o: Option<FunctionId>,
    func: FunctionId,
    m: Mnemonic,
    ty: Option<TypeId>,
    d: nat,
)
    requires
        m is Call || m is TailCall || m is Apply || m is CallInd,
    ensures
        first(mnemonic_line(c, o, func, m, ty, d).tokens) matches Some(token) && Some(token.text)
            == first_word(c, m),
{
    broadcast use group_first;

    assert(first(Seq::<TokenView>::empty()) is None);
}

proof fn lemma_word_of_return(
    c: Context,
    o: Option<FunctionId>,
    func: FunctionId,
    m: Mnemonic,
    ty: Option<TypeId>,
    d: nat,
)
    requires
        m is Return || m is ReturnValue,
    ensures
        first(mnemonic_line(c, o, func, m, ty, d).tokens) matches Some(token) && Some(token.text)
            == first_word(c, m),
{
    broadcast use group_first;

    assert(first(Seq::<TokenView>::empty()) is None);
}

proof fn lemma_word_of_unary(
    c: Context,
    o: Option<FunctionId>,
    func: FunctionId,
    m: Mnemonic,
    ty: Option<TypeId>,
    d: nat,
)
    requires
        m is Unop || m is IsFloatNaN || m is LzCount || m is PopCount,
    ensures
        first(mnemonic_line(c, o, func, m, ty, d).tokens) matches Some(token) && Some(token.text)
            == first_word(c, m),
{
    broadcast use group_first;

    assert(first(Seq::<TokenView>::empty()) is None);
}

proof fn lemma_word_of_cast(
    c: Context,
    o: Option<FunctionId>,
    func: FunctionId,
    m: Mnemonic,
    ty: Option<TypeId>,
    d: nat,
)
    requires
        m is Zext || m is Sext || m is IntToFloat || m is FloatToFloat || m is FloatToInt,
    ensures
        first(mnemonic_line(c, o, func, m, ty, d).tokens) matches Some(token) && Some(token.text)
            == first_word(c, m),
{
    broadcast use group_first;

    assert(first(Seq::<TokenView>::empty()) is None);
}

proof fn lemma_word_of_flag(
    c: Context,
    o: Option<FunctionId>,
    func: FunctionId,
    m: Mnemonic,
    ty: Option<TypeId>,
    d: nat,
)
    requires
        m is Carry || m is SCarry || m is SBorrow,
    ensures
        first(mnemonic_line(c, o, func, m, ty, d).tokens) matches Some(token) && Some(token.text)
            == first_word(c, m),
{
    broadcast use group_first;

    assert(first(Seq::<TokenView>::empty()) is None);
}

proof fn lemma_word_of_list(
    c: Context,
    o: Option<FunctionId>,
    func: FunctionId,
    m: Mnemonic,
    ty: Option<TypeId>,
    d: nat,
)
    requires
        m is Scan || m is Intrinsic,
    ensures
        first(mnemonic_line(c, o, func, m, ty, d).tokens) matches Some(token) && Some(token.text)
            == first_word(c, m),
{
    broadcast use group_first;

    assert(first(Seq::<TokenView>::empty()) is None);
}

/// The word that a statement starts with is the name of its operation, with what
/// comes before the first operand, for all operations that have one word for
/// both.
pub proof fn law_a_statement_is_called_like_its_operation(c: Context, m: Mnemonic)
    ensures
        ({
            let name = opcode_text(m, c.shared.intrinsics);
            &&& m is Load || m is Store || m is Zext || m is Sext || m is Carry || m is SCarry || m
                is SBorrow || m is Tuple || m is Extract || m is Gep || m is BadInsn ==> first_word(
                c,
                m,
            ) == Some(name)
            &&& m is Switch || m is Apply || m is Assert ==> first_word(c, m) == Some(
                name + seq![' '],
            )
            &&& m is Call || m is TailCall ==> first_word(c, m) == Some(
                name + seq![' ', 'f', 'n', ' '],
            )
            &&& m is Intrinsic ==> first_word(c, m) == Some(seq!['$'] + name)
        }),
{
    reveal_strlit("switch ");
    reveal_strlit("switch");
    reveal_strlit("apply ");
    reveal_strlit("apply");
    reveal_strlit("assert ");
    reveal_strlit("assert");
    reveal_strlit("call fn ");
    reveal_strlit("call");
    reveal_strlit("tailcall fn ");
    reveal_strlit("tailcall");
    reveal_strlit("$");
    assert("switch "@ =~= "switch"@ + seq![' ']);
    assert("apply "@ =~= "apply"@ + seq![' ']);
    assert("assert "@ =~= "assert"@ + seq![' ']);
    assert("call fn "@ =~= "call"@ + seq![' ', 'f', 'n', ' ']);
    assert("tailcall fn "@ =~= "tailcall"@ + seq![' ', 'f', 'n', ' ']);
    assert("$"@ =~= seq!['$']);
}

/// A load and a store tell the space and the number of bytes.
pub proof fn law_an_access_tells_its_space_and_size(
    c: Context,
    o: Option<FunctionId>,
    func: FunctionId,
    load: Load,
    store: Store,
    ty: Option<TypeId>,
    d: nat,
)
    ensures
        ({
            let tokens = mnemonic_line(c, o, func, Mnemonic::Load(load), ty, d).tokens;
            tokens.len() > 5 && tokens[2].text == c.space_label(load.space).chars && tokens[4].text
                == dec(load.size as nat)
        }),
        ({
            let tokens = mnemonic_line(c, o, func, Mnemonic::Store(store), ty, d).tokens;
            tokens.len() > 5 && tokens[2].text == c.space_label(store.space).chars && tokens[4].text
                == dec(store.size as nat)
        }),
{
}

/// A conversion tells the width in bits of what it converts to, and whether that
/// is an integer or a float.
pub proof fn law_a_conversion_tells_its_width(
    c: Context,
    o: Option<FunctionId>,
    func: FunctionId,
    src: LocalValueId,
    size: usize,
    ty: Option<TypeId>,
    d: nat,
)
    ensures
        mnemonic_line(c, o, func, Mnemonic::Zext(Zext { src, size }), ty, d).tokens[2].text
            == seq!['i'] + dec((size * 8) as nat),
        mnemonic_line(c, o, func, Mnemonic::Sext(Sext { src, size }), ty, d).tokens[2].text
            == seq!['i'] + dec((size * 8) as nat),
        mnemonic_line(c, o, func, Mnemonic::FloatToInt(FloatToInt { src, size }), ty, d).tokens[2].text
            == seq!['i'] + dec((size * 8) as nat),
        mnemonic_line(c, o, func, Mnemonic::IntToFloat(IntToFloat { src, size }), ty, d).tokens[2].text
            == seq!['f'] + dec((size * 8) as nat),
        mnemonic_line(
            c,
            o,
            func,
            Mnemonic::FloatToFloat(FloatToFloat { src, size }),
            ty,
            d,
        ).tokens[2].text == seq!['f'] + dec((size * 8) as nat),
{
    reveal_strlit("i");
    reveal_strlit("f");
    assert("i"@ =~= seq!['i']);
    assert("f"@ =~= seq!['f']);
}

/// A range tells where it starts and where it ends.
pub proof fn law_a_range_tells_its_bounds(
    c: Context,
    o: Option<FunctionId>,
    func: FunctionId,
    range: Range,
    ty: Option<TypeId>,
    d: nat,
)
    ensures
        ({
            let tokens = mnemonic_line(c, o, func, Mnemonic::Range(range), ty, d).tokens;
            let n = tokens.len() as int;
            n >= 5 && tokens[n - 4].text == dec(range.start as nat) && tokens[n - 2].text == dec(
                (range.start + range.size) as nat,
            )
        }),
{
}

/// The operator stands between its operands, with a space on either side; a sign
/// stands before its operand.
pub proof fn law_an_operator_stands_between_its_operands(
    c: Context,
    o: Option<FunctionId>,
    func: FunctionId,
    binary: Binary,
    ty: Option<TypeId>,
    d: nat,
)
    ensures
        ({
            let lhs = value_line(c, o, binary.lhs.spec_qualify(func), d).tokens;
            let rhs = value_line(c, o, binary.rhs.spec_qualify(func), d).tokens;
            let tokens = mnemonic_line(c, o, func, Mnemonic::Binop(binary), ty, d).tokens;
            let n = lhs.len() as int;
            &&& tokens.len() == lhs.len() + 1 + rhs.len() + 1
            &&& tokens.take(n) == lhs
            &&& tokens[n].text == seq![' '] + binary.op.spelling() + seq![' ']
            &&& tokens.subrange(n + 1, n + 1 + rhs.len()) == rhs
        }),
{
    reveal_strlit(" ");
    assert(" "@ =~= seq![' ']);
    let lhs = value_line(c, o, binary.lhs.spec_qualify(func), d).tokens;
    let rhs = value_line(c, o, binary.rhs.spec_qualify(func), d).tokens;
    let tokens = mnemonic_line(c, o, func, Mnemonic::Binop(binary), ty, d).tokens;
    let n = lhs.len() as int;
    assert(tokens.take(n) =~= lhs);
    assert(tokens.subrange(n + 1, n + 1 + rhs.len()) =~= rhs);
}

/// A projection tells the field by its name or by its number, an address of a
/// field by the name or by the offset.
pub proof fn law_a_projection_tells_its_field(
    c: Context,
    o: Option<FunctionId>,
    func: FunctionId,
    extract: Extract,
    gep: Gep,
    ty: Option<TypeId>,
    d: nat,
)
    ensures
        ({
            let tokens = mnemonic_line(c, o, func, Mnemonic::Extract(extract), ty, d).tokens;
            let n = tokens.len() as int;
            n >= 2 && tokens[n - 2].text == seq!['.'] + (match c.extract_field(
                extract.agg.spec_qualify(func),
                extract.index as int,
            ) {
                Some(name) => name,
                None => "field"@ + dec((extract.index + 1) as nat),
            })
        }),
        ({
            let tokens = mnemonic_line(c, o, func, Mnemonic::Gep(gep), ty, d).tokens;
            let n = tokens.len() as int;
            n >= 2 && tokens[n - 2].text == (match c.gep_field(
                gep.base.spec_qualify(func),
                gep.offset,
            ) {
                Some(name) => seq!['.'] + name,
                None => "0x"@ + hex(gep.offset as nat),
            })
        }),
{
    reveal_strlit(".");
    assert("."@ =~= seq!['.']);
}

/// What comes after the first three tokens.
proof fn lemma_after_three(a: TokenView, b: TokenView, c: TokenView, rest: Seq<TokenView>)
    ensures
        ({
            let all = Seq::<TokenView>::empty().push(a).push(b).push(c) + rest;
            &&& all.skip(3) == rest
            &&& all.len() == 3 + rest.len()
            &&& all[0] == a && all[1] == b && all[2] == c
        }),
{
    let all = Seq::<TokenView>::empty().push(a).push(b).push(c) + rest;
    assert(all.skip(3) =~= rest);
}

/// A result is written with its type before what computes it.
pub proof fn law_a_result_is_written_first(
    c: Context,
    o: Option<FunctionId>,
    id: InstructionId,
    d: nat,
)
    requires
        type_size(
            c.shared.types@,
            c.body_of(id.func).insn_rec(id.local).type_id.0 as int,
        ) != 0,
    ensures
        ({
            let insn = c.body_of(id.func).insn_rec(id.local);
            let tokens = insn_line(c, o, id, d).tokens;
            &&& tokens.len() >= 3
            &&& tokens.skip(3) == mnemonic_line(
                c,
                o,
                id.func,
                insn.mnemonic,
                Some(insn.type_id),
                d,
            ).tokens
            &&& tokens[0].text == c.type_label(insn.type_id).chars + seq![' ']
            &&& tokens[1].text == c.insn_label(id)
            &&& tokens[1].link == Some(Link::Value(ValueId::Instruction(id)))
            &&& tokens[2].text == seq![' ', '=', ' ']
        }),
{
    reveal_strlit(" ");
    reveal_strlit(" = ");
    assert(" "@ =~= seq![' ']);
    assert(" = "@ =~= seq![' ', '=', ' ']);
    let insn = c.body_of(id.func).insn_rec(id.local);
    let rest = mnemonic_line(c, o, id.func, insn.mnemonic, Some(insn.type_id), d);
    let head = Line::empty().ty(c, insn.type_id).push(
        c.insn_label(id),
        TokenKind::Variable,
        Some(Link::Value(ValueId::Instruction(id))),
    ).op(" = "@);
    assert(insn_line(c, o, id, d).tokens == head.cat(rest).tokens);
    lemma_after_three(head.tokens[0], head.tokens[1], head.tokens[2], rest.tokens);
}

} // verus!
