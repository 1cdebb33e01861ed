//! A rendering does not depend on the depth it is allowed.

use crate::context::Context;
use crate::ids::{BlockId, FunctionId, InstructionId, LocalBlockId, LocalInsnId, TypeId};
use crate::insn::mnemonic::Mnemonic;
use crate::insn::terminator::{Callee, SwitchArm};
use crate::segment::atoms::foreign;
use crate::segment::line::{
    args_line, arms_line, bare_line, binary_line, block_text, branch_args_line, branch_line,
    call_args_line, captures_line, cast_line, fields_line, insn_line, mnemonic_line,
    statements_text, unary_line, value_line,
};
use crate::value::{LocalValueId, ValueId};
use vstd::prelude::*;

verus! {

/// Whether every value that can be rendered within depth `d` is rendered in
/// the same way within depth `e`.
spec fn values_agree(c: Context, o: Option<FunctionId>, d: nat, e: nat) -> bool {
    forall|v: ValueId| #[trigger]
        value_line(c, o, v, d).ok ==> value_line(c, o, v, e) == value_line(c, o, v, d)
}

proof fn agree(c: Context, o: Option<FunctionId>, v: ValueId, d: nat, e: nat)
    requires
        values_agree(c, o, d, e),
    ensures
        value_line(c, o, v, d).ok ==> value_line(c, o, v, e) == value_line(c, o, v, d),
{
}

proof fn lemma_args_line(
    c: Context,
    o: Option<FunctionId>,
    func: FunctionId,
    args: Seq<LocalValueId>,
    n: nat,
    d: nat,
    e: nat,
)
    requires
        values_agree(c, o, d, e),
        args_line(c, o, func, args, n, d).ok,
    ensures
        args_line(c, o, func, args, n, e) == args_line(c, o, func, args, n, d),
    decreases n,
{
    if n > 0 {
        let v = args[n - 1].spec_qualify(func);
        assert(value_line(c, o, v, d).ok);
        lemma_args_line(c, o, func, args, (n - 1) as nat, d, e);
    }
}

proof fn lemma_captures_line(
    c: Context,
    o: Option<FunctionId>,
    func: FunctionId,
    args: Seq<LocalValueId>,
    n: nat,
    d: nat,
    e: nat,
)
    requires
        values_agree(c, o, d, e),
        captures_line(c, o, func, args, n, d).ok,
    ensures
        captures_line(c, o, func, args, n, e) == captures_line(c, o, func, args, n, d),
    decreases n,
{
    if n > 0 {
        let v = args[n - 1].spec_qualify(func);
        assert(value_line(c, o, v, d).ok);
        lemma_captures_line(c, o, func, args, (n - 1) as nat, d, e);
    }
}

proof fn lemma_call_args_line(
    c: Context,
    o: Option<FunctionId>,
    func: FunctionId,
    callee: Callee,
    args: Seq<LocalValueId>,
    n: nat,
    d: nat,
    e: nat,
)
    requires
        values_agree(c, o, d, e),
        call_args_line(c, o, func, callee, args, n, d).ok,
    ensures
        call_args_line(c, o, func, callee, args, n, e) == call_args_line(c, o, func, callee, args, n, d),
    decreases n,
{
    if n > 0 {
        let v = args[n - 1].spec_qualify(func);
        assert(value_line(c, o, v, d).ok);
        lemma_call_args_line(c, o, func, callee, args, (n - 1) as nat, d, e);
    }
}

proof fn lemma_fields_line(
    c: Context,
    o: Option<FunctionId>,
    func: FunctionId,
    ty: Option<TypeId>,
    args: Seq<LocalValueId>,
    n: nat,
    d: nat,
    e: nat,
)
    requires
        values_agree(c, o, d, e),
        fields_line(c, o, func, ty, args, n, d).ok,
    ensures
        fields_line(c, o, func, ty, args, n, e) == fields_line(c, o, func, ty, args, n, d),
    decreases n,
{
    if n > 0 {
        let v = args[n - 1].spec_qualify(func);
        assert(value_line(c, o, v, d).ok);
        lemma_fields_line(c, o, func, ty, args, (n - 1) as nat, d, e);
    }
}

proof fn lemma_branch_args_line(
    c: Context,
    o: Option<FunctionId>,
    target: BlockId,
    args: Seq<LocalValueId>,
    n: nat,
    d: nat,
    e: nat,
)
    requires
        values_agree(c, o, d, e),
        branch_args_line(c, o, target, args, n, d).ok,
    ensures
        branch_args_line(c, o, target, args, n, e) == branch_args_line(c, o, target, args, n, d),
    decreases n,
{
    if n > 0 {
        let v = args[n - 1].spec_qualify(target.func);
        assert(value_line(c, o, v, d).ok);
        lemma_branch_args_line(c, o, target, args, (n - 1) as nat, d, e);
    }
}

proof fn lemma_branch_line(
    c: Context,
    o: Option<FunctionId>,
    func: FunctionId,
    target: LocalBlockId,
    args: Seq<LocalValueId>,
    d: nat,
    e: nat,
)
    requires
        values_agree(c, o, d, e),
        branch_line(c, o, func, target, args, d).ok,
    ensures
        branch_line(c, o, func, target, args, e) == branch_line(c, o, func, target, args, d),
{
    lemma_branch_args_line(c, o, BlockId { func, local: target }, args, args.len(), d, e);
}

proof fn lemma_arms_line(
    c: Context,
    o: Option<FunctionId>,
    func: FunctionId,
    arms: Seq<SwitchArm>,
    n: nat,
    d: nat,
    e: nat,
)
    requires
        values_agree(c, o, d, e),
        arms_line(c, o, func, arms, n, d).ok,
    ensures
        arms_line(c, o, func, arms, n, e) == arms_line(c, o, func, arms, n, d),
    decreases n,
{
    if n > 0 {
        let arm = arms[n - 1];
        lemma_branch_line(c, o, func, arm.target, arm.args@, d, e);
        lemma_arms_line(c, o, func, arms, (n - 1) as nat, d, e);
    }
}

proof fn lemma_mnemonic_line(
    c: Context,
    o: Option<FunctionId>,
    func: FunctionId,
    m: Mnemonic,
    ty: Option<TypeId>,
    d: nat,
    e: nat,
)
    requires
        values_agree(c, o, d, e),
        mnemonic_line(c, o, func, m, ty, d).ok,
    ensures
        mnemonic_line(c, o, func, m, ty, e) == mnemonic_line(c, o, func, m, ty, d),
{
    reveal_with_fuel(mnemonic_line, 2);
    reveal_with_fuel(cast_line, 2);
    reveal_with_fuel(unary_line, 2);
    reveal_with_fuel(binary_line, 2);
    reveal_with_fuel(bare_line, 2);
    match m {
        Mnemonic::Load(x) => {
            agree(c, o, x.ptr.spec_qualify(func), d, e);
        },
        Mnemonic::Store(x) => {
            agree(c, o, x.ptr.spec_qualify(func), d, e);
            agree(c, o, x.src.spec_qualify(func), d, e);
        },
        Mnemonic::Branch(b) => {
            lemma_branch_line(c, o, func, b.target, b.args@, d, e);
        },
        Mnemonic::BranchInd(b) => {
            agree(c, o, b.ptr.spec_qualify(func), d, e);
        },
        Mnemonic::CBranch(b) => {
            agree(c, o, b.condition.spec_qualify(func), d, e);
            lemma_branch_line(c, o, func, b.success_block, b.success_args@, d, e);
            lemma_branch_line(c, o, func, b.failure_block, b.failure_args@, d, e);
        },
        Mnemonic::Switch(s) => {
            agree(c, o, s.scrutinee.spec_qualify(func), d, e);
            lemma_arms_line(c, o, func, s.cases@, s.cases@.len(), d, e);
            if let Some(target) = s.default {
                lemma_branch_line(c, o, func, target, s.default_args@, d, e);
            }
        },
        Mnemonic::Apply(a) => {
            lemma_args_line(c, o, func, a.args@, a.args@.len(), d, e);
        },
        Mnemonic::Call(a) => {
            lemma_call_args_line(c, o, func, a.target, a.args@, a.args@.len(), d, e);
        },
        Mnemonic::TailCall(a) => {
            lemma_args_line(c, o, func, a.args@, a.args@.len(), d, e);
        },
        Mnemonic::CallInd(a) => {
            agree(c, o, a.ptr.spec_qualify(func), d, e);
            if a.args@.len() > 0 {
                lemma_args_line(c, o, func, a.args@, a.args@.len(), d, e);
            }
        },
        Mnemonic::Return(r) => {
            agree(c, o, r.ptr.spec_qualify(func), d, e);
            if let Some(value) = r.value {
                agree(c, o, value.spec_qualify(func), d, e);
            }
        },
        Mnemonic::ReturnValue(r) => {
            agree(c, o, r.value.spec_qualify(func), d, e);
        },
        Mnemonic::Unop(x) => {
            agree(c, o, x.src.spec_qualify(func), d, e);
        },
        Mnemonic::Zext(x) => {
            agree(c, o, x.src.spec_qualify(func), d, e);
        },
        Mnemonic::Sext(x) => {
            agree(c, o, x.src.spec_qualify(func), d, e);
        },
        Mnemonic::IntToFloat(x) => {
            agree(c, o, x.src.spec_qualify(func), d, e);
        },
        Mnemonic::FloatToFloat(x) => {
            agree(c, o, x.src.spec_qualify(func), d, e);
        },
        Mnemonic::FloatToInt(x) => {
            agree(c, o, x.src.spec_qualify(func), d, e);
        },
        Mnemonic::Range(x) => {
            agree(c, o, x.src.spec_qualify(func), d, e);
        },
        Mnemonic::IsFloatNaN(x) => {
            agree(c, o, x.src.spec_qualify(func), d, e);
        },
        Mnemonic::LzCount(x) => {
            agree(c, o, x.src.spec_qualify(func), d, e);
        },
        Mnemonic::PopCount(x) => {
            agree(c, o, x.src.spec_qualify(func), d, e);
        },
        Mnemonic::Binop(x) => {
            agree(c, o, x.lhs.spec_qualify(func), d, e);
            agree(c, o, x.rhs.spec_qualify(func), d, e);
        },
        Mnemonic::Carry(x) => {
            agree(c, o, x.lhs.spec_qualify(func), d, e);
            agree(c, o, x.rhs.spec_qualify(func), d, e);
        },
        Mnemonic::SCarry(x) => {
            agree(c, o, x.lhs.spec_qualify(func), d, e);
            agree(c, o, x.rhs.spec_qualify(func), d, e);
        },
        Mnemonic::SBorrow(x) => {
            agree(c, o, x.lhs.spec_qualify(func), d, e);
            agree(c, o, x.rhs.spec_qualify(func), d, e);
        },
        Mnemonic::Assert(a) => {
            agree(c, o, a.condition.spec_qualify(func), d, e);
        },
        Mnemonic::Tuple(t) => {
            lemma_fields_line(c, o, func, ty, t.fields@, t.fields@.len(), d, e);
        },
        Mnemonic::Extract(x) => {
            agree(c, o, x.agg.spec_qualify(func), d, e);
        },
        Mnemonic::Gep(x) => {
            agree(c, o, x.base.spec_qualify(func), d, e);
        },
        Mnemonic::ArrayMap(map) => {
            agree(c, o, map.src.spec_qualify(func), d, e);
            if map.captures@.len() > 0 {
                lemma_captures_line(c, o, func, map.captures@, map.captures@.len(), d, e);
            }
        },
        Mnemonic::Scan(scan) => {
            agree(c, o, scan.init.spec_qualify(func), d, e);
            agree(c, o, scan.src.spec_qualify(func), d, e);
            if scan.captures@.len() > 0 {
                lemma_captures_line(c, o, func, scan.captures@, scan.captures@.len(), d, e);
            }
        },
        Mnemonic::PCodeOp(p) => {
            if let Some(dst) = p.dst {
                agree(c, o, dst.spec_qualify(func), d, e);
            }
            lemma_args_line(c, o, func, p.args@, p.args@.len(), d, e);
        },
        Mnemonic::Intrinsic(x) => {
            lemma_args_line(c, o, func, x.args@, x.args@.len(), d, e);
        },
        Mnemonic::BadInsn(_) => {
        },
    }
}

proof fn lemma_insn_line(
    c: Context,
    o: Option<FunctionId>,
    id: InstructionId,
    d: nat,
    e: nat,
)
    requires
        values_agree(c, o, d, e),
        insn_line(c, o, id, d).ok,
    ensures
        insn_line(c, o, id, e) == insn_line(c, o, id, d),
{
    let insn = c.body_of(id.func).insn_rec(id.local);
    lemma_mnemonic_line(c, o, id.func, insn.mnemonic, Some(insn.type_id), d, e);
}

proof fn lemma_statements_text(
    c: Context,
    o: Option<FunctionId>,
    func: FunctionId,
    insns: Seq<LocalInsnId>,
    n: nat,
    d: nat,
    e: nat,
)
    requires
        values_agree(c, o, d, e),
        statements_text(c, o, func, insns, n, d).ok,
    ensures
        statements_text(c, o, func, insns, n, e) == statements_text(c, o, func, insns, n, d),
    decreases n,
{
    if n > 0 {
        lemma_insn_line(c, o, InstructionId { func, local: insns[n - 1] }, d, e);
        lemma_statements_text(c, o, func, insns, (n - 1) as nat, d, e);
    }
}

proof fn lemma_values_agree(c: Context, o: Option<FunctionId>, d: nat, e: nat)
    requires
        d <= e,
    ensures
        values_agree(c, o, d, e),
    decreases d,
{
    assert forall|v: ValueId| #[trigger] value_line(c, o, v, d).ok implies value_line(c, o, v, e)
        == value_line(c, o, v, d) by {
        if let ValueId::BasicBlock(b) = v {
            if !foreign(o, b.func) {
                let (d, e) = ((d - 1) as nat, (e - 1) as nat);
                lemma_values_agree(c, o, d, e);
                let insns = c.body_of(b.func).order(b.local);
                lemma_statements_text(c, o, b.func, insns, insns.len(), d, e);
                assert(block_text(c, o, b, e) == block_text(c, o, b, d));
            }
        }
    }
}

/// A value that can be rendered within a depth is rendered in the same way
/// within every depth that it can be rendered within.
pub proof fn law_values_do_not_depend_on_depth(
    c: Context,
    o: Option<FunctionId>,
    v: ValueId,
    d: nat,
    e: nat,
)
    requires
        value_line(c, o, v, d).ok,
        value_line(c, o, v, e).ok,
    ensures
        value_line(c, o, v, d) == value_line(c, o, v, e),
{
    if d <= e {
        lemma_values_agree(c, o, d, e);
    } else {
        lemma_values_agree(c, o, e, d);
    }
}

/// An instruction that can be rendered within a depth is rendered in the same
/// way within every depth that it can be rendered within.
pub proof fn law_instructions_do_not_depend_on_depth(
    c: Context,
    o: Option<FunctionId>,
    id: InstructionId,
    d: nat,
    e: nat,
)
    requires
        insn_line(c, o, id, d).ok,
        insn_line(c, o, id, e).ok,
    ensures
        insn_line(c, o, id, d) == insn_line(c, o, id, e),
{
    if d <= e {
        lemma_values_agree(c, o, d, e);
        lemma_insn_line(c, o, id, d, e);
    } else {
        lemma_values_agree(c, o, e, d);
        lemma_insn_line(c, o, id, e, d);
    }
}

/// A block that can be rendered within a depth is rendered in the same way
/// within every depth that it can be rendered within.
pub proof fn law_blocks_do_not_depend_on_depth(
    c: Context,
    o: Option<FunctionId>,
    b: BlockId,
    d: nat,
    e: nat,
)
    requires
        block_text(c, o, b, d).ok,
        block_text(c, o, b, e).ok,
    ensures
        block_text(c, o, b, d) == block_text(c, o, b, e),
{
    let insns = c.body_of(b.func).order(b.local);
    if d <= e {
        lemma_values_agree(c, o, d, e);
        lemma_statements_text(c, o, b.func, insns, insns.len(), d, e);
    } else {
        lemma_values_agree(c, o, e, d);
        lemma_statements_text(c, o, b.func, insns, insns.len(), e, d);
    }
}

} // verus!
