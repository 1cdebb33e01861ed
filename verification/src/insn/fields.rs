//! What the fields of an operation say of it.

use crate::ids::FunctionId;
use crate::insn::mnemonic::{arm_operands, arm_shapes, Mnemonic};
use crate::insn::terminator::{Callee, SwitchArm};
use vstd::prelude::*;

verus! {

/// Whether two arms of a switch are the same.
pub open spec fn same_arm(a: SwitchArm, b: SwitchArm) -> bool {
    a.value == b.value && a.target == b.target && a.args@ == b.args@
}

/// Whether two operations have the same fields.
pub open spec fn same_fields(a: Mnemonic, b: Mnemonic) -> bool {
    match (a, b) {
        (Mnemonic::Load(x), Mnemonic::Load(y)) => x == y,
        (Mnemonic::Store(x), Mnemonic::Store(y)) => x == y,
        (Mnemonic::Branch(x), Mnemonic::Branch(y)) => x.target == y.target && x.args@ == y.args@,
        (Mnemonic::CBranch(x), Mnemonic::CBranch(y)) => {
            &&& x.condition == y.condition
            &&& x.success_block == y.success_block
            &&& x.success_args@ == y.success_args@
            &&& x.failure_block == y.failure_block
            &&& x.failure_args@ == y.failure_args@
        },
        (Mnemonic::BranchInd(x), Mnemonic::BranchInd(y)) => x == y,
        (Mnemonic::Switch(x), Mnemonic::Switch(y)) => {
            &&& x.scrutinee == y.scrutinee
            &&& x.cases@.len() == y.cases@.len()
            &&& forall|k: int|
                0 <= k < x.cases@.len() ==> same_arm(#[trigger] x.cases@[k], y.cases@[k])
            &&& x.default == y.default
            &&& x.default_args@ == y.default_args@
        },
        (Mnemonic::Call(x), Mnemonic::Call(y)) => {
            &&& x.target == y.target
            &&& x.args@ == y.args@
            &&& x.clobbers@ == y.clobbers@
            &&& x.tag == y.tag
        },
        (Mnemonic::TailCall(x), Mnemonic::TailCall(y)) => x.target == y.target && x.args@
            == y.args@,
        (Mnemonic::Apply(x), Mnemonic::Apply(y)) => x.target == y.target && x.args@ == y.args@,
        (Mnemonic::CallInd(x), Mnemonic::CallInd(y)) => x.ptr == y.ptr && x.args@ == y.args@,
        (Mnemonic::Return(x), Mnemonic::Return(y)) => x == y,
        (Mnemonic::ReturnValue(x), Mnemonic::ReturnValue(y)) => x == y,
        (Mnemonic::BadInsn(x), Mnemonic::BadInsn(y)) => true,
        (Mnemonic::Unop(x), Mnemonic::Unop(y)) => x == y,
        (Mnemonic::Binop(x), Mnemonic::Binop(y)) => x == y,
        (Mnemonic::Range(x), Mnemonic::Range(y)) => x == y,
        (Mnemonic::IntToFloat(x), Mnemonic::IntToFloat(y)) => x == y,
        (Mnemonic::FloatToFloat(x), Mnemonic::FloatToFloat(y)) => x == y,
        (Mnemonic::FloatToInt(x), Mnemonic::FloatToInt(y)) => x == y,
        (Mnemonic::Zext(x), Mnemonic::Zext(y)) => x == y,
        (Mnemonic::Sext(x), Mnemonic::Sext(y)) => x == y,
        (Mnemonic::IsFloatNaN(x), Mnemonic::IsFloatNaN(y)) => x == y,
        (Mnemonic::PopCount(x), Mnemonic::PopCount(y)) => x == y,
        (Mnemonic::LzCount(x), Mnemonic::LzCount(y)) => x == y,
        (Mnemonic::Carry(x), Mnemonic::Carry(y)) => x == y,
        (Mnemonic::SCarry(x), Mnemonic::SCarry(y)) => x == y,
        (Mnemonic::SBorrow(x), Mnemonic::SBorrow(y)) => x == y,
        (Mnemonic::Assert(x), Mnemonic::Assert(y)) => x == y,
        (Mnemonic::PCodeOp(x), Mnemonic::PCodeOp(y)) => x.id == y.id && x.args@ == y.args@ && x.dst
            == y.dst,
        (Mnemonic::Intrinsic(x), Mnemonic::Intrinsic(y)) => x.id == y.id && x.args@ == y.args@,
        (Mnemonic::Tuple(x), Mnemonic::Tuple(y)) => x.fields@ == y.fields@,
        (Mnemonic::Extract(x), Mnemonic::Extract(y)) => x == y,
        (Mnemonic::Gep(x), Mnemonic::Gep(y)) => x == y,
        (Mnemonic::ArrayMap(x), Mnemonic::ArrayMap(y)) => x.body == y.body && x.src == y.src
            && x.captures@ == y.captures@,
        (Mnemonic::Scan(x), Mnemonic::Scan(y)) => x.body == y.body && x.init == y.init && x.src
            == y.src && x.captures@ == y.captures@,
        _ => false,
    }
}

/// Nothing of an operation is left out of what it is: two that are the same
/// have the same fields.
pub proof fn law_equal_operations_have_equal_fields(a: Mnemonic, b: Mnemonic)
    requires
        a@ == b@,
    ensures
        same_fields(a, b),
{
    match (a, b) {
        (Mnemonic::Switch(x), Mnemonic::Switch(y)) => {
            let (p, q) = (arm_operands(x.cases@), arm_operands(y.cases@));
            assert(arm_shapes(x.cases@).len() == x.cases@.len());
            assert(arm_shapes(y.cases@).len() == y.cases@.len());
            lemma_arms_len(x.cases@, y.cases@);
            assert(a.operands()[0] == x.scrutinee);
            assert(b.operands()[0] == y.scrutinee);
            assert(a.operands().subrange(1, 1 + p.len() as int) =~= p);
            assert(b.operands().subrange(1, 1 + q.len() as int) =~= q);
            assert(a.operands().skip(1 + p.len() as int) =~= x.default_args@);
            assert(b.operands().skip(1 + q.len() as int) =~= y.default_args@);
            lemma_arms_same(x.cases@, y.cases@);
        },
        (Mnemonic::CBranch(x), Mnemonic::CBranch(y)) => {
            let n = x.success_args@.len() as int;
            assert(a.operands()[0] == x.condition);
            assert(b.operands()[0] == y.condition);
            assert(a.operands().subrange(1, 1 + n) =~= x.success_args@);
            assert(b.operands().subrange(1, 1 + n) =~= y.success_args@);
            assert(a.operands().skip(1 + n) =~= x.failure_args@);
            assert(b.operands().skip(1 + n) =~= y.failure_args@);
        },
        (Mnemonic::CallInd(x), Mnemonic::CallInd(y)) => {
            assert(a.operands()[0] == x.ptr && b.operands()[0] == y.ptr);
            assert(a.operands().skip(1) =~= x.args@);
            assert(b.operands().skip(1) =~= y.args@);
        },
        (Mnemonic::ArrayMap(x), Mnemonic::ArrayMap(y)) => {
            assert(a.operands()[0] == x.src && b.operands()[0] == y.src);
            assert(a.operands().skip(1) =~= x.captures@);
            assert(b.operands().skip(1) =~= y.captures@);
        },
        (Mnemonic::Scan(x), Mnemonic::Scan(y)) => {
            assert(a.operands()[0] == x.init && b.operands()[0] == y.init);
            assert(a.operands()[1] == x.src && b.operands()[1] == y.src);
            assert(a.operands().skip(2) =~= x.captures@);
            assert(b.operands().skip(2) =~= y.captures@);
        },
        (Mnemonic::Return(x), Mnemonic::Return(y)) => {
            assert(a.operands()[0] == x.ptr && b.operands()[0] == y.ptr);
            if x.value is Some {
                assert(a.operands()[1] == x.value->0 && b.operands()[1] == y.value->0);
            }
        },
        _ => {
            if a.operands().len() > 0 {
                assert(a.operands()[0] == b.operands()[0]);
            }
            if a.operands().len() > 1 {
                assert(a.operands()[1] == b.operands()[1]);
            }
        },
    }
}

/// Arms of the same shapes have as many arguments together.
proof fn lemma_arms_len(a: Seq<SwitchArm>, b: Seq<SwitchArm>)
    requires
        arm_shapes(a) == arm_shapes(b),
        a.len() == b.len(),
    ensures
        arm_operands(a).len() == arm_operands(b).len(),
    decreases a.len(),
{
    if a.len() > 0 {
        assert(arm_shapes(a.drop_last()) =~= arm_shapes(a).drop_last());
        assert(arm_shapes(b.drop_last()) =~= arm_shapes(b).drop_last());
        assert(arm_shapes(a)[a.len() - 1].args == a.last().args@.len());
        assert(arm_shapes(b)[b.len() - 1].args == b.last().args@.len());
        lemma_arms_len(a.drop_last(), b.drop_last());
    }
}

/// Arms of the same shapes with the same arguments are the same.
proof fn lemma_arms_same(a: Seq<SwitchArm>, b: Seq<SwitchArm>)
    requires
        arm_shapes(a) == arm_shapes(b),
        a.len() == b.len(),
        arm_operands(a) == arm_operands(b),
    ensures
        forall|k: int| 0 <= k < a.len() ==> same_arm(#[trigger] a[k], b[k]),
    decreases a.len(),
{
    if a.len() > 0 {
        let (p, q) = (a.drop_last(), b.drop_last());
        assert(arm_shapes(p) =~= arm_shapes(a).drop_last());
        assert(arm_shapes(q) =~= arm_shapes(b).drop_last());
        let last = a.len() - 1;
        assert(arm_shapes(a)[last].args == a.last().args@.len());
        assert(arm_shapes(b)[last].args == b.last().args@.len());
        lemma_arms_len(p, q);
        let n = arm_operands(p).len() as int;
        assert(arm_operands(a).take(n) =~= arm_operands(p));
        assert(arm_operands(b).take(n) =~= arm_operands(q));
        assert(arm_operands(a).skip(n) =~= a.last().args@);
        assert(arm_operands(b).skip(n) =~= b.last().args@);
        lemma_arms_same(p, q);
        assert forall|k: int| 0 <= k < a.len() implies same_arm(#[trigger] a[k], b[k]) by {
            if k < p.len() {
                assert(same_arm(p[k], q[k]));
            } else {
                assert(arm_shapes(a)[k].value == a[k].value && arm_shapes(b)[k].value == b[k].value);
                assert(a[k] == a.last() && b[k] == b.last());
            }
        }
    }
}

/// The place of the arguments of arm `k` among the operands of a switch.
pub open spec fn arm_place(cases: Seq<SwitchArm>, k: int) -> int
    decreases k,
{
    if k <= 0 {
        1
    } else {
        arm_place(cases, k - 1) + cases[k - 1].args@.len()
    }
}

/// What an operation reads first stands first among its operands: an address
/// before what is stored there, the left side before the right one, a condition
/// before the arguments for its outcomes, and lists in their order.
pub proof fn law_operands_stand_in_order(m: Mnemonic, k: int)
    requires
        0 <= k,
    ensures
        ({
            let ops = m.operands();
            match m {
                Mnemonic::Load(x) => ops.len() == 1 && ops[0] == x.ptr,
                Mnemonic::Store(x) => ops.len() == 2 && ops[0] == x.ptr && ops[1] == x.src,
                Mnemonic::Branch(x) => ops.len() == x.args@.len() && (k < x.args@.len() ==> ops[k]
                    == x.args@[k]),
                Mnemonic::CBranch(x) => {
                    let n = x.success_args@.len();
                    &&& ops.len() == 1 + n + x.failure_args@.len()
                    &&& ops[0] == x.condition
                    &&& k < n ==> ops[1 + k] == x.success_args@[k]
                    &&& k < x.failure_args@.len() ==> ops[1 + n + k] == x.failure_args@[k]
                },
                Mnemonic::BranchInd(x) => ops.len() == 1 && ops[0] == x.ptr,
                Mnemonic::Switch(x) => {
                    let n = x.cases@.len() as int;
                    let end = arm_place(x.cases@, n);
                    &&& ops.len() == end + x.default_args@.len()
                    &&& ops[0] == x.scrutinee
                    &&& k < n ==> forall|i: int|
                        0 <= i < x.cases@[k].args@.len() ==> ops[arm_place(x.cases@, k) + i]
                            == #[trigger] x.cases@[k].args@[i]
                    &&& k < x.default_args@.len() ==> ops[end + k] == x.default_args@[k]
                },
                Mnemonic::Call(x) => ops.len() == x.args@.len() && (k < x.args@.len() ==> ops[k]
                    == x.args@[k]),
                Mnemonic::TailCall(x) => ops.len() == x.args@.len() && (k < x.args@.len() ==> ops[k]
                    == x.args@[k]),
                Mnemonic::Apply(x) => ops.len() == x.args@.len() && (k < x.args@.len() ==> ops[k]
                    == x.args@[k]),
                Mnemonic::CallInd(x) => ops.len() == 1 + x.args@.len() && ops[0] == x.ptr && (k
                    < x.args@.len() ==> ops[1 + k] == x.args@[k]),
                Mnemonic::Return(x) => {
                    &&& ops[0] == x.ptr
                    &&& ops.len() == (if x.value is Some {
                        2int
                    } else {
                        1
                    })
                    &&& x.value matches Some(value) ==> ops[1] == value
                },
                Mnemonic::ReturnValue(x) => ops.len() == 1 && ops[0] == x.value,
                Mnemonic::BadInsn(_) => ops.len() == 0,
                Mnemonic::Unop(x) => ops.len() == 1 && ops[0] == x.src,
                Mnemonic::Binop(x) => ops.len() == 2 && ops[0] == x.lhs && ops[1] == x.rhs,
                Mnemonic::Range(x) => ops.len() == 1 && ops[0] == x.src,
                Mnemonic::IntToFloat(x) => ops.len() == 1 && ops[0] == x.src,
                Mnemonic::FloatToFloat(x) => ops.len() == 1 && ops[0] == x.src,
                Mnemonic::FloatToInt(x) => ops.len() == 1 && ops[0] == x.src,
                Mnemonic::Zext(x) => ops.len() == 1 && ops[0] == x.src,
                Mnemonic::Sext(x) => ops.len() == 1 && ops[0] == x.src,
                Mnemonic::IsFloatNaN(x) => ops.len() == 1 && ops[0] == x.src,
                Mnemonic::PopCount(x) => ops.len() == 1 && ops[0] == x.src,
                Mnemonic::LzCount(x) => ops.len() == 1 && ops[0] == x.src,
                Mnemonic::Carry(x) => ops.len() == 2 && ops[0] == x.lhs && ops[1] == x.rhs,
                Mnemonic::SCarry(x) => ops.len() == 2 && ops[0] == x.lhs && ops[1] == x.rhs,
                Mnemonic::SBorrow(x) => ops.len() == 2 && ops[0] == x.lhs && ops[1] == x.rhs,
                Mnemonic::Assert(x) => ops.len() == 1 && ops[0] == x.condition,
                Mnemonic::PCodeOp(x) => ops.len() == x.args@.len() && (k < x.args@.len() ==> ops[k]
                    == x.args@[k]),
                Mnemonic::Intrinsic(x) => ops.len() == x.args@.len() && (k < x.args@.len()
                    ==> ops[k] == x.args@[k]),
                Mnemonic::Tuple(x) => ops.len() == x.fields@.len() && (k < x.fields@.len()
                    ==> ops[k] == x.fields@[k]),
                Mnemonic::Extract(x) => ops.len() == 1 && ops[0] == x.agg,
                Mnemonic::Gep(x) => ops.len() == 1 && ops[0] == x.base,
                Mnemonic::ArrayMap(x) => ops.len() == 1 + x.captures@.len() && ops[0] == x.src && (k
                    < x.captures@.len() ==> ops[1 + k] == x.captures@[k]),
                Mnemonic::Scan(x) => ops.len() == 2 + x.captures@.len() && ops[0] == x.init
                    && ops[1] == x.src && (k < x.captures@.len() ==> ops[2 + k] == x.captures@[k]),
            }
        }),
{
    if let Mnemonic::Switch(x) = m {
        lemma_arm_place(x.cases@, x.cases@.len() as int);
        if k < x.cases@.len() {
            lemma_arm_place(x.cases@, k);
            lemma_arm_place(x.cases@, k + 1);
            lemma_arm_prefix(x.cases@, k + 1);
            let (upto, past) = (x.cases@.take(k), x.cases@.take(k + 1));
            assert(past.drop_last() =~= upto);
            assert(past.last() == x.cases@[k]);
            assert forall|i: int| 0 <= i < x.cases@[k].args@.len() implies m.operands()[arm_place(
                x.cases@,
                k,
            ) + i] == #[trigger] x.cases@[k].args@[i] by {
                let at = arm_operands(upto).len() + i;
                assert(arm_operands(past)[at] == x.cases@[k].args@[i]);
                assert(arm_operands(x.cases@)[at] == arm_operands(past)[at]);
            }
        }
        assert(x.cases@.take(x.cases@.len() as int) =~= x.cases@);
    }
}

proof fn lemma_arm_place(cases: Seq<SwitchArm>, k: int)
    requires
        0 <= k <= cases.len(),
    ensures
        arm_place(cases, k) == 1 + arm_operands(cases.take(k)).len(),
    decreases k,
{
    if k > 0 {
        lemma_arm_place(cases, k - 1);
        assert(cases.take(k).drop_last() =~= cases.take(k - 1));
    }
}

/// The arguments of the first arms come first.
proof fn lemma_arm_prefix(cases: Seq<SwitchArm>, k: int)
    requires
        0 <= k <= cases.len(),
    ensures
        arm_operands(cases.take(k)).len() <= arm_operands(cases).len(),
        forall|i: int|
            0 <= i < arm_operands(cases.take(k)).len() ==> #[trigger] arm_operands(cases)[i]
                == arm_operands(cases.take(k))[i],
    decreases cases.len(),
{
    if k == cases.len() {
        assert(cases.take(k) =~= cases);
    } else {
        let init = cases.drop_last();
        lemma_arm_prefix(init, k);
        assert(init.take(k) =~= cases.take(k));
    }
}

/// An operation that computes, reads or writes goes on to the next one; one that
/// names a block to go to, returns, calls or cannot go on ends its block.
pub proof fn law_what_goes_on_ends_no_block(m: Mnemonic)
    ensures
        m.branch_targets().len() > 0 ==> m.terminates(),
        m is Branch || m is CBranch || m is Switch || m is BranchInd ==> m.terminates(),
        m is Call || m is CallInd || m is TailCall ==> m.terminates(),
        m is Return || m is ReturnValue || m is BadInsn ==> m.terminates(),
        m is Load || m is Store || m is Unop || m is Binop || m is Range ==> !m.terminates(),
        m is Zext || m is Sext || m is IntToFloat || m is FloatToFloat || m is FloatToInt
            ==> !m.terminates(),
        m is IsFloatNaN || m is PopCount || m is LzCount || m is Carry || m is SCarry || m is SBorrow
            ==> !m.terminates(),
        m is Assert || m is PCodeOp || m is Intrinsic || m is Tuple || m is Extract || m is Gep
            ==> !m.terminates(),
        m is Apply || m is ArrayMap || m is Scan ==> !m.terminates(),
        m.shape().terminates() == m.terminates(),
{
}

/// Only what computes a value from its operands, or reads one, can be dropped
/// where nothing uses the value.
pub proof fn law_what_only_computes_can_be_dropped(m: Mnemonic)
    ensures
        m.terminates() ==> m.is_kept(),
        m is Store || m is Assert || m is PCodeOp ==> m.is_kept(),
        m is Load || m is Unop || m is Binop || m is Range || m is Zext || m is Sext
            ==> !m.is_kept(),
        m is IntToFloat || m is FloatToFloat || m is FloatToInt || m is IsFloatNaN ==> !m.is_kept(),
        m is PopCount || m is LzCount || m is Carry || m is SCarry || m is SBorrow ==> !m.is_kept(),
        m is Intrinsic || m is Tuple || m is Extract || m is Gep ==> !m.is_kept(),
        m is Apply || m is ArrayMap || m is Scan ==> !m.is_kept(),
{
}

/// The blocks an operation can go to are those its fields name: one for a
/// branch, two for a conditional one, and one for each arm of a switch and for
/// its default.
pub proof fn law_targets_are_those_the_fields_name(m: Mnemonic, k: int)
    requires
        0 <= k,
    ensures
        ({
            let targets = m.branch_targets();
            match m {
                Mnemonic::Branch(x) => targets.len() == 1 && targets[0] == x.target,
                Mnemonic::CBranch(x) => targets.len() == 2 && targets[0] == x.success_block
                    && targets[1] == x.failure_block,
                Mnemonic::Switch(x) => {
                    let n = x.cases@.len();
                    &&& k < n ==> targets[k] == x.cases@[k].target
                    &&& x.default matches Some(block) ==> targets.len() == n + 1 && targets[n as int]
                        == block
                    &&& x.default is None ==> targets.len() == n
                },
                _ => targets.len() == 0,
            }
        }),
{
}

/// An operation names the function in its field: an installed one is called, and
/// of a placeholder the slot is known. Operations without such a field name
/// none.
pub proof fn law_the_field_names_the_function(m: Mnemonic, f: FunctionId, slot: u32)
    ensures
        m matches Mnemonic::Call(x) ==> {
            &&& m.called() == Some(f) <==> x.target == Callee::Real(f)
            &&& m.placeholder() == Some(slot) <==> x.target == Callee::Minted(slot)
        },
        m matches Mnemonic::TailCall(x) ==> {
            &&& m.called() == Some(f) <==> x.target == Callee::Real(f)
            &&& m.placeholder() == Some(slot) <==> x.target == Callee::Minted(slot)
        },
        m matches Mnemonic::Apply(x) ==> {
            &&& m.called() == Some(f) <==> x.target == Callee::Real(f)
            &&& m.placeholder() == Some(slot) <==> x.target == Callee::Minted(slot)
        },
        m matches Mnemonic::ArrayMap(x) ==> {
            &&& m.called() == Some(f) <==> x.body == Callee::Real(f)
            &&& m.placeholder() == Some(slot) <==> x.body == Callee::Minted(slot)
        },
        m matches Mnemonic::Scan(x) ==> {
            &&& m.called() == Some(f) <==> x.body == Callee::Real(f)
            &&& m.placeholder() == Some(slot) <==> x.body == Callee::Minted(slot)
        },
        !(m is Call) && !(m is TailCall) && !(m is Apply) && !(m is ArrayMap) && !(m is Scan)
            ==> m.called() is None && m.placeholder() is None,
{
}

} // verus!
