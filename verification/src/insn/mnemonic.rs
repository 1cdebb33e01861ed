//! The closed set of operations, and the order of their operands.
//!
//! A [`Mnemonic`] is seen as two things: its *shape*, which is the operation
//! with everything that is not an operand value, and its *operands*, in one
//! canonical order. An operand's position in that order is its index, and
//! means the same everywhere: a use edge names an operand by it. Callees,
//! branch targets and memory spaces are no operands, nor is the result slot
//! of a user-defined operation.

use crate::ids::{FunctionId, LocalBlockId, PCodeOpId};
use crate::insn::aggregate::{Extract, Gep, Tuple};
use crate::insn::assertion::Assert;
use crate::insn::binop::{Binary, Binop};
use crate::insn::casting::{FloatToFloat, FloatToInt, IntToFloat, Range, Sext, Zext};
use crate::insn::flags::{Carry, IsFloatNaN, LzCount, PopCount, SBorrow, SCarry};
use crate::insn::intrinsic::{IntrinsicApp, IntrinsicId};
use crate::insn::memory::{Load, Store};
use crate::insn::pcode_op::PCodeOp;
use crate::insn::sequence::{ArrayMap, Scan};
use crate::insn::terminator::{
    Apply, BadInsn, Branch, BranchInd, CBranch, Call, CallInd, CallTag, Callee, Return, ReturnValue,
    Switch, SwitchArm, TailCall,
};
use crate::insn::unop::{Unary, Unop};
use crate::small::{id_items, small_limit, Args, IdVec};
use crate::space::LocalMemorySpaceId;
use crate::value::LocalValueId;
use vstd::prelude::*;

verus! {

/// The operation of an instruction.
#[derive(Debug)]
pub enum Mnemonic {
    /// Load a value from a memory space.
    Load(Load),
    /// Store a value to a memory space.
    Store(Store),
    /// Branch to a block.
    Branch(Branch),
    /// Branch to one of two blocks.
    CBranch(CBranch),
    /// Branch to a computed address.
    BranchInd(BranchInd),
    /// Branch to one of many blocks.
    Switch(Switch),
    /// Call a function.
    Call(Call),
    /// Leave for another function.
    TailCall(TailCall),
    /// Apply a lambda.
    Apply(Apply),
    /// Call a computed address.
    CallInd(CallInd),
    /// Return to an address.
    Return(Return),
    /// Return from a lambda.
    ReturnValue(ReturnValue),
    /// Bytes that do not decode.
    BadInsn(BadInsn),
    /// A unary operation.
    Unop(Unary),
    /// A binary operation.
    Binop(Binary),
    /// Extract a range of bytes.
    Range(Range),
    /// Convert an integer to a float.
    IntToFloat(IntToFloat),
    /// Convert a float to another width.
    FloatToFloat(FloatToFloat),
    /// Convert a float to an integer.
    FloatToInt(FloatToInt),
    /// Zero-extend.
    Zext(Zext),
    /// Sign-extend.
    Sext(Sext),
    /// Test for a NaN.
    IsFloatNaN(IsFloatNaN),
    /// Count the set bits.
    PopCount(PopCount),
    /// Count the leading zeros.
    LzCount(LzCount),
    /// Unsigned addition carry.
    Carry(Carry),
    /// Signed addition overflow.
    SCarry(SCarry),
    /// Signed subtraction overflow.
    SBorrow(SBorrow),
    /// Declare that a condition holds.
    Assert(Assert),
    /// A user-defined operation.
    PCodeOp(PCodeOp),
    /// A pure named function.
    Intrinsic(IntrinsicApp),
    /// Build an aggregate.
    Tuple(Tuple),
    /// Project a field of an aggregate.
    Extract(Extract),
    /// The address of a struct field.
    Gep(Gep),
    /// Map over an array.
    ArrayMap(ArrayMap),
    /// Scan over an array.
    Scan(Scan),
}

/// One arm of a switch, with the number of its arguments in place of them.
pub struct ArmShape {
    pub value: u64,
    pub target: LocalBlockId,
    pub args: nat,
}

/// An operation with everything but the values of its operands; an operand
/// list stands by its length.
#[allow(inconsistent_fields)]
pub enum Shape {
    Load { space: LocalMemorySpaceId, size: usize },
    Store { space: LocalMemorySpaceId, size: usize },
    Branch { target: LocalBlockId, args: nat },
    CBranch {
        success_block: LocalBlockId,
        success_args: nat,
        failure_block: LocalBlockId,
        failure_args: nat,
    },
    BranchInd,
    Switch { cases: Seq<ArmShape>, default: Option<LocalBlockId>, default_args: nat },
    Call { target: Callee, args: nat, clobbers: Seq<LocalValueId>, tag: CallTag },
    TailCall { target: Callee, args: nat },
    Apply { target: Callee, args: nat },
    CallInd { args: nat },
    Return { value: bool },
    ReturnValue,
    BadInsn,
    Unop { op: Unop },
    Binop { op: Binop },
    Range { start: usize, size: usize },
    IntToFloat { size: usize },
    FloatToFloat { size: usize },
    FloatToInt { size: usize },
    Zext { size: usize },
    Sext { size: usize },
    IsFloatNaN,
    PopCount,
    LzCount,
    Carry,
    SCarry,
    SBorrow,
    Assert,
    PCodeOp { id: PCodeOpId, args: nat, dst: Option<LocalValueId> },
    Intrinsic { id: IntrinsicId, args: nat },
    Tuple { fields: nat },
    Extract { index: usize },
    Gep { offset: usize },
    ArrayMap { body: Callee, captures: nat },
    Scan { body: Callee, captures: nat },
}

impl Shape {
    /// Whether an operation of this shape ends its block.
    pub open spec fn terminates(self) -> bool {
        self is Branch || self is CBranch || self is BranchInd || self is Switch || self is Call
            || self is TailCall || self is CallInd || self is Return || self is ReturnValue
            || self is BadInsn
    }
}

/// What a mnemonic is: its shape and its operands in canonical order. The two
/// determine it.
pub struct MnemonicView {
    pub shape: Shape,
    pub operands: Seq<LocalValueId>,
}

/// The shapes of the arms of a switch.
pub open spec fn arm_shapes(cases: Seq<SwitchArm>) -> Seq<ArmShape> {
    cases.map_values(
        |arm: SwitchArm| ArmShape { value: arm.value, target: arm.target, args: arm.args@.len() },
    )
}

/// The arguments of all arms of a switch, arm by arm.
pub open spec fn arm_operands(cases: Seq<SwitchArm>) -> Seq<LocalValueId>
    decreases cases.len(),
{
    if cases.len() == 0 {
        Seq::empty()
    } else {
        arm_operands(cases.drop_last()) + cases.last().args@
    }
}

/// An optional operand as a sequence.
pub open spec fn option_operand(value: Option<LocalValueId>) -> Seq<LocalValueId> {
    match value {
        Some(v) => seq![v],
        None => Seq::empty(),
    }
}

impl View for Mnemonic {
    type V = MnemonicView;

    open spec fn view(&self) -> MnemonicView {
        MnemonicView { shape: self.shape(), operands: self.operands() }
    }
}

impl Mnemonic {
    /// The operation without the values of its operands.
    pub open spec fn shape(&self) -> Shape {
        match self {
            Mnemonic::Load(m) => Shape::Load { space: m.space, size: m.size },
            Mnemonic::Store(m) => Shape::Store { space: m.space, size: m.size },
            Mnemonic::Branch(m) => Shape::Branch { target: m.target, args: m.args@.len() },
            Mnemonic::CBranch(m) => Shape::CBranch {
                success_block: m.success_block,
                success_args: m.success_args@.len(),
                failure_block: m.failure_block,
                failure_args: m.failure_args@.len(),
            },
            Mnemonic::BranchInd(_) => Shape::BranchInd,
            Mnemonic::Switch(m) => Shape::Switch {
                cases: arm_shapes(m.cases@),
                default: m.default,
                default_args: m.default_args@.len(),
            },
            Mnemonic::Call(m) => Shape::Call {
                target: m.target,
                args: m.args@.len(),
                clobbers: m.clobbers@,
                tag: m.tag,
            },
            Mnemonic::TailCall(m) => Shape::TailCall { target: m.target, args: m.args@.len() },
            Mnemonic::Apply(m) => Shape::Apply { target: m.target, args: m.args@.len() },
            Mnemonic::CallInd(m) => Shape::CallInd { args: m.args@.len() },
            Mnemonic::Return(m) => Shape::Return { value: m.value is Some },
            Mnemonic::ReturnValue(_) => Shape::ReturnValue,
            Mnemonic::BadInsn(_) => Shape::BadInsn,
            Mnemonic::Unop(m) => Shape::Unop { op: m.op },
            Mnemonic::Binop(m) => Shape::Binop { op: m.op },
            Mnemonic::Range(m) => Shape::Range { start: m.start, size: m.size },
            Mnemonic::IntToFloat(m) => Shape::IntToFloat { size: m.size },
            Mnemonic::FloatToFloat(m) => Shape::FloatToFloat { size: m.size },
            Mnemonic::FloatToInt(m) => Shape::FloatToInt { size: m.size },
            Mnemonic::Zext(m) => Shape::Zext { size: m.size },
            Mnemonic::Sext(m) => Shape::Sext { size: m.size },
            Mnemonic::IsFloatNaN(_) => Shape::IsFloatNaN,
            Mnemonic::PopCount(_) => Shape::PopCount,
            Mnemonic::LzCount(_) => Shape::LzCount,
            Mnemonic::Carry(_) => Shape::Carry,
            Mnemonic::SCarry(_) => Shape::SCarry,
            Mnemonic::SBorrow(_) => Shape::SBorrow,
            Mnemonic::Assert(_) => Shape::Assert,
            Mnemonic::PCodeOp(m) => Shape::PCodeOp { id: m.id, args: m.args@.len(), dst: m.dst },
            Mnemonic::Intrinsic(m) => Shape::Intrinsic { id: m.id, args: m.args@.len() },
            Mnemonic::Tuple(m) => Shape::Tuple { fields: m.fields@.len() },
            Mnemonic::Extract(m) => Shape::Extract { index: m.index },
            Mnemonic::Gep(m) => Shape::Gep { offset: m.offset },
            Mnemonic::ArrayMap(m) => Shape::ArrayMap { body: m.body, captures: m.captures@.len() },
            Mnemonic::Scan(m) => Shape::Scan { body: m.body, captures: m.captures@.len() },
        }
    }

    /// The operands, in canonical order.
    pub open spec fn operands(&self) -> Seq<LocalValueId> {
        match self {
            Mnemonic::Load(m) => seq![m.ptr],
            Mnemonic::Store(m) => seq![m.ptr, m.src],
            Mnemonic::Branch(m) => m.args@,
            Mnemonic::CBranch(m) => seq![m.condition] + m.success_args@ + m.failure_args@,
            Mnemonic::BranchInd(m) => seq![m.ptr],
            Mnemonic::Switch(m) => seq![m.scrutinee] + arm_operands(m.cases@) + m.default_args@,
            Mnemonic::Call(m) => m.args@,
            Mnemonic::TailCall(m) => m.args@,
            Mnemonic::Apply(m) => m.args@,
            Mnemonic::CallInd(m) => seq![m.ptr] + m.args@,
            Mnemonic::Return(m) => seq![m.ptr] + option_operand(m.value),
            Mnemonic::ReturnValue(m) => seq![m.value],
            Mnemonic::BadInsn(_) => Seq::empty(),
            Mnemonic::Unop(m) => seq![m.src],
            Mnemonic::Binop(m) => seq![m.lhs, m.rhs],
            Mnemonic::Range(m) => seq![m.src],
            Mnemonic::IntToFloat(m) => seq![m.src],
            Mnemonic::FloatToFloat(m) => seq![m.src],
            Mnemonic::FloatToInt(m) => seq![m.src],
            Mnemonic::Zext(m) => seq![m.src],
            Mnemonic::Sext(m) => seq![m.src],
            Mnemonic::IsFloatNaN(m) => seq![m.src],
            Mnemonic::PopCount(m) => seq![m.src],
            Mnemonic::LzCount(m) => seq![m.src],
            Mnemonic::Carry(m) => seq![m.lhs, m.rhs],
            Mnemonic::SCarry(m) => seq![m.lhs, m.rhs],
            Mnemonic::SBorrow(m) => seq![m.lhs, m.rhs],
            Mnemonic::Assert(m) => seq![m.condition],
            Mnemonic::PCodeOp(m) => m.args@,
            Mnemonic::Intrinsic(m) => m.args@,
            Mnemonic::Tuple(m) => m.fields@,
            Mnemonic::Extract(m) => seq![m.agg],
            Mnemonic::Gep(m) => seq![m.base],
            Mnemonic::ArrayMap(m) => seq![m.src] + m.captures@,
            Mnemonic::Scan(m) => seq![m.init, m.src] + m.captures@,
        }
    }

    /// Whether the instruction ends its block.
    pub open spec fn terminates(&self) -> bool {
        self is Branch || self is CBranch || self is BranchInd || self is Switch || self is Call
            || self is TailCall || self is CallInd || self is Return || self is ReturnValue
            || self is BadInsn
    }

    /// The function the operation names, as an installed function or as a
    /// placeholder.
    pub open spec fn callee(&self) -> Option<Callee> {
        match self {
            Mnemonic::Call(m) => Some(m.target),
            Mnemonic::TailCall(m) => Some(m.target),
            Mnemonic::Apply(m) => Some(m.target),
            Mnemonic::ArrayMap(m) => Some(m.body),
            Mnemonic::Scan(m) => Some(m.body),
            _ => None,
        }
    }

    /// The installed function the operation names.
    pub open spec fn called(&self) -> Option<FunctionId> {
        match self.callee() {
            Some(callee) => callee.real_function(),
            None => None,
        }
    }

    /// The placeholder the operation names.
    pub open spec fn placeholder(&self) -> Option<u32> {
        match self.callee() {
            Some(callee) => callee.minted_slot(),
            None => None,
        }
    }

    /// Whether the operation must be kept even if nothing uses its result.
    pub open spec fn is_kept(&self) -> bool {
        self is Store || self is PCodeOp || self is Assert || self.terminates()
    }

    /// The blocks the operation branches to, in order: every arm's target,
    /// then the default's.
    pub open spec fn branch_targets(&self) -> Seq<LocalBlockId> {
        match self {
            Mnemonic::Branch(m) => seq![m.target],
            Mnemonic::CBranch(m) => seq![m.success_block, m.failure_block],
            Mnemonic::Switch(m) => m.cases@.map_values(|arm: SwitchArm| arm.target) + (
            match m.default {
                Some(block) => seq![block],
                None => Seq::empty(),
            }),
            _ => Seq::empty(),
        }
    }

    /// Returns `true` if this instruction ends a basic block.
    pub fn is_terminator(&self) -> (b: bool)
        ensures
            b == self.terminates(),
    {
        matches!(
            self,
            Mnemonic::Branch(_) | Mnemonic::CBranch(_) | Mnemonic::BranchInd(_)
                | Mnemonic::Switch(_) | Mnemonic::Call(_) | Mnemonic::TailCall(_)
                | Mnemonic::CallInd(_) | Mnemonic::Return(_) | Mnemonic::ReturnValue(_)
                | Mnemonic::BadInsn(_)
        )
    }

    /// Whether an instruction must be kept even if nothing uses its result:
    /// it writes memory, transfers control, calls, asserts, or invokes an
    /// opaque operation.
    pub fn has_side_effects(&self) -> (b: bool)
        ensures
            b == (self is Store || self is PCodeOp || self is Assert || self.terminates()),
            b == self.is_kept(),
    {
        matches!(
            self,
            Mnemonic::Store(_) | Mnemonic::Call(_) | Mnemonic::CallInd(_) | Mnemonic::PCodeOp(_)
                | Mnemonic::Assert(_)
        ) || self.is_terminator()
    }

    /// The installed function the operation names directly, if any.
    pub fn call_target(&self) -> (id: Option<FunctionId>)
        ensures
            id == (match self.callee() {
                Some(callee) => callee.real_function(),
                None => None,
            }),
            id == self.called(),
    {
        match self {
            Mnemonic::Call(call) => call.target.as_real(),
            Mnemonic::TailCall(call) => call.target.as_real(),
            Mnemonic::Apply(apply) => apply.target.as_real(),
            Mnemonic::ArrayMap(map) => map.body.as_real(),
            Mnemonic::Scan(scan) => scan.body.as_real(),
            _ => None,
        }
    }

    /// The unresolved callee placeholder the operation names, if any.
    pub fn minted_callee_slot(&self) -> (slot: Option<u32>)
        ensures
            slot == (match self.callee() {
                Some(callee) => callee.minted_slot(),
                None => None,
            }),
            slot == self.placeholder(),
    {
        match self {
            Mnemonic::Call(call) => call.target.minted(),
            Mnemonic::TailCall(call) => call.target.minted(),
            Mnemonic::Apply(apply) => apply.target.minted(),
            Mnemonic::ArrayMap(map) => map.body.minted(),
            Mnemonic::Scan(scan) => scan.body.minted(),
            _ => None,
        }
    }

    /// The operands of this mnemonic, in canonical order.
    pub fn args(&self) -> (args: Args)
        requires
            self.operands().len() < small_limit(),
        ensures
            args@ == self.operands(),
    {
        let mut args = Args::empty();
        match self {
            Mnemonic::Load(m) => {
                args.append(m.ptr);
            },
            Mnemonic::Store(m) => {
                args.append(m.ptr);
                args.append(m.src);
            },
            Mnemonic::Branch(m) => {
                append_all(&mut args, &m.args);
            },
            Mnemonic::CBranch(m) => {
                args.append(m.condition);
                append_all(&mut args, &m.success_args);
                append_all(&mut args, &m.failure_args);
            },
            Mnemonic::BranchInd(m) => {
                args.append(m.ptr);
            },
            Mnemonic::Switch(m) => {
                args.append(m.scrutinee);
                let n: usize = m.cases.len();
                let mut k: usize = 0;
                while k < n
                    invariant
                        n == m.cases@.len(),
                        k <= n,
                        self.operands().len() < small_limit(),
                        self.operands() == seq![m.scrutinee] + arm_operands(m.cases@)
                            + m.default_args@,
                        args@ == seq![m.scrutinee] + arm_operands(m.cases@.take(k as int)),
                    decreases n - k,
                {
                    proof {
                        lemma_arm_operands_split(m.cases@, k as int);
                    }
                    append_all(&mut args, &m.cases[k].args);
                    k = k + 1;
                    proof {
                        assert(args@ =~= seq![m.scrutinee] + arm_operands(m.cases@.take(k as int)));
                    }
                }
                proof {
                    assert(m.cases@.take(n as int) =~= m.cases@);
                }
                append_all(&mut args, &m.default_args);
            },
            Mnemonic::Call(m) => {
                append_all(&mut args, &m.args);
            },
            Mnemonic::TailCall(m) => {
                append_all(&mut args, &m.args);
            },
            Mnemonic::Apply(m) => {
                append_all(&mut args, &m.args);
            },
            Mnemonic::CallInd(m) => {
                args.append(m.ptr);
                append_all(&mut args, &m.args);
            },
            Mnemonic::Return(m) => {
                args.append(m.ptr);
                if let Some(value) = m.value {
                    args.append(value);
                }
            },
            Mnemonic::ReturnValue(m) => {
                args.append(m.value);
            },
            Mnemonic::BadInsn(_) => {},
            Mnemonic::Unop(m) => {
                args.append(m.src);
            },
            Mnemonic::Binop(m) => {
                args.append(m.lhs);
                args.append(m.rhs);
            },
            Mnemonic::Range(m) => {
                args.append(m.src);
            },
            Mnemonic::IntToFloat(m) => {
                args.append(m.src);
            },
            Mnemonic::FloatToFloat(m) => {
                args.append(m.src);
            },
            Mnemonic::FloatToInt(m) => {
                args.append(m.src);
            },
            Mnemonic::Zext(m) => {
                args.append(m.src);
            },
            Mnemonic::Sext(m) => {
                args.append(m.src);
            },
            Mnemonic::IsFloatNaN(m) => {
                args.append(m.src);
            },
            Mnemonic::PopCount(m) => {
                args.append(m.src);
            },
            Mnemonic::LzCount(m) => {
                args.append(m.src);
            },
            Mnemonic::Carry(m) => {
                args.append(m.lhs);
                args.append(m.rhs);
            },
            Mnemonic::SCarry(m) => {
                args.append(m.lhs);
                args.append(m.rhs);
            },
            Mnemonic::SBorrow(m) => {
                args.append(m.lhs);
                args.append(m.rhs);
            },
            Mnemonic::Assert(m) => {
                args.append(m.condition);
            },
            Mnemonic::PCodeOp(m) => {
                append_all(&mut args, &m.args);
            },
            Mnemonic::Intrinsic(m) => {
                append_all(&mut args, &m.args);
            },
            Mnemonic::Tuple(m) => {
                append_all(&mut args, &m.fields);
            },
            Mnemonic::Extract(m) => {
                args.append(m.agg);
            },
            Mnemonic::Gep(m) => {
                args.append(m.base);
            },
            Mnemonic::ArrayMap(m) => {
                args.append(m.src);
                append_all(&mut args, &m.captures);
            },
            Mnemonic::Scan(m) => {
                args.append(m.init);
                args.append(m.src);
                append_all(&mut args, &m.captures);
            },
        }
        proof {
            assert(args@ =~= self.operands());
        }
        args
    }

    /// The operand at `index` in canonical order, if there is one.
    pub fn operand(&self, index: usize) -> (value: Option<LocalValueId>)
        ensures
            value == (if index < self.operands().len() {
                Some(self.operands()[index as int])
            } else {
                None
            }),
    {
        match self {
            Mnemonic::Load(m) => {
                if index == 0 {
                    return Some(m.ptr);
                }
                None
            },
            Mnemonic::Store(m) => {
                if index == 0 {
                    return Some(m.ptr);
                }
                if index == 1 {
                    return Some(m.src);
                }
                None
            },
            Mnemonic::Branch(m) => {
                list_operand(&m.args, index)
            },
            Mnemonic::CBranch(m) => {
                if index == 0 {
                    return Some(m.condition);
                }
                let rest: usize = index - 1;
                let split: usize = m.success_args.len();
                if rest < split {
                    Some(m.success_args[rest])
                } else {
                    list_operand(&m.failure_args, rest - split)
                }
            },
            Mnemonic::BranchInd(m) => {
                if index == 0 {
                    return Some(m.ptr);
                }
                None
            },
            Mnemonic::Switch(m) => {
                if index == 0 {
                    return Some(m.scrutinee);
                }
                let mut rest: usize = index - 1;
                let n: usize = m.cases.len();
                let mut k: usize = 0;
                while k < n
                    invariant
                        n == m.cases@.len(),
                        k <= n,
                        index > 0,
                        self.operands() == seq![m.scrutinee] + arm_operands(m.cases@)
                            + m.default_args@,
                        index == 1 + arm_operands(m.cases@.take(k as int)).len() + rest,
                    decreases n - k,
                {
                    proof {
                        lemma_arm_operands_split(m.cases@, k as int);
                    }
                    let len: usize = m.cases[k].args.len();
                    if rest < len {
                        proof {
                            let upto = arm_operands(m.cases@.take(k + 1));
                            assert(arm_operands(m.cases@)[index - 1] == upto[index - 1]);
                        }
                        return Some(m.cases[k].args[rest]);
                    }
                    rest = rest - len;
                    k = k + 1;
                }
                proof {
                    assert(m.cases@.take(n as int) =~= m.cases@);
                }
                list_operand(&m.default_args, rest)
            },
            Mnemonic::Call(m) => {
                list_operand(&m.args, index)
            },
            Mnemonic::TailCall(m) => {
                list_operand(&m.args, index)
            },
            Mnemonic::Apply(m) => {
                list_operand(&m.args, index)
            },
            Mnemonic::CallInd(m) => {
                if index == 0 {
                    return Some(m.ptr);
                }
                list_operand(&m.args, index - 1)
            },
            Mnemonic::Return(m) => {
                if index == 0 {
                    return Some(m.ptr);
                }
                if index == 1 {
                    m.value
                } else {
                    None
                }
            },
            Mnemonic::ReturnValue(m) => {
                if index == 0 {
                    return Some(m.value);
                }
                None
            },
            Mnemonic::BadInsn(_) => None,
            Mnemonic::Unop(m) => {
                if index == 0 {
                    return Some(m.src);
                }
                None
            },
            Mnemonic::Binop(m) => {
                if index == 0 {
                    return Some(m.lhs);
                }
                if index == 1 {
                    return Some(m.rhs);
                }
                None
            },
            Mnemonic::Range(m) => {
                if index == 0 {
                    return Some(m.src);
                }
                None
            },
            Mnemonic::IntToFloat(m) => {
                if index == 0 {
                    return Some(m.src);
                }
                None
            },
            Mnemonic::FloatToFloat(m) => {
                if index == 0 {
                    return Some(m.src);
                }
                None
            },
            Mnemonic::FloatToInt(m) => {
                if index == 0 {
                    return Some(m.src);
                }
                None
            },
            Mnemonic::Zext(m) => {
                if index == 0 {
                    return Some(m.src);
                }
                None
            },
            Mnemonic::Sext(m) => {
                if index == 0 {
                    return Some(m.src);
                }
                None
            },
            Mnemonic::IsFloatNaN(m) => {
                if index == 0 {
                    return Some(m.src);
                }
                None
            },
            Mnemonic::PopCount(m) => {
                if index == 0 {
                    return Some(m.src);
                }
                None
            },
            Mnemonic::LzCount(m) => {
                if index == 0 {
                    return Some(m.src);
                }
                None
            },
            Mnemonic::Carry(m) => {
                if index == 0 {
                    return Some(m.lhs);
                }
                if index == 1 {
                    return Some(m.rhs);
                }
                None
            },
            Mnemonic::SCarry(m) => {
                if index == 0 {
                    return Some(m.lhs);
                }
                if index == 1 {
                    return Some(m.rhs);
                }
                None
            },
            Mnemonic::SBorrow(m) => {
                if index == 0 {
                    return Some(m.lhs);
                }
                if index == 1 {
                    return Some(m.rhs);
                }
                None
            },
            Mnemonic::Assert(m) => {
                if index == 0 {
                    return Some(m.condition);
                }
                None
            },
            Mnemonic::PCodeOp(m) => {
                list_operand(&m.args, index)
            },
            Mnemonic::Intrinsic(m) => {
                list_operand(&m.args, index)
            },
            Mnemonic::Tuple(m) => {
                list_operand(&m.fields, index)
            },
            Mnemonic::Extract(m) => {
                if index == 0 {
                    return Some(m.agg);
                }
                None
            },
            Mnemonic::Gep(m) => {
                if index == 0 {
                    return Some(m.base);
                }
                None
            },
            Mnemonic::ArrayMap(m) => {
                if index == 0 {
                    return Some(m.src);
                }
                list_operand(&m.captures, index - 1)
            },
            Mnemonic::Scan(m) => {
                if index == 0 {
                    return Some(m.init);
                }
                if index == 1 {
                    return Some(m.src);
                }
                list_operand(&m.captures, index - 2)
            },
        }
    }

    /// Sets the operand at `index` in canonical order, which must exist.
    pub fn set_operand(&mut self, index: usize, value: LocalValueId)
        requires
            index < old(self).operands().len(),
        ensures
            final(self).shape() == old(self).shape(),
            final(self).operands() == old(self).operands().update(index as int, value),
    {
        match self {
            Mnemonic::Load(m) => {
                m.ptr = value;
            },
            Mnemonic::Store(m) => {
                if index == 0 {
                    m.ptr = value;
                } else {
                    m.src = value;
                }
            },
            Mnemonic::Branch(m) => {
                m.args.set(index, value);
            },
            Mnemonic::CBranch(m) => {
                if index == 0 {
                    m.condition = value;
                } else {
                    let rest: usize = index - 1;
                    let split: usize = m.success_args.len();
                    if rest < split {
                        m.success_args.set(rest, value);
                    } else {
                        m.failure_args.set(rest - split, value);
                    }
                }
            },
            Mnemonic::BranchInd(m) => {
                m.ptr = value;
            },
            Mnemonic::Switch(m) => set_switch_operand(m, index, value),
            Mnemonic::Call(m) => {
                m.args.set(index, value);
            },
            Mnemonic::TailCall(m) => {
                m.args.set(index, value);
            },
            Mnemonic::Apply(m) => {
                m.args.set(index, value);
            },
            Mnemonic::CallInd(m) => {
                if index == 0 {
                    m.ptr = value;
                } else {
                    m.args.set(index - 1, value);
                }
            },
            Mnemonic::Return(m) => {
                if index == 0 {
                    m.ptr = value;
                } else {
                    m.value = Some(value);
                }
            },
            Mnemonic::ReturnValue(m) => {
                m.value = value;
            },
            Mnemonic::BadInsn(_) => {},
            Mnemonic::Unop(m) => {
                m.src = value;
            },
            Mnemonic::Binop(m) => {
                if index == 0 {
                    m.lhs = value;
                } else {
                    m.rhs = value;
                }
            },
            Mnemonic::Range(m) => {
                m.src = value;
            },
            Mnemonic::IntToFloat(m) => {
                m.src = value;
            },
            Mnemonic::FloatToFloat(m) => {
                m.src = value;
            },
            Mnemonic::FloatToInt(m) => {
                m.src = value;
            },
            Mnemonic::Zext(m) => {
                m.src = value;
            },
            Mnemonic::Sext(m) => {
                m.src = value;
            },
            Mnemonic::IsFloatNaN(m) => {
                m.src = value;
            },
            Mnemonic::PopCount(m) => {
                m.src = value;
            },
            Mnemonic::LzCount(m) => {
                m.src = value;
            },
            Mnemonic::Carry(m) => {
                if index == 0 {
                    m.lhs = value;
                } else {
                    m.rhs = value;
                }
            },
            Mnemonic::SCarry(m) => {
                if index == 0 {
                    m.lhs = value;
                } else {
                    m.rhs = value;
                }
            },
            Mnemonic::SBorrow(m) => {
                if index == 0 {
                    m.lhs = value;
                } else {
                    m.rhs = value;
                }
            },
            Mnemonic::Assert(m) => {
                m.condition = value;
            },
            Mnemonic::PCodeOp(m) => {
                m.args.set(index, value);
            },
            Mnemonic::Intrinsic(m) => {
                m.args.set(index, value);
            },
            Mnemonic::Tuple(m) => {
                m.fields.set(index, value);
            },
            Mnemonic::Extract(m) => {
                m.agg = value;
            },
            Mnemonic::Gep(m) => {
                m.base = value;
            },
            Mnemonic::ArrayMap(m) => {
                if index == 0 {
                    m.src = value;
                } else {
                    m.captures.set(index - 1, value);
                }
            },
            Mnemonic::Scan(m) => {
                if index == 0 {
                    m.init = value;
                } else if index == 1 {
                    m.src = value;
                } else {
                    m.captures.set(index - 2, value);
                }
            },
        }
        proof {
            assert(self.operands() =~= old(self).operands().update(index as int, value));
        }
    }
}

/// `shape` with the result slot `from` of a user-defined operation set to `to`.
pub open spec fn with_result_slot(shape: Shape, from: LocalValueId, to: LocalValueId) -> Shape {
    match shape {
        Shape::PCodeOp { id, args, dst } => Shape::PCodeOp {
            id,
            args,
            dst: if dst == Some(from) {
                Some(to)
            } else {
                dst
            },
        },
        _ => shape,
    }
}

/// `value`, or `to` where it is `from`.
pub open spec fn substituted(value: LocalValueId, from: LocalValueId, to: LocalValueId) -> LocalValueId {
    if value == from {
        to
    } else {
        value
    }
}

/// `shape` naming the function `callee` where it names one.
pub open spec fn with_callee(shape: Shape, callee: Callee) -> Shape {
    match shape {
        Shape::Call { target, args, clobbers, tag } => Shape::Call {
            target: callee,
            args,
            clobbers,
            tag,
        },
        Shape::TailCall { target, args } => Shape::TailCall { target: callee, args },
        Shape::Apply { target, args } => Shape::Apply { target: callee, args },
        Shape::ArrayMap { body, captures } => Shape::ArrayMap { body: callee, captures },
        Shape::Scan { body, captures } => Shape::Scan { body: callee, captures },
        _ => shape,
    }
}

impl Mnemonic {
    /// How many operands this mnemonic has.
    pub fn operand_count(&self) -> (count: usize)
        requires
            self.operands().len() <= usize::MAX,
        ensures
            count == self.operands().len(),
    {
        let mut count: usize = 0;
        while self.operand(count).is_some()
            invariant
                count <= self.operands().len() <= usize::MAX,
            decreases self.operands().len() - count,
        {
            count = count + 1;
        }
        count
    }

    /// Replaces every occurrence of `from` with `to` among the operands, and
    /// in the result slot of a user-defined operation. For a mnemonic that is
    /// not in a body: the operands of an installed instruction are mirrored
    /// by its body's use edges.
    pub fn replace_value(&mut self, from: LocalValueId, to: LocalValueId)
        requires
            old(self).operands().len() <= usize::MAX,
        ensures
            final(self).shape() == with_result_slot(old(self).shape(), from, to),
            final(self).operands() == old(self).operands().map_values(
                |v: LocalValueId| substituted(v, from, to),
            ),
    {
        let n: usize = self.operand_count();
        let mut k: usize = 0;
        while k < n
            invariant
                n == old(self).operands().len(),
                k <= n,
                self.shape() == old(self).shape(),
                self.operands().len() == n,
                forall|j: int|
                    0 <= j < n ==> #[trigger] self.operands()[j] == (if j < k {
                        substituted(old(self).operands()[j], from, to)
                    } else {
                        old(self).operands()[j]
                    }),
            decreases n - k,
        {
            if let Some(value) = self.operand(k) {
                if value == from {
                    self.set_operand(k, to);
                }
            }
            k = k + 1;
        }
        let ghost mapped = self.operands();
        if let Mnemonic::PCodeOp(m) = self {
            if m.dst == Some(from) {
                m.dst = Some(to);
            }
        }
        proof {
            assert(self.operands() =~= mapped);
            assert(mapped =~= old(self).operands().map_values(
                |v: LocalValueId| substituted(v, from, to),
            ));
        }
    }

    /// This mnemonic with every operand replaced by `f` of it.
    pub fn map_operands<F: Fn(LocalValueId) -> LocalValueId>(self, f: F) -> (m: Self)
        requires
            self.operands().len() <= usize::MAX,
            forall|v: LocalValueId| f.requires((v,)),
        ensures
            m.shape() == self.shape(),
            m.operands().len() == self.operands().len(),
            forall|k: int|
                0 <= k < self.operands().len() ==> f.ensures(
                    (#[trigger] self.operands()[k],),
                    m.operands()[k],
                ),
    {
        let mut m = self;
        let n: usize = m.operand_count();
        let mut k: usize = 0;
        while k < n
            invariant
                n == self.operands().len(),
                k <= n,
                m.shape() == self.shape(),
                m.operands().len() == n,
                forall|v: LocalValueId| f.requires((v,)),
                forall|j: int|
                    0 <= j < k ==> f.ensures((#[trigger] self.operands()[j],), m.operands()[j]),
                forall|j: int| k <= j < n ==> m.operands()[j] == #[trigger] self.operands()[j],
            decreases n - k,
        {
            if let Some(value) = m.operand(k) {
                proof {
                    assert(value == self.operands()[k as int]);
                }
                let replacement = f(value);
                m.set_operand(k, replacement);
            }
            k = k + 1;
        }
        m
    }

    /// Resolves the callee placeholder `slot` to the installed function
    /// `function`. Returns whether this mnemonic named that placeholder.
    pub fn resolve_minted_callee(&mut self, slot: u32, function: FunctionId) -> (resolved: bool)
        ensures
            resolved == (old(self).callee() == Some(Callee::Minted(slot))),
            final(self).operands() == old(self).operands(),
            final(self).shape() == (if resolved {
                with_callee(old(self).shape(), Callee::Real(function))
            } else {
                old(self).shape()
            }),
    {
        if self.minted_callee_slot() != Some(slot) {
            return false;
        }
        match self {
            Mnemonic::Call(call) => {
                call.target = Callee::Real(function);
            },
            Mnemonic::TailCall(call) => {
                call.target = Callee::Real(function);
            },
            Mnemonic::Apply(apply) => {
                apply.target = Callee::Real(function);
            },
            Mnemonic::ArrayMap(map) => {
                map.body = Callee::Real(function);
            },
            Mnemonic::Scan(scan) => {
                scan.body = Callee::Real(function);
            },
            _ => {},
        }
        true
    }

    /// The blocks this mnemonic branches to, as local indices: the target of
    /// a branch, both arms of a conditional branch, every arm and the default
    /// of a switch. Empty for everything else.
    pub fn target_blocks(&self) -> (targets: IdVec)
        requires
            self.branch_targets().len() < small_limit(),
        ensures
            id_items(targets) == self.branch_targets().map_values(|b: LocalBlockId| b.0),
    {
        let mut targets = IdVec::empty();
        match self {
            Mnemonic::Branch(m) => targets.append(m.target.0),
            Mnemonic::CBranch(m) => {
                targets.append(m.success_block.0);
                targets.append(m.failure_block.0);
            },
            Mnemonic::Switch(m) => {
                let n: usize = m.cases.len();
                let mut k: usize = 0;
                while k < n
                    invariant
                        n == m.cases@.len(),
                        k <= n,
                        m.cases@.len() < small_limit(),
                        id_items(targets) == m.cases@.take(k as int).map_values(
                            |arm: SwitchArm| arm.target.0,
                        ),
                    decreases n - k,
                {
                    targets.append(m.cases[k].target.0);
                    k = k + 1;
                    proof {
                        assert(id_items(targets) =~= m.cases@.take(k as int).map_values(
                            |arm: SwitchArm| arm.target.0,
                        ));
                    }
                }
                if let Some(block) = m.default {
                    targets.append(block.0);
                }
            },
            _ => {},
        }
        proof {
            assert(id_items(targets) =~= self.branch_targets().map_values(|b: LocalBlockId| b.0));
        }
        targets
    }
}

/// A mnemonic is determined by its shape and its operands: two that agree in
/// both have the same number of operands, end a block alike, and name the
/// same function.
pub proof fn law_the_view_decides(a: Mnemonic, b: Mnemonic)
    requires
        a.shape() == b.shape(),
    ensures
        a.terminates() == b.terminates(),
        a.callee() == b.callee(),
        a.branch_targets() == b.branch_targets(),
        a.operands().len() == b.operands().len(),
{
    if let Mnemonic::Switch(m) = a {
        let n = b->Switch_0;
        assert(arm_shapes(m.cases@).len() == arm_shapes(n.cases@).len());
        lemma_arm_operands_count(m.cases@, n.cases@);
        assert forall|k: int| 0 <= k < m.cases@.len() implies m.cases@[k].target
            == n.cases@[k].target by {
            assert(arm_shapes(m.cases@)[k] == arm_shapes(n.cases@)[k]);
        }
        assert(a.branch_targets() =~= b.branch_targets());
    }
}

/// Arms of the same shapes have as many arguments in all.
proof fn lemma_arm_operands_count(a: Seq<SwitchArm>, b: Seq<SwitchArm>)
    requires
        arm_shapes(a) == arm_shapes(b),
    ensures
        arm_operands(a).len() == arm_operands(b).len(),
    decreases a.len(),
{
    assert(arm_shapes(a).len() == a.len());
    assert(arm_shapes(b).len() == b.len());
    if a.len() > 0 {
        assert(arm_shapes(a.drop_last()) =~= arm_shapes(a).drop_last());
        assert(arm_shapes(b.drop_last()) =~= arm_shapes(b).drop_last());
        assert(arm_shapes(a)[a.len() - 1].args == a.last().args@.len());
        assert(arm_shapes(b)[b.len() - 1].args == b.last().args@.len());
        lemma_arm_operands_count(a.drop_last(), b.drop_last());
    }
}

impl Clone for Mnemonic {
    fn clone(&self) -> (m: Self)
        ensures
            m@ == self@,
    {
        let copy = match self {
            Mnemonic::Load(m) => Mnemonic::Load(*m),
            Mnemonic::Store(m) => Mnemonic::Store(*m),
            Mnemonic::Branch(m) => Mnemonic::Branch(
                Branch {
                    target: m.target,
                    args: copy_values(&m.args),
                },
            ),
            Mnemonic::CBranch(m) => Mnemonic::CBranch(
                CBranch {
                    condition: m.condition,
                    success_block: m.success_block,
                    success_args: copy_values(&m.success_args),
                    failure_block: m.failure_block,
                    failure_args: copy_values(&m.failure_args),
                },
            ),
            Mnemonic::BranchInd(m) => Mnemonic::BranchInd(*m),
            Mnemonic::Switch(m) => Mnemonic::Switch(
                Switch {
                    scrutinee: m.scrutinee,
                    cases: copy_arms(&m.cases),
                    default: m.default,
                    default_args: copy_values(&m.default_args),
                },
            ),
            Mnemonic::Call(m) => Mnemonic::Call(
                Call {
                    target: m.target,
                    args: copy_values(&m.args),
                    clobbers: copy_values(&m.clobbers),
                    tag: m.tag,
                },
            ),
            Mnemonic::TailCall(m) => Mnemonic::TailCall(
                TailCall {
                    target: m.target,
                    args: copy_values(&m.args),
                },
            ),
            Mnemonic::Apply(m) => Mnemonic::Apply(
                Apply {
                    target: m.target,
                    args: copy_values(&m.args),
                },
            ),
            Mnemonic::CallInd(m) => Mnemonic::CallInd(
                CallInd {
                    ptr: m.ptr,
                    args: copy_values(&m.args),
                },
            ),
            Mnemonic::Return(m) => Mnemonic::Return(*m),
            Mnemonic::ReturnValue(m) => Mnemonic::ReturnValue(*m),
            Mnemonic::BadInsn(m) => Mnemonic::BadInsn(*m),
            Mnemonic::Unop(m) => Mnemonic::Unop(*m),
            Mnemonic::Binop(m) => Mnemonic::Binop(*m),
            Mnemonic::Range(m) => Mnemonic::Range(*m),
            Mnemonic::IntToFloat(m) => Mnemonic::IntToFloat(*m),
            Mnemonic::FloatToFloat(m) => Mnemonic::FloatToFloat(*m),
            Mnemonic::FloatToInt(m) => Mnemonic::FloatToInt(*m),
            Mnemonic::Zext(m) => Mnemonic::Zext(*m),
            Mnemonic::Sext(m) => Mnemonic::Sext(*m),
            Mnemonic::IsFloatNaN(m) => Mnemonic::IsFloatNaN(*m),
            Mnemonic::PopCount(m) => Mnemonic::PopCount(*m),
            Mnemonic::LzCount(m) => Mnemonic::LzCount(*m),
            Mnemonic::Carry(m) => Mnemonic::Carry(*m),
            Mnemonic::SCarry(m) => Mnemonic::SCarry(*m),
            Mnemonic::SBorrow(m) => Mnemonic::SBorrow(*m),
            Mnemonic::Assert(m) => Mnemonic::Assert(*m),
            Mnemonic::PCodeOp(m) => Mnemonic::PCodeOp(
                PCodeOp {
                    id: m.id,
                    args: copy_values(&m.args),
                    dst: m.dst,
                },
            ),
            Mnemonic::Intrinsic(m) => Mnemonic::Intrinsic(
                IntrinsicApp {
                    id: m.id,
                    args: copy_values(&m.args),
                },
            ),
            Mnemonic::Tuple(m) => Mnemonic::Tuple(
                Tuple {
                    fields: copy_values(&m.fields),
                },
            ),
            Mnemonic::Extract(m) => Mnemonic::Extract(*m),
            Mnemonic::Gep(m) => Mnemonic::Gep(*m),
            Mnemonic::ArrayMap(m) => Mnemonic::ArrayMap(
                ArrayMap {
                    body: m.body,
                    src: m.src,
                    captures: copy_values(&m.captures),
                },
            ),
            Mnemonic::Scan(m) => Mnemonic::Scan(
                Scan {
                    body: m.body,
                    init: m.init,
                    src: m.src,
                    captures: copy_values(&m.captures),
                },
            ),
        };
        proof {
            assert(copy.operands() =~= self.operands());
            assert(copy.shape() == self.shape());
        }
        copy
    }
}

/// The arguments of the first `k + 1` arms are those of the first `k` and then
/// the next arm's; and no arm has more than all of them together.
proof fn lemma_arm_operands_split(cases: Seq<SwitchArm>, k: int)
    requires
        0 <= k < cases.len(),
    ensures
        arm_operands(cases.take(k + 1)) == arm_operands(cases.take(k)) + cases[k].args@,
        arm_operands(cases.take(k + 1)).len() <= arm_operands(cases).len(),
        forall|j: int|
            0 <= j < arm_operands(cases.take(k + 1)).len() ==> arm_operands(cases)[j]
                == #[trigger] arm_operands(cases.take(k + 1))[j],
    decreases cases.len(),
{
    assert(cases.take(k + 1).drop_last() =~= cases.take(k));
    if k + 1 == cases.len() {
        assert(cases.take(k + 1) =~= cases);
    } else {
        let shorter = cases.drop_last();
        lemma_arm_operands_split(shorter, k);
        assert(shorter.take(k + 1) =~= cases.take(k + 1));
        assert(shorter.take(k) =~= cases.take(k));
    }
}

/// Changing one argument of one arm changes that position of all arms'
/// arguments and no other.
proof fn lemma_arm_operands_update(
    before: Seq<SwitchArm>,
    after: Seq<SwitchArm>,
    k: int,
    j: int,
    value: LocalValueId,
)
    requires
        0 <= k < before.len(),
        before.len() == after.len(),
        forall|i: int| 0 <= i < before.len() && i != k ==> before[i] == after[i],
        0 <= j < before[k].args@.len(),
        after[k].args@ == before[k].args@.update(j, value),
    ensures
        arm_operands(after) == arm_operands(before).update(
            arm_operands(before.take(k)).len() + j,
            value,
        ),
        arm_operands(before.take(k)).len() + j < arm_operands(before).len(),
    decreases before.len(),
{
    if k + 1 == before.len() {
        assert(before.drop_last() =~= before.take(k));
        assert(after.drop_last() =~= before.take(k));
        assert(arm_operands(after) =~= arm_operands(before).update(
            arm_operands(before.take(k)).len() + j,
            value,
        ));
    } else {
        lemma_arm_operands_update(before.drop_last(), after.drop_last(), k, j, value);
        assert(before.drop_last().take(k) =~= before.take(k));
        assert(arm_operands(after) =~= arm_operands(before).update(
            arm_operands(before.take(k)).len() + j,
            value,
        ));
    }
}

/// Appends every value of `values`.
fn append_all(args: &mut Args, values: &Vec<LocalValueId>)
    requires
        old(args)@.len() + values@.len() < small_limit(),
    ensures
        final(args)@ == old(args)@ + values@,
{
    let n: usize = values.len();
    let mut k: usize = 0;
    while k < n
        invariant
            n == values@.len(),
            k <= n,
            args@ == old(args)@ + values@.take(k as int),
            old(args)@.len() + values@.len() < small_limit(),
        decreases n - k,
    {
        args.append(values[k]);
        k = k + 1;
        proof {
            assert(args@ =~= old(args)@ + values@.take(k as int));
        }
    }
    proof {
        assert(values@.take(n as int) =~= values@);
    }
}

fn list_operand(values: &Vec<LocalValueId>, index: usize) -> (value: Option<LocalValueId>)
    ensures
        value == (if index < values@.len() {
            Some(values@[index as int])
        } else {
            None
        }),
{
    if index < values.len() {
        Some(values[index])
    } else {
        None
    }
}

/// A copy of `values`.
pub fn copy_values(values: &Vec<LocalValueId>) -> (copy: Vec<LocalValueId>)
    ensures
        copy@ == values@,
{
    let n: usize = values.len();
    let mut copy: Vec<LocalValueId> = Vec::new();
    let mut k: usize = 0;
    while k < n
        invariant
            n == values@.len(),
            k <= n,
            copy@ == values@.take(k as int),
        decreases n - k,
    {
        copy.push(values[k]);
        k = k + 1;
        proof {
            assert(copy@ =~= values@.take(k as int));
        }
    }
    proof {
        assert(values@.take(n as int) =~= values@);
    }
    copy
}

/// A copy of the arms of a switch.
fn copy_arms(cases: &Vec<SwitchArm>) -> (copy: Vec<SwitchArm>)
    ensures
        arm_shapes(copy@) == arm_shapes(cases@),
        arm_operands(copy@) == arm_operands(cases@),
{
    let n: usize = cases.len();
    let mut copy: Vec<SwitchArm> = Vec::new();
    let mut k: usize = 0;
    while k < n
        invariant
            n == cases@.len(),
            k <= n,
            arm_shapes(copy@) == arm_shapes(cases@.take(k as int)),
            arm_operands(copy@) == arm_operands(cases@.take(k as int)),
        decreases n - k,
    {
        let ghost before = copy@;
        copy.push(
            SwitchArm {
                value: cases[k].value,
                target: cases[k].target,
                args: copy_values(&cases[k].args),
            },
        );
        proof {
            lemma_arm_operands_split(cases@, k as int);
            assert(copy@.drop_last() =~= before);
            assert(arm_shapes(before).len() == before.len());
            assert(arm_shapes(cases@.take(k as int)).len() == k);
            assert(arm_shapes(copy@) =~= arm_shapes(before).push(
                ArmShape {
                    value: cases@[k as int].value,
                    target: cases@[k as int].target,
                    args: cases@[k as int].args@.len(),
                },
            ));
            assert(arm_shapes(cases@.take(k + 1)) =~= arm_shapes(cases@.take(k as int)).push(
                ArmShape {
                    value: cases@[k as int].value,
                    target: cases@[k as int].target,
                    args: cases@[k as int].args@.len(),
                },
            ));
        }
        k = k + 1;
    }
    proof {
        assert(cases@.take(n as int) =~= cases@);
    }
    copy
}

fn set_switch_operand(m: &mut Switch, index: usize, value: LocalValueId)
    requires
        index < 1 + arm_operands(old(m).cases@).len() + old(m).default_args@.len(),
    ensures
        arm_shapes(final(m).cases@) == arm_shapes(old(m).cases@),
        final(m).default == old(m).default,
        final(m).default_args@.len() == old(m).default_args@.len(),
        seq![final(m).scrutinee] + arm_operands(final(m).cases@) + final(m).default_args@ == (seq![
            old(m).scrutinee,
        ] + arm_operands(old(m).cases@) + old(m).default_args@).update(index as int, value),
{
    if index == 0 {
        m.scrutinee = value;
        proof {
            assert(seq![m.scrutinee] + arm_operands(m.cases@) + m.default_args@ =~= (seq![
                old(m).scrutinee,
            ] + arm_operands(old(m).cases@) + old(m).default_args@).update(index as int, value));
        }
        return;
    }
    let mut rest: usize = index - 1;
    let n: usize = m.cases.len();
    let mut k: usize = 0;
    while k < n
        invariant
            *m == *old(m),
            n == m.cases@.len(),
            k <= n,
            index > 0,
            index < 1 + arm_operands(m.cases@).len() + m.default_args@.len(),
            index == 1 + arm_operands(m.cases@.take(k as int)).len() + rest,
        decreases n - k,
    {
        proof {
            lemma_arm_operands_split(m.cases@, k as int);
        }
        let len: usize = m.cases[k].args.len();
        if rest < len {
            m.cases[k].args.set(rest, value);
            proof {
                lemma_arm_operands_update(old(m).cases@, m.cases@, k as int, rest as int, value);
                assert(arm_shapes(m.cases@) =~= arm_shapes(old(m).cases@));
                assert(seq![m.scrutinee] + arm_operands(m.cases@) + m.default_args@ =~= (seq![
                    old(m).scrutinee,
                ] + arm_operands(old(m).cases@) + old(m).default_args@).update(
                    index as int,
                    value,
                ));
            }
            return;
        }
        rest = rest - len;
        k = k + 1;
    }
    proof {
        assert(m.cases@.take(n as int) =~= m.cases@);
    }
    m.default_args.set(rest, value);
    proof {
        assert(seq![m.scrutinee] + arm_operands(m.cases@) + m.default_args@ =~= (seq![
            old(m).scrutinee,
        ] + arm_operands(old(m).cases@) + old(m).default_args@).update(index as int, value));
    }
}

} // verus!
