//! The names of operations.

use crate::insn::intrinsic::IntrinsicTable;
use crate::insn::mnemonic::Mnemonic;
use vstd::prelude::*;

verus! {

/// The name of an operation; an intrinsic has its own.
pub open spec fn opcode_text(m: Mnemonic, intrinsics: IntrinsicTable) -> Seq<char> {
    match m {
        Mnemonic::Load(_) => "load"@,
        Mnemonic::Store(_) => "store"@,
        Mnemonic::Branch(_) => "branch"@,
        Mnemonic::CBranch(_) => "cbranch"@,
        Mnemonic::BranchInd(_) => "branchind"@,
        Mnemonic::Switch(_) => "switch"@,
        Mnemonic::Call(_) => "call"@,
        Mnemonic::TailCall(_) => "tailcall"@,
        Mnemonic::Apply(_) => "apply"@,
        Mnemonic::CallInd(_) => "callind"@,
        Mnemonic::Return(_) => "return"@,
        Mnemonic::ReturnValue(_) => "returnvalue"@,
        Mnemonic::BadInsn(_) => "badinsn"@,
        Mnemonic::Unop(_) => "unop"@,
        Mnemonic::Binop(_) => "binop"@,
        Mnemonic::Range(_) => "range"@,
        Mnemonic::IntToFloat(_) => "int_to_float"@,
        Mnemonic::FloatToFloat(_) => "float_to_float"@,
        Mnemonic::FloatToInt(_) => "float_to_int"@,
        Mnemonic::Zext(_) => "zext"@,
        Mnemonic::Sext(_) => "sext"@,
        Mnemonic::IsFloatNaN(_) => "is_float_nan"@,
        Mnemonic::PopCount(_) => "pop_count"@,
        Mnemonic::LzCount(_) => "lz_count"@,
        Mnemonic::Carry(_) => "carry"@,
        Mnemonic::SCarry(_) => "scarry"@,
        Mnemonic::SBorrow(_) => "sborrow"@,
        Mnemonic::Assert(_) => "assert"@,
        Mnemonic::PCodeOp(_) => "pcode_op"@,
        Mnemonic::Intrinsic(x) => intrinsics@[x.id.0 as int].name@,
        Mnemonic::Tuple(_) => "pack"@,
        Mnemonic::Extract(_) => "extract"@,
        Mnemonic::Gep(_) => "gep"@,
        Mnemonic::ArrayMap(_) => "map"@,
        Mnemonic::Scan(_) => "scan"@,
    }
}

impl Mnemonic {
    /// The name of the operation.
    pub fn opcode<'a>(&self, intrinsics: &'a IntrinsicTable) -> (name: &'a str)
        requires
            self matches Mnemonic::Intrinsic(x) ==> intrinsics.has(x.id),
        ensures
            name@ == opcode_text(*self, *intrinsics),
    {
        match self {
            Mnemonic::Load(_) => "load",
            Mnemonic::Store(_) => "store",
            Mnemonic::Branch(_) => "branch",
            Mnemonic::CBranch(_) => "cbranch",
            Mnemonic::BranchInd(_) => "branchind",
            Mnemonic::Switch(_) => "switch",
            Mnemonic::Call(_) => "call",
            Mnemonic::TailCall(_) => "tailcall",
            Mnemonic::Apply(_) => "apply",
            Mnemonic::CallInd(_) => "callind",
            Mnemonic::Return(_) => "return",
            Mnemonic::ReturnValue(_) => "returnvalue",
            Mnemonic::BadInsn(_) => "badinsn",
            Mnemonic::Unop(_) => "unop",
            Mnemonic::Binop(_) => "binop",
            Mnemonic::Range(_) => "range",
            Mnemonic::IntToFloat(_) => "int_to_float",
            Mnemonic::FloatToFloat(_) => "float_to_float",
            Mnemonic::FloatToInt(_) => "float_to_int",
            Mnemonic::Zext(_) => "zext",
            Mnemonic::Sext(_) => "sext",
            Mnemonic::IsFloatNaN(_) => "is_float_nan",
            Mnemonic::PopCount(_) => "pop_count",
            Mnemonic::LzCount(_) => "lz_count",
            Mnemonic::Carry(_) => "carry",
            Mnemonic::SCarry(_) => "scarry",
            Mnemonic::SBorrow(_) => "sborrow",
            Mnemonic::Assert(_) => "assert",
            Mnemonic::PCodeOp(_) => "pcode_op",
            Mnemonic::Intrinsic(x) => x.id.name(intrinsics).as_str(),
            Mnemonic::Tuple(_) => "pack",
            Mnemonic::Extract(_) => "extract",
            Mnemonic::Gep(_) => "gep",
            Mnemonic::ArrayMap(_) => "map",
            Mnemonic::Scan(_) => "scan",
        }
    }
}

} // verus!
