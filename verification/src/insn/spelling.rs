//! Reading the operators and the names of operations back from how they are
//! written.

use crate::insn::binop::{Binop, FloatBinop, IntBinop};
use crate::insn::intrinsic::IntrinsicTable;
use crate::insn::mnemonic::Mnemonic;
use crate::insn::opcode::opcode_text;
use crate::insn::unop::Unop;
use vstd::prelude::*;

verus! {

/// The operator on unsigned numbers that is written so.
pub open spec fn unsigned_operator(s: Seq<char>) -> Option<IntBinop> {
    if s == seq!['=', '='] {
        Some(IntBinop::Equal)
    } else if s == seq!['!', '='] {
        Some(IntBinop::NotEqual)
    } else if s == seq!['<'] {
        Some(IntBinop::Less)
    } else if s == seq!['<', '='] {
        Some(IntBinop::LessEqual)
    } else if s == seq!['+'] {
        Some(IntBinop::Add)
    } else if s == seq!['-'] {
        Some(IntBinop::Sub)
    } else if s == seq!['^'] {
        Some(IntBinop::Xor)
    } else if s == seq!['&'] {
        Some(IntBinop::And)
    } else if s == seq!['|'] {
        Some(IntBinop::Or)
    } else if s == seq!['<', '<'] {
        Some(IntBinop::ShiftLeft)
    } else if s == seq!['>', '>'] {
        Some(IntBinop::ShiftRight)
    } else if s == seq!['*'] {
        Some(IntBinop::Mul)
    } else if s == seq!['/'] {
        Some(IntBinop::Div)
    } else if s == seq!['%'] {
        Some(IntBinop::Rem)
    } else {
        None
    }
}

/// The operator on signed numbers that does what `op` does on unsigned ones.
pub open spec fn signed_counterpart(op: IntBinop) -> Option<IntBinop> {
    match op {
        IntBinop::Less => Some(IntBinop::SLess),
        IntBinop::LessEqual => Some(IntBinop::SLessEqual),
        IntBinop::ShiftRight => Some(IntBinop::SShiftRight),
        IntBinop::Div => Some(IntBinop::Sdiv),
        IntBinop::Rem => Some(IntBinop::Srem),
        _ => None,
    }
}

/// The operator on floats that does what `op` does on integers.
pub open spec fn float_counterpart(op: IntBinop) -> Option<FloatBinop> {
    match op {
        IntBinop::Equal => Some(FloatBinop::Equal),
        IntBinop::NotEqual => Some(FloatBinop::NotEqual),
        IntBinop::Less => Some(FloatBinop::Less),
        IntBinop::LessEqual => Some(FloatBinop::LessEqual),
        IntBinop::Add => Some(FloatBinop::Add),
        IntBinop::Sub => Some(FloatBinop::Sub),
        IntBinop::Mul => Some(FloatBinop::Mul),
        IntBinop::Div => Some(FloatBinop::Div),
        _ => None,
    }
}

/// The binary operator that is written so: a sign or a float is told by the
/// letter before the operator.
pub open spec fn binary_operator(s: Seq<char>) -> Option<Binop> {
    if s.len() > 0 && s[0] == 's' {
        match unsigned_operator(s.skip(1)) {
            Some(op) => match signed_counterpart(op) {
                Some(op) => Some(Binop::Int(op)),
                None => None,
            },
            None => None,
        }
    } else if s.len() > 0 && s[0] == 'f' {
        match unsigned_operator(s.skip(1)) {
            Some(op) => match float_counterpart(op) {
                Some(op) => Some(Binop::Float(op)),
                None => None,
            },
            None => None,
        }
    } else {
        match unsigned_operator(s) {
            Some(op) => Some(Binop::Int(op)),
            None => None,
        }
    }
}

/// A signed operator is written with an `s` before its unsigned counterpart, an
/// operator on floats with an `f` before that on integers.
pub proof fn law_signs_and_floats_are_marked(op: IntBinop)
    ensures
        signed_counterpart(op) matches Some(counterpart) ==> counterpart.spelling() == seq!['s']
            + op.spelling(),
        float_counterpart(op) matches Some(counterpart) ==> counterpart.spelling() == seq!['f']
            + op.spelling(),
{
    reveal_operators();
    if let Some(counterpart) = signed_counterpart(op) {
        assert(counterpart.spelling() =~= seq!['s'] + op.spelling());
    }
    if let Some(counterpart) = float_counterpart(op) {
        assert(counterpart.spelling() =~= seq!['f'] + op.spelling());
    }
}

proof fn reveal_operators()
    ensures
        "=="@ == seq!['=', '='],
        "!="@ == seq!['!', '='],
        "<"@ == seq!['<'],
        "<="@ == seq!['<', '='],
        "+"@ == seq!['+'],
        "-"@ == seq!['-'],
        "^"@ == seq!['^'],
        "&"@ == seq!['&'],
        "|"@ == seq!['|'],
        "<<"@ == seq!['<', '<'],
        ">>"@ == seq!['>', '>'],
        "*"@ == seq!['*'],
        "/"@ == seq!['/'],
        "%"@ == seq!['%'],
        "s<"@ == seq!['s', '<'],
        "s<="@ == seq!['s', '<', '='],
        "s>>"@ == seq!['s', '>', '>'],
        "s/"@ == seq!['s', '/'],
        "s%"@ == seq!['s', '%'],
        "f=="@ == seq!['f', '=', '='],
        "f!="@ == seq!['f', '!', '='],
        "f<"@ == seq!['f', '<'],
        "f<="@ == seq!['f', '<', '='],
        "f+"@ == seq!['f', '+'],
        "f-"@ == seq!['f', '-'],
        "f*"@ == seq!['f', '*'],
        "f/"@ == seq!['f', '/'],
{
    reveal_strlit("==");
    assert("=="@ =~= seq!['=', '=']);
    reveal_strlit("!=");
    assert("!="@ =~= seq!['!', '=']);
    reveal_strlit("<");
    assert("<"@ =~= seq!['<']);
    reveal_strlit("<=");
    assert("<="@ =~= seq!['<', '=']);
    reveal_strlit("+");
    assert("+"@ =~= seq!['+']);
    reveal_strlit("-");
    assert("-"@ =~= seq!['-']);
    reveal_strlit("^");
    assert("^"@ =~= seq!['^']);
    reveal_strlit("&");
    assert("&"@ =~= seq!['&']);
    reveal_strlit("|");
    assert("|"@ =~= seq!['|']);
    reveal_strlit("<<");
    assert("<<"@ =~= seq!['<', '<']);
    reveal_strlit(">>");
    assert(">>"@ =~= seq!['>', '>']);
    reveal_strlit("*");
    assert("*"@ =~= seq!['*']);
    reveal_strlit("/");
    assert("/"@ =~= seq!['/']);
    reveal_strlit("%");
    assert("%"@ =~= seq!['%']);
    reveal_strlit("s<");
    assert("s<"@ =~= seq!['s', '<']);
    reveal_strlit("s<=");
    assert("s<="@ =~= seq!['s', '<', '=']);
    reveal_strlit("s>>");
    assert("s>>"@ =~= seq!['s', '>', '>']);
    reveal_strlit("s/");
    assert("s/"@ =~= seq!['s', '/']);
    reveal_strlit("s%");
    assert("s%"@ =~= seq!['s', '%']);
    reveal_strlit("f==");
    assert("f=="@ =~= seq!['f', '=', '=']);
    reveal_strlit("f!=");
    assert("f!="@ =~= seq!['f', '!', '=']);
    reveal_strlit("f<");
    assert("f<"@ =~= seq!['f', '<']);
    reveal_strlit("f<=");
    assert("f<="@ =~= seq!['f', '<', '=']);
    reveal_strlit("f+");
    assert("f+"@ =~= seq!['f', '+']);
    reveal_strlit("f-");
    assert("f-"@ =~= seq!['f', '-']);
    reveal_strlit("f*");
    assert("f*"@ =~= seq!['f', '*']);
    reveal_strlit("f/");
    assert("f/"@ =~= seq!['f', '/']);
}

/// A text of one character is no text of two, and texts differ where a
/// character does.
proof fn lemma_unsigned_read_back(op: IntBinop)
    requires
        !(op is SLess),
        !(op is SLessEqual),
        !(op is SShiftRight),
        !(op is Sdiv),
        !(op is Srem),
    ensures
        unsigned_operator(op.spelling()) == Some(op),
        op.spelling().len() > 0,
        op.spelling()[0] != 's',
        op.spelling()[0] != 'f',
{
    reveal_operators();
    let s = op.spelling();
    let (one, two) = (s.len() == 1, s.len() == 2);
    assert(one || two);
    assert(s == seq!['=', '='] ==> s[0] == '=');
    assert(s == seq!['!', '='] ==> s[0] == '!');
    assert(s == seq!['<'] ==> s.len() == 1 && s[0] == '<');
    assert(s == seq!['<', '='] ==> s.len() == 2 && s[0] == '<' && s[1] == '=');
    assert(s == seq!['<', '<'] ==> s.len() == 2 && s[0] == '<' && s[1] == '<');
    assert(s == seq!['>', '>'] ==> s[0] == '>');
    assert(s == seq!['+'] ==> s[0] == '+');
    assert(s == seq!['-'] ==> s[0] == '-');
    assert(s == seq!['^'] ==> s[0] == '^');
    assert(s == seq!['&'] ==> s[0] == '&');
    assert(s == seq!['|'] ==> s[0] == '|');
    assert(s == seq!['*'] ==> s[0] == '*');
    assert(s == seq!['/'] ==> s[0] == '/');
    assert(s == seq!['%'] ==> s[0] == '%');
}

/// An operator is read back as what it is, so that no two are written alike.
pub proof fn law_binary_operators_read_back(a: Binop, b: Binop)
    ensures
        binary_operator(a.spelling()) == Some(a),
        a.spelling() == b.spelling() ==> a == b,
{
    lemma_binary_read_back(a);
    lemma_binary_read_back(b);
}

proof fn lemma_binary_read_back(op: Binop)
    ensures
        binary_operator(op.spelling()) == Some(op),
{
    match op {
        Binop::Int(i) => {
            let plain = match i {
                IntBinop::SLess => IntBinop::Less,
                IntBinop::SLessEqual => IntBinop::LessEqual,
                IntBinop::SShiftRight => IntBinop::ShiftRight,
                IntBinop::Sdiv => IntBinop::Div,
                IntBinop::Srem => IntBinop::Rem,
                _ => i,
            };
            lemma_unsigned_read_back(plain);
            if i != plain {
                law_signs_and_floats_are_marked(plain);
                assert((seq!['s'] + plain.spelling()).skip(1) =~= plain.spelling());
            }
        },
        Binop::Float(f) => {
            let plain = match f {
                FloatBinop::Equal => IntBinop::Equal,
                FloatBinop::NotEqual => IntBinop::NotEqual,
                FloatBinop::Less => IntBinop::Less,
                FloatBinop::LessEqual => IntBinop::LessEqual,
                FloatBinop::Add => IntBinop::Add,
                FloatBinop::Sub => IntBinop::Sub,
                FloatBinop::Mul => IntBinop::Mul,
                FloatBinop::Div => IntBinop::Div,
            };
            lemma_unsigned_read_back(plain);
            law_signs_and_floats_are_marked(plain);
            assert((seq!['f'] + plain.spelling()).skip(1) =~= plain.spelling());
        },
    }
}

/// The unary operator that is written so. The signs are those of the binary
/// operators that they are short for: `-` takes from zero, `f-` likewise.
pub open spec fn unary_operator(s: Seq<char>) -> Option<Unop> {
    if s == seq!['-'] {
        Some(Unop::IntNegate)
    } else if s == seq!['~'] {
        Some(Unop::IntNot)
    } else if s == seq!['f', '-'] {
        Some(Unop::FloatNegate)
    } else if s == seq!['a', 'b', 's'] {
        Some(Unop::FloatAbs)
    } else if s == seq!['s', 'q', 'r', 't'] {
        Some(Unop::FloatSqrt)
    } else if s == seq!['c', 'e', 'i', 'l'] {
        Some(Unop::FloatCeil)
    } else if s == seq!['f', 'l', 'o', 'o', 'r'] {
        Some(Unop::FloatFloor)
    } else if s == seq!['r', 'o', 'u', 'n', 'd'] {
        Some(Unop::FloatRound)
    } else {
        None
    }
}

/// A unary operator is read back as what it is, so that no two are written
/// alike; a negation is written as the subtraction that it is short for.
pub proof fn law_unary_operators_read_back(a: Unop, b: Unop)
    ensures
        unary_operator(a.spelling()) == Some(a),
        a.spelling() == b.spelling() ==> a == b,
        Unop::IntNegate.spelling() == IntBinop::Sub.spelling(),
        Unop::FloatNegate.spelling() == FloatBinop::Sub.spelling(),
{
    lemma_unary_read_back(a);
    lemma_unary_read_back(b);
}

proof fn lemma_unary_read_back(op: Unop)
    ensures
        unary_operator(op.spelling()) == Some(op),
{
    reveal_strlit("-");
    reveal_strlit("~");
    reveal_strlit("f-");
    reveal_strlit("abs");
    reveal_strlit("sqrt");
    reveal_strlit("ceil");
    reveal_strlit("floor");
    reveal_strlit("round");
    let s = op.spelling();
    match op {
        Unop::IntNegate => assert(s =~= seq!['-']),
        Unop::IntNot => assert(s =~= seq!['~']),
        Unop::FloatNegate => assert(s =~= seq!['f', '-']),
        Unop::FloatAbs => assert(s =~= seq!['a', 'b', 's']),
        Unop::FloatSqrt => assert(s =~= seq!['s', 'q', 'r', 't']),
        Unop::FloatCeil => assert(s =~= seq!['c', 'e', 'i', 'l']),
        Unop::FloatFloor => assert(s =~= seq!['f', 'l', 'o', 'o', 'r']),
        Unop::FloatRound => assert(s =~= seq!['r', 'o', 'u', 'n', 'd']),
    }
    assert(s == seq!['-'] ==> s.len() == 1 && s[0] == '-');
    assert(s == seq!['~'] ==> s.len() == 1 && s[0] == '~');
    assert(s == seq!['f', '-'] ==> s.len() == 2);
    assert(s == seq!['a', 'b', 's'] ==> s.len() == 3);
    assert(s == seq!['s', 'q', 'r', 't'] ==> s.len() == 4 && s[0] == 's');
    assert(s == seq!['c', 'e', 'i', 'l'] ==> s.len() == 4 && s[0] == 'c');
    assert(s == seq!['f', 'l', 'o', 'o', 'r'] ==> s.len() == 5 && s[0] == 'f');
    assert(s == seq!['r', 'o', 'u', 'n', 'd'] ==> s.len() == 5 && s[0] == 'r');
}

/// The place of an operation among the operations.
pub open spec fn kind_number(m: Mnemonic) -> int {
    match m {
        Mnemonic::Load(_) => 0,
        Mnemonic::Store(_) => 1,
        Mnemonic::Branch(_) => 2,
        Mnemonic::CBranch(_) => 3,
        Mnemonic::BranchInd(_) => 4,
        Mnemonic::Switch(_) => 5,
        Mnemonic::Call(_) => 6,
        Mnemonic::TailCall(_) => 7,
        Mnemonic::Apply(_) => 8,
        Mnemonic::CallInd(_) => 9,
        Mnemonic::Return(_) => 10,
        Mnemonic::ReturnValue(_) => 11,
        Mnemonic::BadInsn(_) => 12,
        Mnemonic::Unop(_) => 13,
        Mnemonic::Binop(_) => 14,
        Mnemonic::Range(_) => 15,
        Mnemonic::IntToFloat(_) => 16,
        Mnemonic::FloatToFloat(_) => 17,
        Mnemonic::FloatToInt(_) => 18,
        Mnemonic::Zext(_) => 19,
        Mnemonic::Sext(_) => 20,
        Mnemonic::IsFloatNaN(_) => 21,
        Mnemonic::PopCount(_) => 22,
        Mnemonic::LzCount(_) => 23,
        Mnemonic::Carry(_) => 24,
        Mnemonic::SCarry(_) => 25,
        Mnemonic::SBorrow(_) => 26,
        Mnemonic::Assert(_) => 27,
        Mnemonic::PCodeOp(_) => 28,
        Mnemonic::Tuple(_) => 29,
        Mnemonic::Extract(_) => 30,
        Mnemonic::Gep(_) => 31,
        Mnemonic::ArrayMap(_) => 32,
        Mnemonic::Scan(_) => 33,
        Mnemonic::Intrinsic(_) => 34,
    }
}

/// The place of the operation that is called so, told by the length of the name
/// and its first and last letter; no operation where it is negative.
pub open spec fn kind_called(s: Seq<char>) -> int {
    if s.len() == 4 && s[0] == 'l' && s.last() == 'd' {
        0
    } else if s.len() == 5 && s[0] == 's' && s.last() == 'e' {
        1
    } else if s.len() == 6 && s[0] == 'b' && s.last() == 'h' {
        2
    } else if s.len() == 7 && s[0] == 'c' && s.last() == 'h' {
        3
    } else if s.len() == 9 && s[0] == 'b' && s.last() == 'd' {
        4
    } else if s.len() == 6 && s[0] == 's' && s.last() == 'h' {
        5
    } else if s.len() == 4 && s[0] == 'c' && s.last() == 'l' {
        6
    } else if s.len() == 8 && s[0] == 't' && s.last() == 'l' {
        7
    } else if s.len() == 5 && s[0] == 'a' && s.last() == 'y' {
        8
    } else if s.len() == 7 && s[0] == 'c' && s.last() == 'd' {
        9
    } else if s.len() == 6 && s[0] == 'r' && s.last() == 'n' {
        10
    } else if s.len() == 11 && s[0] == 'r' && s.last() == 'e' {
        11
    } else if s.len() == 7 && s[0] == 'b' && s.last() == 'n' {
        12
    } else if s.len() == 4 && s[0] == 'u' && s.last() == 'p' {
        13
    } else if s.len() == 5 && s[0] == 'b' && s.last() == 'p' {
        14
    } else if s.len() == 5 && s[0] == 'r' && s.last() == 'e' {
        15
    } else if s.len() == 12 && s[0] == 'i' && s.last() == 't' {
        16
    } else if s.len() == 14 && s[0] == 'f' && s.last() == 't' {
        17
    } else if s.len() == 12 && s[0] == 'f' && s.last() == 't' {
        18
    } else if s.len() == 4 && s[0] == 'z' && s.last() == 't' {
        19
    } else if s.len() == 4 && s[0] == 's' && s.last() == 't' {
        20
    } else if s.len() == 12 && s[0] == 'i' && s.last() == 'n' {
        21
    } else if s.len() == 9 && s[0] == 'p' && s.last() == 't' {
        22
    } else if s.len() == 8 && s[0] == 'l' && s.last() == 't' {
        23
    } else if s.len() == 5 && s[0] == 'c' && s.last() == 'y' {
        24
    } else if s.len() == 6 && s[0] == 's' && s.last() == 'y' {
        25
    } else if s.len() == 7 && s[0] == 's' && s.last() == 'w' {
        26
    } else if s.len() == 6 && s[0] == 'a' && s.last() == 't' {
        27
    } else if s.len() == 8 && s[0] == 'p' && s.last() == 'p' {
        28
    } else if s.len() == 4 && s[0] == 'p' && s.last() == 'k' {
        29
    } else if s.len() == 7 && s[0] == 'e' && s.last() == 't' {
        30
    } else if s.len() == 3 && s[0] == 'g' && s.last() == 'p' {
        31
    } else if s.len() == 3 && s[0] == 'm' && s.last() == 'p' {
        32
    } else if s.len() == 4 && s[0] == 's' && s.last() == 'n' {
        33
    } else {
        -1
    }
}

/// The name of an operation tells which one it is; only an intrinsic may be
/// called like another.
pub proof fn law_names_tell_the_operation(a: Mnemonic, b: Mnemonic, table: IntrinsicTable)
    requires
        !(a is Intrinsic),
        !(b is Intrinsic),
    ensures
        kind_called(opcode_text(a, table)) == kind_number(a),
        opcode_text(a, table) == opcode_text(b, table) ==> kind_number(a) == kind_number(b),
{
    lemma_kind_called(a, table);
    lemma_kind_called(b, table);
}

proof fn lemma_kind_called(m: Mnemonic, table: IntrinsicTable)
    requires
        !(m is Intrinsic),
    ensures
        kind_called(opcode_text(m, table)) == kind_number(m),
{
    match m {
        Mnemonic::Load(_) => reveal_strlit("load"),
        Mnemonic::Store(_) => reveal_strlit("store"),
        Mnemonic::Branch(_) => reveal_strlit("branch"),
        Mnemonic::CBranch(_) => reveal_strlit("cbranch"),
        Mnemonic::BranchInd(_) => reveal_strlit("branchind"),
        Mnemonic::Switch(_) => reveal_strlit("switch"),
        Mnemonic::Call(_) => reveal_strlit("call"),
        Mnemonic::TailCall(_) => reveal_strlit("tailcall"),
        Mnemonic::Apply(_) => reveal_strlit("apply"),
        Mnemonic::CallInd(_) => reveal_strlit("callind"),
        Mnemonic::Return(_) => reveal_strlit("return"),
        Mnemonic::ReturnValue(_) => reveal_strlit("returnvalue"),
        Mnemonic::BadInsn(_) => reveal_strlit("badinsn"),
        Mnemonic::Unop(_) => reveal_strlit("unop"),
        Mnemonic::Binop(_) => reveal_strlit("binop"),
        Mnemonic::Range(_) => reveal_strlit("range"),
        Mnemonic::IntToFloat(_) => reveal_strlit("int_to_float"),
        Mnemonic::FloatToFloat(_) => reveal_strlit("float_to_float"),
        Mnemonic::FloatToInt(_) => reveal_strlit("float_to_int"),
        Mnemonic::Zext(_) => reveal_strlit("zext"),
        Mnemonic::Sext(_) => reveal_strlit("sext"),
        Mnemonic::IsFloatNaN(_) => reveal_strlit("is_float_nan"),
        Mnemonic::PopCount(_) => reveal_strlit("pop_count"),
        Mnemonic::LzCount(_) => reveal_strlit("lz_count"),
        Mnemonic::Carry(_) => reveal_strlit("carry"),
        Mnemonic::SCarry(_) => reveal_strlit("scarry"),
        Mnemonic::SBorrow(_) => reveal_strlit("sborrow"),
        Mnemonic::Assert(_) => reveal_strlit("assert"),
        Mnemonic::PCodeOp(_) => reveal_strlit("pcode_op"),
        Mnemonic::Tuple(_) => reveal_strlit("pack"),
        Mnemonic::Extract(_) => reveal_strlit("extract"),
        Mnemonic::Gep(_) => reveal_strlit("gep"),
        Mnemonic::ArrayMap(_) => reveal_strlit("map"),
        Mnemonic::Scan(_) => reveal_strlit("scan"),
        Mnemonic::Intrinsic(_) => {},
    }
}

/// An operator compares exactly where it is written with an equals sign at the
/// end or as less-than, and its counterparts on signed numbers and on floats
/// compare where it does; those that shift are written with two angle brackets.
pub proof fn law_comparisons_are_written_as_such(op: IntBinop)
    ensures
        unsigned_operator(op.spelling()) == Some(op) ==> (op.compares() <==> op.spelling().last()
            == '=' || op.spelling() == seq!['<']),
        unsigned_operator(op.spelling()) == Some(op) ==> (op.shifts() <==> op.spelling() == seq![
            '<',
            '<',
        ] || op.spelling() == seq!['>', '>']),
        signed_counterpart(op) matches Some(counterpart) ==> counterpart.compares() == op.compares()
            && counterpart.shifts() == op.shifts(),
        float_counterpart(op) matches Some(counterpart) ==> counterpart.compares() == op.compares(),
        op.compares() ==> Binop::Int(op).compares(),
{
    reveal_operators();
    let s = op.spelling();
    assert(s == seq!['<'] ==> s.len() == 1 && s[0] == '<');
    assert(s == seq!['<', '<'] ==> s.len() == 2 && s[0] == '<' && s[1] == '<');
    assert(s == seq!['>', '>'] ==> s.len() == 2 && s[0] == '>' && s[1] == '>');
    assert(s == seq!['=', '='] ==> s.last() == '=');
    assert(s == seq!['!', '='] ==> s.last() == '=');
    assert(s == seq!['<', '='] ==> s.last() == '=' && s.len() == 2 && s[1] == '=');
}

} // verus!
