//! What the names and the numbers in a text are read back as.

use crate::constants::{byte_text, bytes_text, escaped};
use crate::context::Context;
use crate::function::interface::FunctionInterface;
use crate::ids::{pair_text, BlockParamId, FunctionId, InstructionId, LiteralId, LocalInsnId};
use crate::insn::bits::truncated;
use crate::insn::terminator::Callee;
use crate::literal::low_bytes;
use crate::segment::line::{insn_line, line_text, statements_text};
use crate::segment::render::function_head;
use crate::text::{dec, digit_value, hex, lemma_digit_value, lemma_digits, spelled};
use crate::types::TypeView;
use vstd::prelude::*;

verus! {

/// The result of an instruction is marked with a percent sign, a parameter with
/// an at sign; after it comes the name, or, without one, the index in
/// hexadecimal.
pub proof fn law_labels_carry_their_mark(c: Context, i: InstructionId, p: BlockParamId)
    ensures
        ({
            let body = c.body_of(i.func);
            let label = c.insn_label(i);
            &&& label.len() > 0 && label[0] == '%'
            &&& body.insn_rec(i.local).name matches Some(name) ==> label.skip(1)
                == body@.names.text_of(name)
            &&& body.insn_rec(i.local).name is None ==> spelled(label.skip(4), 16) == i.local.0
        }),
        ({
            let body = c.body_of(p.func);
            let label = c.param_label(p);
            &&& label.len() > 0 && label[0] == '@'
            &&& body.param_rec(p.local).name matches Some(name) ==> label.skip(1)
                == body@.names.text_of(name)
            &&& body.param_rec(p.local).name is None ==> spelled(label.skip(6), 16) == p.local.0
        }),
{
    reveal_strlit("%");
    reveal_strlit("%tmp");
    reveal_strlit("@");
    reveal_strlit("@param");
    let body = c.body_of(i.func);
    match body.insn_rec(i.local).name {
        Some(name) => assert(c.insn_label(i).skip(1) =~= body@.names.text_of(name)),
        None => {
            lemma_digits(i.local.0 as nat, 16);
            assert(c.insn_label(i).skip(4) =~= hex(i.local.0 as nat));
        },
    }
    let body = c.body_of(p.func);
    match body.param_rec(p.local).name {
        Some(name) => assert(c.param_label(p).skip(1) =~= body@.names.text_of(name)),
        None => {
            lemma_digits(p.local.0 as nat, 16);
            assert(c.param_label(p).skip(6) =~= hex(p.local.0 as nat));
        },
    }
}

/// A number is written in hexadecimal after `0x`, and read back as what it is; a
/// truth value is true where the number is not zero.
pub proof fn law_a_number_is_read_back(c: Context, o: Option<FunctionId>, id: LiteralId)
    requires
        c.shared.literals@[id.0 as int].symbolic is None,
    ensures
        ({
            let literal = c.shared.literals@[id.0 as int];
            let text = c.literal_label(o, id).chars;
            if c.shared.types@[literal.type_id.0 as int] == TypeView::Bool {
                &&& literal.value == 0 <==> text == seq!['f', 'a', 'l', 's', 'e']
                &&& literal.value != 0 <==> text == seq!['t', 'r', 'u', 'e']
            } else {
                &&& text.len() > 2 && text[0] == '0' && text[1] == 'x'
                &&& spelled(text.skip(2), 16) == literal.value
            }
        }),
{
    reveal_strlit("0x");
    reveal_strlit("true");
    reveal_strlit("false");
    let literal = c.shared.literals@[id.0 as int];
    let text = c.literal_label(o, id).chars;
    assert("true"@ =~= seq!['t', 'r', 'u', 'e']);
    assert("false"@ =~= seq!['f', 'a', 'l', 's', 'e']);
    assert("true"@.len() != "false"@.len());
    if c.shared.types@[literal.type_id.0 as int] != TypeView::Bool {
        lemma_digits(literal.value as nat, 16);
        assert(text.skip(2) =~= hex(literal.value as nat));
    }
}

/// Of a literal only the low bytes of its width count: as many patterns as the
/// width has.
pub proof fn law_a_literal_has_the_bytes_of_its_width(value: u64, size: usize)
    ensures
        size < 8 ==> low_bytes(value, size) == truncated(value as int, size as int),
        size >= 8 ==> low_bytes(value, size) == value,
        0 <= low_bytes(value, size) <= value,
{
    if size < 8 {
        vstd::arithmetic::power2::lemma_pow2_pos((size * 8) as nat);
        vstd::arithmetic::div_mod::lemma_mod_decreases(
            value as nat,
            vstd::arithmetic::power2::pow2((size * 8) as nat),
        );
        vstd::arithmetic::div_mod::lemma_mod_bound(
            value as int,
            vstd::arithmetic::power2::pow2((size * 8) as nat) as int,
        );
    }
}

/// Each byte is written with the two digits that spell it, in order, between
/// quotes.
pub proof fn law_bytes_are_read_back(data: Seq<u8>, k: int)
    ensures
        ({
            let text = bytes_text(data);
            &&& text.len() == 4 * data.len() + 3
            &&& text[0] == 'b' && text[1] == '"' && text.last() == '"'
            &&& 0 <= k < data.len() ==> {
                &&& text[4 * k + 2] == '\\' && text[4 * k + 3] == 'x'
                &&& digit_value(text[4 * k + 4]) matches Some(high) && digit_value(
                    text[4 * k + 5],
                ) matches Some(low) && high * 16 + low == data[k]
            }
        }),
{
    let n = data.len() as int;
    lemma_escaped(data, n, k);
    let text = bytes_text(data);
    let inner = escaped(data, n);
    assert(text.last() == '"');
    if 0 <= k < n {
        assert(text[4 * k + 2] == inner[4 * k]);
        assert(text[4 * k + 3] == inner[4 * k + 1]);
        assert(text[4 * k + 4] == inner[4 * k + 2]);
        assert(text[4 * k + 5] == inner[4 * k + 3]);
    }
}

proof fn lemma_escaped(data: Seq<u8>, n: int, k: int)
    requires
        0 <= n <= data.len(),
    ensures
        ({
            let text = escaped(data, n);
            &&& text.len() == 4 * n
            &&& 0 <= k < n ==> {
                &&& text[4 * k] == '\\' && text[4 * k + 1] == 'x'
                &&& digit_value(text[4 * k + 2]) matches Some(high) && digit_value(
                    text[4 * k + 3],
                ) matches Some(low) && high * 16 + low == data[k]
            }
        }),
    decreases n,
{
    if n > 0 {
        lemma_escaped(data, n - 1, k);
        let byte = data[n - 1];
        lemma_digit_value(byte as int / 16);
        lemma_digit_value(byte as int % 16);
        assert(byte_text(byte).len() == 4);
    }
}

/// The id of something within a function is read back as the function and the
/// index in it.
pub proof fn law_an_id_is_read_back(func: FunctionId, local: u32)
    ensures
        ({
            let text = pair_text(func, local);
            let n = dec(func.0 as nat).len() as int;
            &&& 0 < n < text.len() - 1 && text[n] == ':'
            &&& forall|k: int| 0 <= k < text.len() && k != n ==> #[trigger] text[k] != ':'
            &&& spelled(text.take(n), 10) == func.0
            &&& spelled(text.skip(n + 1), 10) == local
        }),
{
    reveal_strlit(":");
    lemma_digits(func.0 as nat, 10);
    lemma_digits(local as nat, 10);
    let text = pair_text(func, local);
    let (a, b) = (dec(func.0 as nat), dec(local as nat));
    let n = a.len() as int;
    assert(text.take(n) =~= a);
    assert(text.skip(n + 1) =~= b);
    assert(digit_value(':') is None);
    assert forall|k: int| 0 <= k < text.len() && k != n implies #[trigger] text[k] != ':' by {
        if k < n {
            assert(text[k] == a[k]);
            assert(digit_value(a[k]) is Some);
        } else {
            assert(text[k] == b[k - n - 1]);
            assert(digit_value(b[k - n - 1]) is Some);
        }
    }
}

/// The first line of a function says whether it is imported, a lambda or a
/// function of the machine, and then its name.
pub proof fn law_a_function_is_introduced_by_its_kind(face: FunctionInterface)
    ensures
        ({
            let text = function_head(face);
            let n = face.name@.len() as int;
            &&& text.len() > 0 && text.last() == '\n'
            &&& face.is_external ==> text[0] == 'e' && text.subrange(10, 10 + n) == face.name@
                && text.skip(10 + n) == seq![';', '\n']
            &&& !face.is_external && face.kind is Lambda ==> text[0] == 'l' && text.subrange(
                7,
                7 + n,
            ) == face.name@ && text.skip(7 + n) == seq![':', '\n']
            &&& !face.is_external && !(face.kind is Lambda) ==> text[0] == 'f' && text.subrange(
                3,
                3 + n,
            ) == face.name@ && text.skip(3 + n) == seq![':', '\n']
        }),
{
    reveal_strlit("extern fn ");
    reveal_strlit("lambda ");
    reveal_strlit("fn ");
    reveal_strlit(";\n");
    reveal_strlit(":\n");
    let text = function_head(face);
    let n = face.name@.len() as int;
    if face.is_external {
        assert(text.subrange(10, 10 + n) =~= face.name@);
        assert(text.skip(10 + n) =~= seq![';', '\n']);
    } else if face.kind is Lambda {
        assert(text.subrange(7, 7 + n) =~= face.name@);
        assert(text.skip(7 + n) =~= seq![':', '\n']);
    } else {
        assert(text.subrange(3, 3 + n) =~= face.name@);
        assert(text.skip(3 + n) =~= seq![':', '\n']);
    }
}

/// Each instruction of a block has a line of its own, after a tab, and the lines
/// come in the order of the instructions.
pub proof fn law_each_statement_has_its_line(
    c: Context,
    o: Option<FunctionId>,
    func: FunctionId,
    insns: Seq<LocalInsnId>,
    n: nat,
    d: nat,
)
    requires
        n < insns.len(),
    ensures
        statements_text(c, o, func, insns, 0, d).chars.len() == 0,
        statements_text(c, o, func, insns, n + 1, d).chars == statements_text(
            c,
            o,
            func,
            insns,
            n,
            d,
        ).chars + (seq!['\t'] + line_text(
            insn_line(c, o, InstructionId { func, local: insns[n as int] }, d),
        ).chars + seq!['\n']),
{
    reveal_strlit("\t");
    reveal_strlit("\n");
    let before = statements_text(c, o, func, insns, n, d).chars;
    let line = line_text(insn_line(c, o, InstructionId { func, local: insns[n as int] }, d)).chars;
    assert(statements_text(c, o, func, insns, n + 1, d).chars =~= before + (seq!['\t'] + line + seq![
        '\n',
    ]));
}

/// A placeholder is written with its slot, a function by its name.
pub proof fn law_a_callee_is_written_by_name_or_slot(c: Context, callee: Callee)
    ensures
        callee matches Callee::Real(f) ==> c.callee_label(callee).chars == c.interface_of(f).name@,
        callee matches Callee::Minted(slot) ==> {
            let text = c.callee_label(callee).chars;
            text.len() > 9 && text[0] == '<' && text.last() == '>' && spelled(
                text.subrange(8, text.len() - 1),
                10,
            ) == slot
        },
{
    reveal_strlit("<minted:");
    reveal_strlit(">");
    if let Callee::Minted(slot) = callee {
        lemma_digits(slot as nat, 10);
        let text = c.callee_label(callee).chars;
        assert(text.subrange(8, text.len() - 1) =~= dec(slot as nat));
    }
}

} // verus!
