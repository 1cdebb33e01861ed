//! What blocks and functions are written as, piece by piece.

use crate::clone::{clone_label, moved_label};
use crate::context::Context;
use crate::ids::{pair_text, BlockId, BlockParamId, FunctionId, LocalBlockId, TypeId};
use crate::insn::mnemonic::Mnemonic;
use crate::segment::line::{
    block_text, comment_text, field_label, labels_text, param_decl, params_text, silent,
    statements_text, successors_text,
};
use crate::segment::render::blocks_text;
use crate::text::{dec, hex, lemma_digits, spelled};
use crate::value::ValueId;
use vstd::prelude::*;

verus! {

/// A block goes by its name; without one by its address, which can be read back;
/// and without that as unnamed. In the view of another function it goes by its
/// id.
pub proof fn law_a_block_goes_by_name_or_address(c: Context, id: BlockId)
    ensures
        ({
            let block = c.body_of(id.func).block_rec(id.local);
            let label = c.block_label(id);
            &&& block.name matches Some(name) ==> label == c.body_of(id.func)@.names.text_of(name)
                && c.block_name(id) == Some(label)
            &&& block.name is None ==> (block.address matches Some(address) ==> spelled(label, 16)
                == address && c.block_name(id) == Some(label))
            &&& block.name is None && block.address is None ==> c.block_name(id) is None && label
                == seq!['u', 'n', 'n', 'a', 'm', 'e', 'd']
            &&& Context::foreign_block_label(id) == seq!['<'] + pair_text(id.func, id.local.0)
                + seq!['>']
        }),
{
    reveal_strlit("unnamed");
    reveal_strlit("<");
    reveal_strlit(">");
    reveal_strlit(":");
    assert("unnamed"@ =~= seq!['u', 'n', 'n', 'a', 'm', 'e', 'd']);
    let block = c.body_of(id.func).block_rec(id.local);
    if let Some(address) = block.address {
        lemma_digits(address as nat, 16);
    }
    assert(Context::foreign_block_label(id) =~= seq!['<'] + pair_text(id.func, id.local.0) + seq![
        '>',
    ]);
}

/// A copy is called after the address of the original, or, in another function,
/// like the original where that has a name.
pub proof fn law_a_copy_is_called_after_the_original(
    c: Context,
    orig: BlockId,
    address: Option<u64>,
)
    ensures
        ({
            let text = clone_label(address);
            &&& text.take(6) == seq!['c', 'l', 'o', 'n', 'e', '_']
            &&& address matches Some(a) ==> spelled(text.skip(6), 16) == a
            &&& address is None ==> spelled(text.skip(6), 16) == 0
        }),
        c.block_name(orig) matches Some(name) ==> moved_label(c, orig) == name,
        c.block_name(orig) is None ==> moved_label(c, orig).take(6) == seq![
            'c',
            'l',
            'o',
            'n',
            'e',
            '_',
        ],
{
    reveal_strlit("clone_");
    let n = match address {
        Some(a) => a as nat,
        None => 0,
    };
    lemma_digits(n, 16);
    let text = clone_label(address);
    assert(text.take(6) =~= seq!['c', 'l', 'o', 'n', 'e', '_']);
    assert(text.skip(6) =~= hex(n));
    if c.block_name(orig) is None {
        assert(moved_label(c, orig).take(6) =~= seq!['c', 'l', 'o', 'n', 'e', '_']);
    }
}

/// A block is its label and its parameters between angle brackets, then the
/// comment, the statements and where control goes.
pub proof fn law_a_block_is_written_piece_by_piece(
    c: Context,
    o: Option<FunctionId>,
    id: BlockId,
    d: nat,
)
    ensures
        ({
            let body = c.body_of(id.func);
            let block = body.block_rec(id.local);
            let insns = body.order(id.local);
            let comment = match block.comment {
                Some(text) => comment_text(text@),
                None => Seq::empty(),
            };
            block_text(c, o, id, d).chars == seq!['<'] + c.block_label(id) + params_text(
                c,
                id,
                block.params@.len(),
            ).chars + seq!['>', '\n'] + comment + statements_text(
                c,
                o,
                id.func,
                insns,
                insns.len(),
                d,
            ).chars + successors_text(c, id)
        }),
{
    reveal_strlit("<");
    reveal_strlit(">\n");
    assert("<"@ =~= seq!['<']);
    assert(">\n"@ =~= seq!['>', '\n']);
}

/// The parameters of a block are declared in their order, each after a space.
pub proof fn law_parameters_are_declared_in_order(c: Context, block: BlockId, n: nat)
    ensures
        params_text(c, block, 0).chars.len() == 0,
        params_text(c, block, n + 1).chars == params_text(c, block, n).chars + (seq![' ']
            + param_decl(
            c,
            BlockParamId {
                func: block.func,
                local: c.body_of(block.func).block_rec(block.local).params@[n as int],
            },
        ).chars),
{
    reveal_strlit(" ");
    assert(" "@ =~= seq![' ']);
    let decl = param_decl(
        c,
        BlockParamId {
            func: block.func,
            local: c.body_of(block.func).block_rec(block.local).params@[n as int],
        },
    ).chars;
    assert(params_text(c, block, n + 1).chars =~= params_text(c, block, n).chars + (seq![' ']
        + decl));
}

/// The blocks of a function are written one after the other, in the order they
/// are listed.
pub proof fn law_blocks_are_written_in_order(
    c: Context,
    func: FunctionId,
    locals: Seq<LocalBlockId>,
    n: nat,
    d: nat,
)
    ensures
        blocks_text(c, func, locals, 0, d).len() == 0,
        blocks_text(c, func, locals, n + 1, d) == blocks_text(c, func, locals, n, d) + block_text(
            c,
            None,
            BlockId { func, local: locals[n as int] },
            d,
        ).chars,
{
}

/// The labels of successors are written between angle brackets, with commas
/// between them.
pub proof fn law_labels_are_separated_by_commas(labels: Seq<Seq<char>>, n: nat)
    ensures
        labels_text(labels, 0).len() == 0,
        labels_text(labels, 1) == seq![' ', '<'] + labels[0] + seq!['>'],
        n > 0 ==> labels_text(labels, n + 1) == labels_text(labels, n) + (seq![',', ' ', '<']
            + labels[n as int] + seq!['>']),
{
    reveal_strlit(",");
    reveal_strlit("");
    reveal_strlit(" <");
    reveal_strlit(">");
    assert(labels_text(labels, 0) =~= Seq::<char>::empty());
    assert(labels_text(labels, 1) =~= seq![' ', '<'] + labels[0] + seq!['>']) by {
        reveal_with_fuel(labels_text, 2);
    }
    if n > 0 {
        assert(labels_text(labels, n + 1) =~= labels_text(labels, n) + (seq![',', ' ', '<']
            + labels[n as int] + seq!['>']));
    }
}

/// Where control goes is written apart only where the statement names no block,
/// and the block is left all the same.
pub proof fn law_successors_are_written_where_the_statement_is_silent(m: Mnemonic)
    ensures
        silent(m) ==> m.branch_targets().len() == 0,
        silent(m) ==> m.terminates(),
        m is Call || m is CallInd || m is BranchInd ==> silent(m),
        m is Return || m is ReturnValue || m is TailCall || m is BadInsn ==> !silent(m),
{
}

/// A field is called by its name in the type; where the type has none, by its
/// number, counted from one.
pub proof fn law_a_field_goes_by_name_or_number(c: Context, ty: Option<TypeId>, i: nat)
    ensures
        ({
            let label = field_label(c, ty, i);
            let fields = match ty {
                Some(t) => c.shared.types@[t.0 as int].fields(),
                None => None,
            };
            if fields is Some && i < fields->Some_0.len() {
                label == (fields->Some_0)[i as int].name
            } else {
                label.take(5) == seq!['f', 'i', 'e', 'l', 'd'] && spelled(label.skip(5), 10) == i + 1
            }
        }),
{
    reveal_strlit("field");
    lemma_digits(i + 1, 10);
    let text = "field"@ + dec(i + 1);
    assert(text.take(5) =~= seq!['f', 'i', 'e', 'l', 'd']);
    assert(text.skip(5) =~= dec(i + 1));
}

/// The id of a value is written as the name of its kind and, in brackets, the
/// index, with the function before it where one holds the value.
pub proof fn law_an_id_is_written_with_its_kind(id: ValueId)
    ensures
        ({
            let text = id.id_text();
            &&& text.len() > 2 && text.last() == ')'
            &&& id matches ValueId::Literal(x) ==> text == "Literal"@ + seq!['('] + dec(x.0 as nat)
                + seq![')']
            &&& id matches ValueId::Bytes(x) ==> text == "Bytes"@ + seq!['('] + dec(x.0 as nat)
                + seq![')']
            &&& id matches ValueId::Varnode(x) ==> text == "Varnode"@ + seq!['('] + dec(x.0 as nat)
                + seq![')']
            &&& id matches ValueId::Function(x) ==> text == "Function"@ + seq!['('] + dec(x.0 as nat)
                + seq![')']
            &&& id matches ValueId::Poison(x) ==> text == "Poison"@ + seq!['('] + dec(x.0 as nat)
                + seq![')']
            &&& id matches ValueId::Instruction(x) ==> text == "Instruction"@ + seq!['(']
                + pair_text(x.func, x.local.0) + seq![')']
            &&& id matches ValueId::BasicBlock(x) ==> text == "BasicBlock"@ + seq!['('] + pair_text(
                x.func,
                x.local.0,
            ) + seq![')']
            &&& id matches ValueId::BlockParam(x) ==> text == "BlockParam"@ + seq!['('] + pair_text(
                x.func,
                x.local.0,
            ) + seq![')']
            &&& id matches ValueId::Temp(x) ==> text == "Temp"@ + seq!['('] + pair_text(
                x.func,
                x.local.0,
            ) + seq![')']
        }),
{
    reveal_strlit(")");
    assert(")"@ =~= seq![')']);
    match id {
        ValueId::Literal(_) => {
            reveal_strlit("Literal(");
            reveal_strlit("Literal");
            assert("Literal("@ =~= "Literal"@ + seq!['(']);
        },
        ValueId::Bytes(_) => {
            reveal_strlit("Bytes(");
            reveal_strlit("Bytes");
            assert("Bytes("@ =~= "Bytes"@ + seq!['(']);
        },
        ValueId::Varnode(_) => {
            reveal_strlit("Varnode(");
            reveal_strlit("Varnode");
            assert("Varnode("@ =~= "Varnode"@ + seq!['(']);
        },
        ValueId::Function(_) => {
            reveal_strlit("Function(");
            reveal_strlit("Function");
            assert("Function("@ =~= "Function"@ + seq!['(']);
        },
        ValueId::Poison(_) => {
            reveal_strlit("Poison(");
            reveal_strlit("Poison");
            assert("Poison("@ =~= "Poison"@ + seq!['(']);
        },
        ValueId::Instruction(_) => {
            reveal_strlit("Instruction(");
            reveal_strlit("Instruction");
            assert("Instruction("@ =~= "Instruction"@ + seq!['(']);
        },
        ValueId::BasicBlock(_) => {
            reveal_strlit("BasicBlock(");
            reveal_strlit("BasicBlock");
            assert("BasicBlock("@ =~= "BasicBlock"@ + seq!['(']);
        },
        ValueId::BlockParam(_) => {
            reveal_strlit("BlockParam(");
            reveal_strlit("BlockParam");
            assert("BlockParam("@ =~= "BlockParam"@ + seq!['(']);
        },
        ValueId::Temp(_) => {
            reveal_strlit("Temp(");
            reveal_strlit("Temp");
            assert("Temp("@ =~= "Temp"@ + seq!['(']);
        },
    }
}

} // verus!
