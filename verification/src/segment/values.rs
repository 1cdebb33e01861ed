//! What values, arguments and labels are written as.

use crate::context::Context;
use crate::ids::{BlockId, BlockParamId, FunctionId};
use crate::insn::terminator::Callee;
use crate::segment::line::{
    branch_arg_label, comment_text, param_decl, rich, text_rank, texts_in_order, value_line,
    without_return,
};
use crate::sort::{lemma_text_order, text_less};
use crate::text::{dec, lemma_digits, spelled};
use crate::value::ValueId;
use vstd::prelude::*;

verus! {

/// A value is written as its type or its width, and its name; a function stands
/// by its name between angle brackets.
pub proof fn law_a_value_is_written_by_type_and_name(
    c: Context,
    o: Option<FunctionId>,
    id: ValueId,
    d: nat,
)
    ensures
        ({
            let tokens = value_line(c, o, id, d).tokens;
            &&& id matches ValueId::Instruction(i) ==> tokens.len() == 2 && tokens[0].text
                == c.type_label(c.body_of(i.func).insn_rec(i.local).type_id).chars + seq![' ']
                && tokens[1].text == c.insn_label(i)
            &&& id matches ValueId::BlockParam(p) ==> tokens.len() == 2 && tokens[0].text
                == c.type_label(c.body_of(p.func).param_rec(p.local).type_id).chars + seq![' ']
                && tokens[1].text == c.param_label(p)
            &&& id matches ValueId::Literal(l) ==> tokens.len() == 2 && tokens[0].text
                == c.type_label(c.shared.literals@[l.0 as int].type_id).chars + seq![' ']
                && tokens[1].text == c.literal_label(o, l).chars
            &&& id matches ValueId::Bytes(b) ==> tokens.len() == 2 && tokens[0].text == c.type_label(
                c.shared.bytes.at(b).type_id,
            ).chars + seq![' '] && tokens[1].text == crate::constants::bytes_text(
                c.shared.bytes.at(b).data@,
            )
            &&& id matches ValueId::Varnode(v) ==> tokens.len() == 2 && tokens[0].text == seq!['i']
                + dec((c.shared.varnodes.at(v).size * 8) as nat) + seq![' '] && tokens[1].text
                == c.shared.varnodes.at(v).name@
            &&& id matches ValueId::Temp(t) ==> tokens.len() == 2 && tokens[0].text == seq!['i']
                + dec((c.body_of(t.func).temps@[t.local.0 as int].size * 8) as nat) + seq![' ']
                && tokens[1].text == c.temp_label(t)
            &&& id matches ValueId::Poison(p) ==> tokens.len() == 2 && tokens[0].text
                == c.type_label(c.shared.poisons.at(p).type_id).chars + seq![' '] && tokens[1].text
                == seq!['p', 'o', 'i', 's', 'o', 'n']
            &&& id matches ValueId::Function(f) ==> tokens.len() == 1 && tokens[0].text == seq!['<']
                + c.interface_of(f).name@ + seq!['>']
        }),
{
    reveal_strlit(" ");
    reveal_strlit("i");
    reveal_strlit("<");
    reveal_strlit(">");
    reveal_strlit("poison");
    assert(" "@ =~= seq![' ']);
    assert("i"@ =~= seq!['i']);
    assert("<"@ =~= seq!['<']);
    assert(">"@ =~= seq!['>']);
    assert("poison"@ =~= seq!['p', 'o', 'i', 's', 'o', 'n']);
}

/// The argument of a branch is labelled like the parameter at its place is
/// declared in the target; one without a parameter by its place.
pub proof fn law_arguments_are_labelled_like_their_parameters(
    c: Context,
    target: BlockId,
    i: nat,
)
    ensures
        ({
            let params = c.body_of(target.func).block_rec(target.local).params@;
            let label = branch_arg_label(c, target, i).chars;
            if i < params.len() {
                let id = BlockParamId { func: target.func, local: params[i as int] };
                let ty = c.body_of(id.func).param_rec(id.local).type_id;
                let declared = param_decl(c, id).chars;
                &&& declared == label || declared == label + seq![':'] + c.type_label(ty).chars
                &&& !rich(c, ty) ==> label == c.param_label(id)
                &&& rich(c, ty) ==> label == c.type_label(ty).chars + seq![' '] + c.param_label(id)
            } else {
                &&& label.take(4) == seq!['@', 'a', 'r', 'g']
                &&& spelled(label.skip(4), 10) == i
            }
        }),
{
    reveal_strlit(" ");
    reveal_strlit(":");
    reveal_strlit("@arg");
    assert(" "@ =~= seq![' ']);
    assert(":"@ =~= seq![':']);
    let params = c.body_of(target.func).block_rec(target.local).params@;
    let label = branch_arg_label(c, target, i).chars;
    if i >= params.len() {
        lemma_digits(i, 10);
        assert(label.take(4) =~= seq!['@', 'a', 'r', 'g']);
        assert(label.skip(4) =~= dec(i));
    }
}

/// The argument of a call is labelled with the name of the input at its place,
/// or, where that has none, with the place.
pub proof fn law_arguments_are_labelled_like_the_inputs(
    c: Context,
    o: Option<FunctionId>,
    callee: Callee,
    i: nat,
    f: FunctionId,
)
    ensures
        ({
            let label = c.call_arg_label(o, callee, i as int).chars;
            let name = if crate::segment::atoms::foreign(o, f) {
                c.interface_of(f).extern_arg_name(i as int)
            } else {
                c.input_name(f, i as int)
            };
            &&& label.len() > 1 && label[0] == '@' && label.last() == '='
            &&& callee == Callee::Real(f) && name is Some ==> label == seq!['@'] + name->0 + seq!['=']
            &&& (callee == Callee::Real(f) && name is None) || callee is Minted ==> spelled(
                label.subrange(4, label.len() - 1),
                10,
            ) == i
        }),
{
    reveal_strlit("@");
    reveal_strlit("=");
    reveal_strlit("@arg");
    assert("@"@ =~= seq!['@']);
    assert("="@ =~= seq!['=']);
    lemma_digits(i, 10);
    let label = c.call_arg_label(o, callee, i as int).chars;
    let place = "@arg"@ + dec(i) + "="@;
    assert(place.subrange(4, place.len() - 1) =~= dec(i));
}

/// The labels of the blocks that control may go to are listed in dictionary
/// order, each as often as there is an edge.
pub proof fn law_labels_are_listed_in_order(texts: Seq<Seq<char>>, n: int)
    requires
        0 <= n <= texts.len(),
    ensures
        texts_in_order(texts, n).len() == n,
        texts_in_order(texts, n).to_multiset() == texts.take(n).to_multiset(),
        forall|i: int, j: int|
            0 <= i < j < n ==> !text_less(
                #[trigger] texts_in_order(texts, n)[j],
                #[trigger] texts_in_order(texts, n)[i],
            ),
    decreases n,
{
    if n == 0 {
        assert(texts.take(0) =~= Seq::<Seq<char>>::empty());
    } else {
        law_labels_are_listed_in_order(texts, n - 1);
        let s = texts_in_order(texts, n - 1);
        let item = texts[n - 1];
        let k = text_rank(s, item);
        lemma_rank(s, item);
        vstd::seq_lib::to_multiset_insert(s, k, item);
        assert(texts.take(n) =~= texts.take(n - 1).push(item));
        texts.take(n - 1).to_multiset_ensures();
        let t = s.insert(k, item);
        assert forall|i: int, j: int| 0 <= i < j < t.len() implies !text_less(
            #[trigger] t[j],
            #[trigger] t[i],
        ) by {
            if j == k {
                assert(t[i] == s[i]);
            } else if i == k {
                assert(t[j] == s[j - 1]);
                lemma_text_order(s[j - 1], item, s[k]);
                lemma_text_order(item, s[k], s[j - 1]);
                lemma_text_order(s[j - 1], item, s[j - 1]);
                lemma_text_order(s[j - 1], s[k], s[j - 1]);
                if j - 1 > k {
                    assert(!text_less(s[j - 1], s[k]));
                }
            } else if i < k && j > k {
                assert(t[i] == s[i] && t[j] == s[j - 1]);
            } else if i > k {
                assert(t[i] == s[i - 1] && t[j] == s[j - 1]);
            }
        }
    }
}

proof fn lemma_rank(s: Seq<Seq<char>>, item: Seq<char>)
    ensures
        0 <= text_rank(s, item) <= s.len(),
        forall|k: int| 0 <= k < text_rank(s, item) ==> !text_less(item, #[trigger] s[k]),
        text_rank(s, item) < s.len() ==> text_less(item, s[text_rank(s, item)]),
    decreases s.len(),
{
    if s.len() > 0 && !text_less(item, s[0]) {
        lemma_rank(s.skip(1), item);
        assert forall|k: int| 0 <= k < text_rank(s, item) implies !text_less(
            item,
            #[trigger] s[k],
        ) by {
            if k > 0 {
                assert(s[k] == s.skip(1)[k - 1]);
            }
        }
    }
}

/// A comment of one line is written after a tab and two slashes, and one of more
/// lines line by line.
pub proof fn law_a_comment_is_written_line_by_line(line: Seq<char>, rest: Seq<char>)
    requires
        forall|k: int| 0 <= k < line.len() ==> #[trigger] line[k] != '\n',
    ensures
        comment_text(Seq::empty()).len() == 0,
        line.len() > 0 ==> comment_text(line) == seq!['\t', '/', '/', ' '] + line + seq!['\n'],
        comment_text(line + seq!['\n'] + rest) == seq!['\t', '/', '/', ' '] + without_return(line)
            + seq!['\n'] + comment_text(rest),
{
    reveal_strlit("\t// ");
    reveal_strlit("\n");
    assert("\t// "@ =~= seq!['\t', '/', '/', ' ']);
    assert("\n"@ =~= seq!['\n']);
    lemma_no_break(line, Seq::empty());
    assert(line + Seq::<char>::empty() =~= line);
    let tail = seq!['\n'] + rest;
    lemma_no_break(line, tail);
    let s = line + seq!['\n'] + rest;
    assert(s =~= line + tail);
    assert(s.take(line.len() as int) =~= line);
    assert(s.skip(line.len() as int + 1) =~= rest);
}

proof fn lemma_no_break(line: Seq<char>, tail: Seq<char>)
    requires
        forall|k: int| 0 <= k < line.len() ==> #[trigger] line[k] != '\n',
        tail.len() > 0 ==> tail[0] == '\n',
    ensures
        crate::segment::line::line_end(line + tail) == line.len(),
    decreases line.len(),
{
    let s = line + tail;
    if line.len() == 0 {
        assert(s =~= tail);
    } else {
        assert(s[0] == line[0]);
        let rest = line.skip(1);
        assert forall|k: int| 0 <= k < rest.len() implies #[trigger] rest[k] != '\n' by {
            assert(rest[k] == line[k + 1]);
        }
        lemma_no_break(rest, tail);
        assert(s.skip(1) =~= rest + tail);
    }
}

} // verus!
