//! What replacing operands comes to, operand by operand.

use crate::body::replace::{with_mnemonic, with_picks, with_substitution, with_uses_moved};
use crate::body::{BodyView, FunctionBody};
use crate::ids::LocalInsnId;
use crate::insn::mnemonic::{substituted, with_result_slot, MnemonicView, Shape};
use crate::insn::substitute::{image, with_slot_image};
use crate::value::LocalValueId;
use vstd::prelude::*;

verus! {

/// Of the uses of a value those that were picked name the other value
/// afterwards, those that were not still name it, and no other operand changes.
pub proof fn law_the_picked_uses_are_replaced(
    body: FunctionBody,
    from: LocalValueId,
    picks: Seq<bool>,
    to: LocalValueId,
    j: int,
    i: LocalInsnId,
    k: int,
)
    requires
        body.wf(),
        picks.len() == body.use_list(from).len(),
        body.has_insn(i),
        0 <= k < body.operands(i).len(),
    ensures
        ({
            let after = with_picks(body, from, picks, to);
            let is = after.insns[i].mnemonic.operands[k];
            let o = body.occ(body.use_list(from)[j]);
            &&& after.insns[i].mnemonic.operands.len() == body.operands(i).len()
            &&& after.insns[i].mnemonic.shape == body.insn_rec(i).mnemonic.shape()
            &&& body.operands(i)[k] != from ==> is == body.operands(i)[k]
            &&& 0 <= j < picks.len() && o.user == i && o.index == k ==> is == (if picks[j] {
                to
            } else {
                from
            })
        }),
{
    let list = body.use_list(from);
    assert(body.use_list_ok(from));
    assert forall|n: int| 0 <= n < list.len() implies body.has_use(list[n]) && body.occ(
        list[n],
    ).value == from && body.use_faithful(list[n]) by {
        assert(body.use_linked_at(from, n));
    }
    if 0 <= j < picks.len() && body.occ(list[j]).user == i && body.occ(list[j]).index == k {
        assert(body.use_faithful(list[j]));
        assert forall|n: int|
            0 <= n < list.len() && body.occ(list[n]).user == i && body.occ(list[n]).index
                == k implies n == j by {
            assert(body.use_faithful(list[n]));
            assert(body.is_use_of(list[n], i, k));
            assert(body.is_use_of(list[j], i, k));
            assert(list[n] == list[j]);
        }
    }
    if body.operands(i)[k] != from {
        assert forall|n: int| 0 <= n < list.len() implies !(body.occ(list[n]).user == i && body.occ(
            list[n],
        ).index == k) by {
            assert(body.use_faithful(list[n]));
        }
    }
}

/// Where every use of a value is replaced, each operand that named it names the
/// other value afterwards, and every other operand is what it was.
pub proof fn law_every_use_is_replaced(
    body: FunctionBody,
    from: LocalValueId,
    to: LocalValueId,
    i: LocalInsnId,
    k: int,
)
    requires
        body.wf(),
        body.uses_complete(),
        body.has_home(from),
        body.has_insn(i),
        0 <= k < body.operands(i).len(),
    ensures
        ({
            let moved = with_uses_moved(body, from, to).insns[i];
            let replaced = with_substitution(body@, from, to).insns[i];
            let was = body.operands(i)[k];
            &&& was == from ==> moved.mnemonic.operands[k] == to && replaced.mnemonic.operands[k]
                == to
            &&& was != from ==> moved.mnemonic.operands[k] == was && replaced.mnemonic.operands[k]
                == was
            &&& moved.mnemonic.operands.len() == body.operands(i).len()
            &&& moved.mnemonic.shape == body.insn_rec(i).mnemonic.shape()
        }),
{
    assert(body@.insns.contains_key(i));
    assert(body@.insns[i].mnemonic.operands == body.operands(i));
    if body.operands(i)[k] == from {
        assert(body.has_use_of(i, k));
    }
}

/// What a value becomes is told by the first pair that begins with it; without
/// one it stays. What a pair puts in is not replaced again.
pub proof fn law_the_first_pair_decides(
    pairs: Seq<(LocalValueId, LocalValueId)>,
    value: LocalValueId,
    n: int,
)
    ensures
        0 <= n < pairs.len() && pairs[n].0 == value && (forall|j: int|
            0 <= j < n ==> (#[trigger] pairs[j]).0 != value) ==> image(pairs, value) == pairs[n].1,
        (forall|j: int| 0 <= j < pairs.len() ==> (#[trigger] pairs[j]).0 != value) ==> image(
            pairs,
            value,
        ) == value,
    decreases pairs.len(),
{
    if pairs.len() > 0 {
        let rest = pairs.skip(1);
        law_the_first_pair_decides(rest, value, n - 1);
        assert forall|j: int| 0 <= j < rest.len() implies #[trigger] rest[j] == pairs[j + 1] by {}
        if 0 < n < pairs.len() {
            assert(rest[n - 1] == pairs[n]);
            if forall|j: int| 0 <= j < n ==> (#[trigger] pairs[j]).0 != value {
                assert(pairs[0].0 != value);
                assert forall|j: int| 0 <= j < n - 1 implies (#[trigger] rest[j]).0 != value by {
                    assert(pairs[j + 1].0 != value);
                }
            }
        }
        if forall|j: int| 0 <= j < pairs.len() ==> (#[trigger] pairs[j]).0 != value {
            assert(pairs[0].0 != value);
            assert forall|j: int| 0 <= j < rest.len() implies (#[trigger] rest[j]).0 != value by {
                assert(pairs[j + 1].0 != value);
            }
        }
    }
}

/// A result slot is replaced like an operand, and nothing else of a shape is.
pub proof fn law_a_result_slot_is_replaced_too(
    shape: Shape,
    from: LocalValueId,
    to: LocalValueId,
    pairs: Seq<(LocalValueId, LocalValueId)>,
    value: LocalValueId,
)
    ensures
        from != value ==> substituted(value, from, to) == value,
        substituted(from, from, to) == to,
        shape matches Shape::PCodeOp { id, args, dst } ==> {
            &&& with_result_slot(shape, from, to) matches Shape::PCodeOp { id: i, args: n, dst: d }
                && i == id && n == args && (dst == Some(from) ==> d == Some(to)) && (dst != Some(
                from,
            ) ==> d == dst)
            &&& with_slot_image(shape, pairs) matches Shape::PCodeOp { id: i, args: n, dst: d } && i
                == id && n == args && (dst is None ==> d is None) && (dst matches Some(v) ==> d
                == Some(image(pairs, v)))
        },
        !(shape is PCodeOp) ==> with_result_slot(shape, from, to) == shape && with_slot_image(
            shape,
            pairs,
        ) == shape,
{
}

/// Another operation is put in one instruction, which keeps its name, its type
/// and its address; no other instruction changes.
pub proof fn law_one_operation_is_replaced(
    body: BodyView,
    i: LocalInsnId,
    m: MnemonicView,
    x: LocalInsnId,
)
    requires
        body.insns.contains_key(i),
    ensures
        ({
            let after = with_mnemonic(body, i, m);
            &&& after.insns.dom() =~= body.insns.dom()
            &&& after.insns[i].mnemonic == m
            &&& after.insns[i].name == body.insns[i].name
            &&& after.insns[i].type_id == body.insns[i].type_id
            &&& after.insns[i].address == body.insns[i].address
            &&& x != i ==> after.insns[x] == body.insns[x]
            &&& after.blocks == body.blocks && after.edges == body.edges && after.names == body.names
        }),
{
}

} // verus!
