//! What merging a block into its predecessor comes to, operand by operand.

use crate::block::without;
use crate::body::absorb::{absorbed, with_params_bound};
use crate::body::{last_of, BodyView, FunctionBody};
use crate::ids::{EdgeId, LocalBlockId, LocalInsnId, LocalParamId};
use crate::value::LocalValueId;
use vstd::prelude::*;

verus! {

/// What an operand is once parameters are bound: the argument at the place of
/// the parameter it named, or what it was.
proof fn lemma_operand_bound(
    body: BodyView,
    params: Seq<LocalParamId>,
    args: Seq<LocalValueId>,
    i: LocalInsnId,
    p: int,
)
    requires
        params.len() == args.len(),
        params.no_duplicates(),
        forall|a: int, b: int|
            0 <= a < args.len() && 0 <= b < params.len() ==> #[trigger] args[a]
                != LocalValueId::BlockParam(#[trigger] params[b]),
        body.insns.contains_key(i),
        0 <= p < body.insns[i].mnemonic.operands.len(),
    ensures
        ({
            let after = with_params_bound(body, params, args);
            let was = body.insns[i].mnemonic.operands[p];
            let is = after.insns[i].mnemonic.operands[p];
            &&& after == (BodyView { insns: after.insns, ..body })
            &&& after.insns.contains_key(i)
            &&& after.insns[i].mnemonic.shape == body.insns[i].mnemonic.shape
            &&& after.insns[i].name == body.insns[i].name
            &&& after.insns[i].type_id == body.insns[i].type_id
            &&& after.insns[i].address == body.insns[i].address
            &&& after.insns[i].mnemonic.operands.len() == body.insns[i].mnemonic.operands.len()
            &&& forall|k: int|
                0 <= k < params.len() && was == LocalValueId::BlockParam(#[trigger] params[k])
                    ==> is == args[k]
            &&& (forall|k: int|
                0 <= k < params.len() ==> was != LocalValueId::BlockParam(#[trigger] params[k]))
                ==> is == was
        }),
    decreases params.len(),
{
    if params.len() > 0 {
        let (ps, vs) = (params.drop_last(), args.drop_last());
        assert forall|a: int, b: int| 0 <= a < vs.len() && 0 <= b < ps.len() implies #[trigger] vs[a]
            != LocalValueId::BlockParam(#[trigger] ps[b]) by {
            assert(vs[a] == args[a] && ps[b] == params[b]);
        }
        lemma_operand_bound(body, ps, vs, i, p);
        let mid = with_params_bound(body, ps, vs);
        let after = with_params_bound(body, params, args);
        let was = body.insns[i].mnemonic.operands[p];
        let half = mid.insns[i].mnemonic.operands[p];
        let is = after.insns[i].mnemonic.operands[p];
        let last = params.len() - 1;
        assert forall|k: int|
            0 <= k < params.len() && was == LocalValueId::BlockParam(
                #[trigger] params[k],
            ) implies is == args[k] by {
            if k < last {
                assert(ps[k] == params[k]);
                assert(half == vs[k]);
                assert(args[k] != LocalValueId::BlockParam(params[last]));
            } else {
                assert forall|j: int| 0 <= j < ps.len() implies was != LocalValueId::BlockParam(
                    #[trigger] ps[j],
                ) by {
                    assert(params[j] != params[last]);
                }
                assert(half == was);
            }
        }
        if forall|k: int|
            0 <= k < params.len() ==> was != LocalValueId::BlockParam(#[trigger] params[k]) {
            assert forall|j: int| 0 <= j < ps.len() implies was != LocalValueId::BlockParam(
                #[trigger] ps[j],
            ) by {
                assert(ps[j] == params[j]);
            }
            assert(was != LocalValueId::BlockParam(params[last]));
        }
    }
}

/// After a block was merged into the one that branches to it, every operand that
/// named its parameter number `k` names operand number `k` of the branch, and
/// every other operand is what it was. The arguments are no parameters of that
/// block themselves.
pub proof fn law_merging_binds_each_parameter_to_its_argument(
    body: FunctionBody,
    keep: LocalBlockId,
    other: LocalBlockId,
    edge: EdgeId,
    i: LocalInsnId,
    p: int,
    k: int,
)
    requires
        body.wf(),
        body.can_absorb(keep, other, edge),
        body@.insns.contains_key(i),
        i != body@.blocks[keep].insns.last(),
        0 <= p < body@.insns[i].mnemonic.operands.len(),
        forall|a: int, b: int|
            0 <= a < body@.insns[body@.blocks[keep].insns.last()].mnemonic.operands.len() && 0 <= b
                < body@.blocks[other].params.len()
                ==> #[trigger] body@.insns[body@.blocks[keep].insns.last()].mnemonic.operands[a]
                != LocalValueId::BlockParam(#[trigger] body@.blocks[other].params[b]),
    ensures
        ({
            let params = body@.blocks[other].params;
            let given = body@.insns[body@.blocks[keep].insns.last()].mnemonic.operands;
            let after = absorbed(
                with_params_bound(body@, params, body.branch_args(keep)),
                keep,
                other,
                edge,
            );
            let was = body@.insns[i];
            let is = after.insns[i];
            &&& after.insns.contains_key(i)
            &&& !after.insns.contains_key(body@.blocks[keep].insns.last())
            &&& is.mnemonic.shape == was.mnemonic.shape
            &&& is.name == was.name && is.type_id == was.type_id && is.address == was.address
            &&& is.mnemonic.operands.len() == was.mnemonic.operands.len()
            &&& 0 <= k < params.len() && was.mnemonic.operands[p] == LocalValueId::BlockParam(
                params[k],
            ) ==> k < given.len() && is.mnemonic.operands[p] == given[k]
            &&& (forall|j: int|
                0 <= j < params.len() ==> was.mnemonic.operands[p] != LocalValueId::BlockParam(
                    #[trigger] params[j],
                )) ==> is.mnemonic.operands[p] == was.mnemonic.operands[p]
        }),
{
    let params = body@.blocks[other].params;
    let branch = body@.blocks[keep].insns.last();
    let args = body.branch_args(keep);
    assert(last_of(body@.blocks[keep].insns) == Some(branch));
    if params.len() > 0 {
        assert(body.has_block(keep));
        assert(body.order(keep) == body@.blocks[keep].insns);
        assert(body.list_ok(keep));
        assert(body.linked_at(keep, body.order(keep).len() - 1));
        assert(body.has_insn(branch));
        assert(body@.insns[branch] == body.insn_rec(branch)@);
        assert(args == body.insn_rec(branch).mnemonic.operands());
        assert(args.len() == params.len());
        lemma_operand_bound(body@, params, args, i, p);
    }
    let bound = with_params_bound(body@, params, args);
    assert(bound.blocks == body@.blocks);
}

/// After a block was merged, its instructions follow those of the block it was
/// merged into, without the branch; the edges that left it leave that block, the
/// other edges of that block are gone as the branch is, and nothing of the
/// merged block is left but its addresses.
pub proof fn law_merging_joins_two_blocks(
    body: FunctionBody,
    bound: BodyView,
    keep: LocalBlockId,
    other: LocalBlockId,
    edge: EdgeId,
    x: LocalBlockId,
    e: EdgeId,
)
    requires
        body.wf(),
        body.can_absorb(keep, other, edge),
        bound == (BodyView { insns: bound.insns, ..body@ }),
        bound.insns[body@.blocks[keep].insns.last()].mnemonic.shape
            == body@.insns[body@.blocks[keep].insns.last()].mnemonic.shape,
    ensures
        ({
            let after = absorbed(bound, keep, other, edge);
            let (a, b) = (body@.blocks[keep], body@.blocks[other]);
            let is = after.blocks[keep];
            &&& after.blocks.contains_key(keep)
            &&& !after.blocks.contains_key(other)
            &&& is.insns == a.insns.drop_last() + b.insns
            &&& is.params == a.params && is.name == a.name && is.address == a.address && is.comment
                == a.comment
            &&& forall|address: u64| #[trigger]
                is.extra_addresses.contains(address) <==> a.extra_addresses.contains(address)
                    || b.extra_addresses.contains(address) || b.address == Some(address)
            &&& x != keep && x != other ==> (after.blocks.contains_key(x)
                <==> body@.blocks.contains_key(x)) && after.blocks[x] == body@.blocks[x]
            &&& after.edges.contains_key(e) <==> body@.edges.contains_key(e) && body@.edges[e].from
                != keep
            &&& after.edges.contains_key(e) && body@.edges[e].from == other ==> after.edges[e].from
                == keep && after.edges[e].to == body@.edges[e].to
            &&& after.edges.contains_key(e) && body@.edges[e].from != other ==> after.edges[e]
                == body@.edges[e]
            &&& !after.roster.contains(other)
            &&& x != other ==> (after.roster.contains(x) <==> body@.roster.contains(x))
            &&& after.root == (if body@.root == Some(other) {
                Some(keep)
            } else {
                body@.root
            })
        }),
{
    let branch = body@.blocks[keep].insns.last();
    let (a, b) = (body@.blocks[keep], body@.blocks[other]);
    assert(last_of(a.insns) == Some(branch));
    assert(body.has_block(keep));
    assert(body.order(keep) == a.insns);
    assert(body.list_ok(keep));
    assert(a.insns.no_duplicates());
    assert(a.insns =~= a.insns.drop_last().push(branch));
    lemma_without_last(a.insns);
    crate::block::lemma_filter_contains(body@.roster, other);
    let after = absorbed(bound, keep, other, edge);
    let is = after.blocks[keep];
    let carried = match b.address {
        Some(address) => seq![address],
        None => Seq::<u64>::empty(),
    } + b.extra_addresses;
    assert(is.extra_addresses == a.extra_addresses + carried);
    assert forall|address: u64| #[trigger]
        is.extra_addresses.contains(address) <==> a.extra_addresses.contains(address)
            || b.extra_addresses.contains(address) || b.address == Some(address) by {
        lemma_concat_contains(a.extra_addresses, carried, address);
        match b.address {
            Some(first) => {
                lemma_concat_contains(seq![first], b.extra_addresses, address);
                assert(seq![first].contains(address) <==> first == address) by {
                    assert(seq![first][0] == first);
                }
            },
            None => {
                lemma_concat_contains(Seq::<u64>::empty(), b.extra_addresses, address);
            },
        }
    }
    assert(after.edges.contains_key(e) <==> body@.edges.contains_key(e) && body@.edges[e].from
        != keep);
}

proof fn lemma_concat_contains<T>(a: Seq<T>, b: Seq<T>, x: T)
    ensures
        (a + b).contains(x) <==> a.contains(x) || b.contains(x),
{
    if a.contains(x) {
        let k = choose|k: int| 0 <= k < a.len() && a[k] == x;
        assert((a + b)[k] == x);
    }
    if b.contains(x) {
        let k = choose|k: int| 0 <= k < b.len() && b[k] == x;
        assert((a + b)[a.len() + k] == x);
    }
    if (a + b).contains(x) {
        let k = choose|k: int| 0 <= k < (a + b).len() && (a + b)[k] == x;
        if k < a.len() {
            assert(a[k] == x);
        } else {
            assert(b[k - a.len()] == x);
        }
    }
}

proof fn lemma_without_last<T>(s: Seq<T>)
    requires
        s.len() > 0,
        s.no_duplicates(),
    ensures
        without(s, s.last()) == s.drop_last(),
{
    let t = s.drop_last();
    let x = s.last();
    assert(!t.contains(x)) by {
        if t.contains(x) {
            let k = choose|k: int| 0 <= k < t.len() && t[k] == x;
            assert(s[k] == s[s.len() - 1]);
        }
    }
    crate::block::lemma_filter_keeps_all(t, x);
    reveal(Seq::filter);
    assert(without(s, x) == without(t, x));
}

} // verus!
