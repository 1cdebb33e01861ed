//! What several operations on a body come to.

use crate::block::{
    lemma_filter_contains, lemma_filter_keeps_all, lemma_filter_leaves, without, EdgeData,
};
use crate::body::absorb::{absorbed, lists_absorbed, params_bound};
use crate::body::blocks::{lists_split, split_at, without_block};
use crate::body::cfg::{edges_rehomed, edges_untouched, lemma_filter_everything};
use crate::body::create::empty_block;
use crate::body::order::{law_an_instruction_is_in_one_block, moved_before, moved_last, taken_out};
use crate::body::remove::without_instruction;
use crate::body::replace::with_uses_moved;
use crate::body::users::{law_users_are_the_occurrences, law_users_count_the_occurrences};
use crate::body::{last_of, BlockView, BodyView, FunctionBody};
use crate::ids::{EdgeId, LocalBlockId, LocalInsnId, UseId};
use crate::insn::instruction::InsnView;
use crate::insn::mnemonic::Shape;
use crate::value::LocalValueId;
use vstd::prelude::*;

verus! {

/// Taking an instruction out again after it was appended gives the body back.
pub proof fn law_taking_out_undoes_appending(body: BodyView, b: LocalBlockId, i: LocalInsnId)
    requires
        body.blocks.contains_key(b),
        !body.blocks[b].insns.contains(i),
    ensures
        taken_out(moved_last(body, None, b, i), Some(b), i) == body,
{
    let s = body.blocks[b].insns;
    lemma_without_pushed(s, i);
    let back = taken_out(moved_last(body, None, b, i), Some(b), i);
    assert(back.blocks[b].insns == s);
    assert(back.blocks =~= body.blocks);
}

proof fn lemma_without_pushed<T>(s: Seq<T>, x: T)
    requires
        !s.contains(x),
    ensures
        without(s.push(x), x) == s,
{
    reveal(Seq::filter);
    assert(s.push(x).drop_last() =~= s);
    lemma_filter_keeps_all(s, x);
}

/// Moving an instruction to just before another keeps the rest of every block
/// in its order.
pub proof fn law_a_move_keeps_the_rest_in_order(
    body: BodyView,
    from: Option<LocalBlockId>,
    b: LocalBlockId,
    before: LocalInsnId,
    i: LocalInsnId,
    x: LocalBlockId,
)
    requires
        body.blocks.contains_key(b),
        body.blocks[b].insns.contains(before),
        before != i,
        from matches Some(f) ==> body.blocks.contains_key(f),
        forall|y: LocalBlockId|
            body.blocks.contains_key(y) && (#[trigger] body.blocks[y]).insns.contains(i) ==> from
                == Some(y),
        body.blocks.contains_key(x),
    ensures
        ({
            let after = moved_before(body, from, b, before, i);
            without(after.blocks[x].insns, i) == without(body.blocks[x].insns, i)
        }),
{
    let out = taken_out(body, from, i);
    let s = out.blocks[b].insns;
    lemma_filter_contains(body.blocks[x].insns, i);
    lemma_filter_contains(body.blocks[b].insns, i);
    lemma_filter_keeps_all(without(body.blocks[x].insns, i), i);
    if x == b {
        assert(s.contains(before));
        let k = s.index_of(before);
        assert(0 <= k < s.len() && s[k] == before);
        assert(!s.contains(i));
        let keep = |e: LocalInsnId| e != i;
        assert(s.insert(k, i) =~= s.take(k).push(i) + s.skip(k));
        assert(s =~= s.take(k) + s.skip(k));
        Seq::filter_distributes_over_add(s.take(k).push(i), s.skip(k), keep);
        lemma_without_pushed(s.take(k), i);
        lemma_filter_keeps_all(s.skip(k), i);
        lemma_filter_keeps_all(s, i);
        if from != Some(b) {
            lemma_filter_keeps_all(body.blocks[b].insns, i);
        }
    }
}

/// An id that was handed out is below the count of those handed out, which is
/// the next one; removing what has the id does not lower the count.
pub proof fn law_ids_are_not_given_again(
    body: FunctionBody,
    i: LocalInsnId,
    home: Option<LocalBlockId>,
    b: LocalBlockId,
)
    requires
        body.wf(),
    ensures
        body@.insns.contains_key(i) ==> i.0 < body@.insns_issued,
        body@.blocks.contains_key(b) ==> b.0 < body@.blocks_issued,
        without_instruction(body@, home, i).insns_issued == body@.insns_issued,
        without_block(body@, b).blocks_issued == body@.blocks_issued,
        without_block(body@, b).insns_issued == body@.insns_issued,
{
}

/// `body`, in which `b` has been split at `at` into itself and `tail`, with
/// the branch `j` to `tail` at the end of `b`, and the edge `e` for it.
pub open spec fn rejoined(
    body: BodyView,
    b: LocalBlockId,
    at: int,
    tail: LocalBlockId,
    j: LocalInsnId,
    branch: InsnView,
    e: EdgeId,
) -> BodyView {
    let split = split_at(body, b, at, tail);
    BodyView {
        insns: split.insns.insert(j, branch),
        edges: split.edges.insert(e, EdgeData { from: b, to: tail }),
        blocks: split.blocks.insert(
            b,
            BlockView { insns: split.blocks[b].insns.push(j), ..split.blocks[b] },
        ),
        ..split
    }
}

/// A block that is split, and takes its tail back over a branch to it, is what
/// it was: with its instructions in their order, and with its edges.
pub proof fn law_absorbing_undoes_splitting(
    body: BodyView,
    b: LocalBlockId,
    at: int,
    tail: LocalBlockId,
    j: LocalInsnId,
    branch: InsnView,
    e: EdgeId,
)
    requires
        body.blocks.contains_key(b),
        !body.blocks.contains_key(tail),
        !body.roster.contains(tail),
        body.root != Some(tail),
        0 <= at <= body.blocks[b].insns.len(),
        !body.insns.contains_key(j),
        !body.blocks[b].insns.contains(j),
        branch.name is None,
        branch.mnemonic.shape.terminates(),
        !body.edges.contains_key(e),
        forall|x: EdgeId| #[trigger] body.edges.contains_key(x) ==> body.edges[x].from != tail,
    ensures
        ({
            let back = absorbed(rejoined(body, b, at, tail, j, branch, e), b, tail, e);
            back == (BodyView { blocks_issued: body.blocks_issued + 1, ..body })
        }),
{
    let w = rejoined(body, b, at, tail, j, branch, e);
    let back = absorbed(w, b, tail, e);
    let s = body.blocks[b].insns;
    let front = s.take(at);
    assert(w.blocks[b].insns == front.push(j));
    assert(last_of(w.blocks[b].insns) == Some(j));
    assert(!front.contains(j));
    lemma_without_pushed(front, j);
    assert(w.blocks[tail] == (BlockView { insns: s.skip(at), ..empty_block() }));
    assert(front + s.skip(at) =~= s);
    let cut = without_instruction(
        BodyView { edges: w.edges.remove(e), ..w },
        Some(b),
        j,
    );
    assert(w.edges.remove(e) =~= edges_rehomed(body.edges, tail, b));
    assert(cut.edges =~= edges_rehomed(body.edges, tail, b));
    assert(edges_rehomed(cut.edges, b, tail) =~= body.edges);
    assert(cut.insns =~= body.insns);
    assert(body.blocks[b].extra_addresses + (Seq::<u64>::empty() + Seq::<u64>::empty())
        =~= body.blocks[b].extra_addresses);
    assert(back.blocks =~= body.blocks);
    lemma_without_pushed(body.roster, tail);
    assert(body.params.remove_keys(Seq::<crate::ids::LocalParamId>::empty().to_set())
        =~= body.params);
    assert(back.params =~= body.params);
}

/// Splits the block `b` of `start` at its instruction number `at`, and joins
/// the halves by a branch without arguments, call by call: `split` is what
/// `split_block_before` makes of `start`, `pushed` has the branch `j` besides,
/// which is at the end of `b` in `linked`, and `joined` has the edge `e` for it.
pub open spec fn split_and_joined(
    start: FunctionBody,
    split: FunctionBody,
    pushed: FunctionBody,
    linked: FunctionBody,
    joined: FunctionBody,
    b: LocalBlockId,
    at: int,
    tail: LocalBlockId,
    j: LocalInsnId,
    branch: InsnView,
    e: EdgeId,
) -> bool {
    // The split.
    &&& start@.blocks.contains_key(b)
    &&& 0 <= at < start@.blocks[b].insns.len()
    &&& tail.0 == start@.blocks_issued
    &&& split@ == split_at(start@, b, at, tail)
    &&& lists_split(start, split, b, tail)
    // The branch.
    &&& j.0 == split@.insns_issued
    &&& branch.name is None
    &&& branch.mnemonic.shape == (Shape::Branch { target: tail, args: 0 })
    &&& branch.mnemonic.operands.len() == 0
    &&& pushed@ == (BodyView {
        insns: split@.insns.insert(j, branch),
        insns_issued: split@.insns_issued + 1,
        ..split@
    })
    &&& edges_untouched(split, pushed)
    &&& linked@ == moved_last(pushed@, None, b, j)
    &&& edges_untouched(pushed, linked)
    // The edge.
    &&& e.0 == linked@.edges_issued
    &&& joined@ == (BodyView {
        edges: linked@.edges.insert(e, EdgeData { from: b, to: tail }),
        edges_issued: linked@.edges_issued + 1,
        ..linked@
    })
    &&& forall|x: LocalBlockId|
        linked.has_block(x) ==> #[trigger] joined.block_rec(x).edges@ == (if x == b || x == tail {
            linked.block_rec(x).edges@.push(e)
        } else {
            linked.block_rec(x).edges@
        })
}

/// Whether every block lists the edges it listed in `start`, `b` those that
/// enter it first.
pub open spec fn lists_given_back(start: FunctionBody, end: FunctionBody, b: LocalBlockId) -> bool {
    &&& end.block_rec(b).edges@ == start.block_rec(b).edges@.filter(
        |x: EdgeId| start@.edges[x].to == b,
    ) + start.block_rec(b).edges@.filter(|x: EdgeId| start@.edges[x].from == b)
    &&& forall|x: LocalBlockId|
        start.has_block(x) && x != b ==> #[trigger] end.block_rec(x).edges@ == start.block_rec(
            x,
        ).edges@
}

/// The halves of a block that was split and joined by a branch can be merged.
pub proof fn law_a_split_block_can_be_absorbed(
    start: FunctionBody,
    split: FunctionBody,
    pushed: FunctionBody,
    linked: FunctionBody,
    joined: FunctionBody,
    b: LocalBlockId,
    at: int,
    tail: LocalBlockId,
    j: LocalInsnId,
    branch: InsnView,
    e: EdgeId,
)
    requires
        start.wf(),
        split_and_joined(start, split, pushed, linked, joined, b, at, tail, j, branch, e),
    ensures
        joined.can_absorb(b, tail, e),
{
    lemma_rejoining_calls(start, split, pushed, linked, joined, b, at, tail, j, branch, e);
    lemma_split_frame(start, b, at, tail, j, e);
    assert(last_of(joined@.blocks[b].insns) == Some(j));
    assert forall|x: EdgeId| #[trigger]
        joined@.edges.contains_key(x) && joined@.edges[x].to == tail implies joined@.edges[x].from
        == b by {
        if x != e {
            assert(start@.edges.contains_key(x));
            assert(start.has_edge(x));
            assert(start.edge_ok(x));
            assert(start@.blocks.contains_key(start@.edges[x].to));
        }
    }
}

/// Splitting a block that has no edge to itself, joining the halves by a branch
/// without arguments and merging them again gives the body back, but for the
/// ids that were handed out on the way. `end` is what `absorb_block` makes of
/// `joined`. Every block lists its outgoing and its incoming edges in their
/// order, and every instruction is among the users of a value as often as it
/// was.
pub proof fn law_splitting_and_absorbing_give_the_body_back(
    start: FunctionBody,
    split: FunctionBody,
    pushed: FunctionBody,
    linked: FunctionBody,
    joined: FunctionBody,
    end: FunctionBody,
    b: LocalBlockId,
    at: int,
    tail: LocalBlockId,
    j: LocalInsnId,
    branch: InsnView,
    e: EdgeId,
    v: LocalValueId,
    i: LocalInsnId,
)
    requires
        start.wf(),
        start.uses_complete(),
        start@.root != Some(tail),
        forall|x: EdgeId| #[trigger]
            start@.edges.contains_key(x) && start@.edges[x].from == b ==> start@.edges[x].to != b,
        split_and_joined(start, split, pushed, linked, joined, b, at, tail, j, branch, e),
        end.wf(),
        end.uses_complete(),
        exists|bound: FunctionBody| #[trigger]
            params_bound(joined, joined@.blocks[tail].params, joined.branch_args(b), bound)
                && end@ == absorbed(bound@, b, tail, e),
        lists_absorbed(joined, end, b, tail),
        start.has_home(v),
    ensures
        end@ == (BodyView {
            blocks_issued: start@.blocks_issued + 1,
            insns_issued: start@.insns_issued + 1,
            edges_issued: start@.edges_issued + 1,
            ..start@
        }),
        lists_given_back(start, end, b),
        end.use_list(v).map_values(|u: UseId| end.use_rec(u).user).to_multiset().count(i)
            == start.use_list(v).map_values(|u: UseId| start.use_rec(u).user).to_multiset().count(
            i,
        ),
{
    lemma_halves_joined(start, split, pushed, linked, joined, b, at, tail, j, branch, e);
    lemma_nothing_to_bind(joined, end@, b, tail, e);
    lemma_rejoined_back(start, split, joined, end, b, at, tail, j, branch, e);
    lemma_same_users(start, end, v, i);
}

/// Without parameters, merging binds none.
proof fn lemma_nothing_to_bind(
    joined: FunctionBody,
    end: BodyView,
    b: LocalBlockId,
    tail: LocalBlockId,
    e: EdgeId,
)
    requires
        joined@.blocks[tail].params.len() == 0,
        exists|bound: FunctionBody| #[trigger]
            params_bound(joined, joined@.blocks[tail].params, joined.branch_args(b), bound) && end
                == absorbed(bound@, b, tail, e),
    ensures
        end == absorbed(joined@, b, tail, e),
{
    let bound = choose|bound: FunctionBody| #[trigger]
        params_bound(joined, joined@.blocks[tail].params, joined.branch_args(b), bound) && end
            == absorbed(bound@, b, tail, e);
    assert(bound == joined);
}

/// What splitting a block and joining its halves come to.
#[verifier::opaque]
spec fn halves_joined(
    start: FunctionBody,
    split: FunctionBody,
    joined: FunctionBody,
    b: LocalBlockId,
    at: int,
    tail: LocalBlockId,
    j: LocalInsnId,
    branch: InsnView,
    e: EdgeId,
) -> bool {
    &&& start@.root != Some(tail)
    &&& start@.blocks.contains_key(b)
    &&& 0 <= at < start@.blocks[b].insns.len()
    &&& forall|x: EdgeId| #[trigger]
        start@.edges.contains_key(x) && start@.edges[x].from == b ==> start@.edges[x].to != b
    &&& tail.0 == start@.blocks_issued
    &&& split@ == split_at(start@, b, at, tail)
    &&& lists_split(start, split, b, tail)
    &&& j.0 == start@.insns_issued
    &&& e.0 == start@.edges_issued
    &&& branch.name is None
    &&& branch.mnemonic.shape == (Shape::Branch { target: tail, args: 0 })
    &&& joined@ == (BodyView {
        insns_issued: start@.insns_issued + 1,
        edges_issued: start@.edges_issued + 1,
        ..rejoined(start@, b, at, tail, j, branch, e)
    })
    &&& forall|x: LocalBlockId|
        split.has_block(x) ==> #[trigger] joined.block_rec(x).edges@ == (if x == b || x == tail {
            split.block_rec(x).edges@.push(e)
        } else {
            split.block_rec(x).edges@
        })
}

/// The calls that join the halves of a block join them.
proof fn lemma_halves_joined(
    start: FunctionBody,
    split: FunctionBody,
    pushed: FunctionBody,
    linked: FunctionBody,
    joined: FunctionBody,
    b: LocalBlockId,
    at: int,
    tail: LocalBlockId,
    j: LocalInsnId,
    branch: InsnView,
    e: EdgeId,
)
    requires
        start.wf(),
        start@.root != Some(tail),
        forall|x: EdgeId| #[trigger]
            start@.edges.contains_key(x) && start@.edges[x].from == b ==> start@.edges[x].to != b,
        split_and_joined(start, split, pushed, linked, joined, b, at, tail, j, branch, e),
    ensures
        halves_joined(start, split, joined, b, at, tail, j, branch, e),
        joined@.blocks[tail].params.len() == 0,
{
    reveal(halves_joined);
    lemma_rejoining_calls(start, split, pushed, linked, joined, b, at, tail, j, branch, e);
}

/// The body is given back, with the lists of its blocks.
proof fn lemma_rejoined_back(
    start: FunctionBody,
    split: FunctionBody,
    joined: FunctionBody,
    end: FunctionBody,
    b: LocalBlockId,
    at: int,
    tail: LocalBlockId,
    j: LocalInsnId,
    branch: InsnView,
    e: EdgeId,
)
    requires
        start.wf(),
        halves_joined(start, split, joined, b, at, tail, j, branch, e),
        end@ == absorbed(joined@, b, tail, e),
        lists_absorbed(joined, end, b, tail),
    ensures
        end@ == (BodyView {
            blocks_issued: start@.blocks_issued + 1,
            insns_issued: start@.insns_issued + 1,
            edges_issued: start@.edges_issued + 1,
            ..start@
        }),
        lists_given_back(start, end, b),
{
    reveal(halves_joined);
    lemma_rejoined_view(start, joined@, end@, b, at, tail, j, branch, e);
    lemma_split_frame(start, b, at, tail, j, e);
    lemma_rejoined_lists(start, split, joined, end, b, at, tail, j, branch, e);
}

/// What the calls that join the halves of a block come to.
proof fn lemma_rejoining_calls(
    start: FunctionBody,
    split: FunctionBody,
    pushed: FunctionBody,
    linked: FunctionBody,
    joined: FunctionBody,
    b: LocalBlockId,
    at: int,
    tail: LocalBlockId,
    j: LocalInsnId,
    branch: InsnView,
    e: EdgeId,
)
    requires
        start.wf(),
        split_and_joined(start, split, pushed, linked, joined, b, at, tail, j, branch, e),
    ensures
        joined@ == (BodyView {
            insns_issued: start@.insns_issued + 1,
            edges_issued: start@.edges_issued + 1,
            ..rejoined(start@, b, at, tail, j, branch, e)
        }),
        joined@.blocks[tail].params.len() == 0,
        e.0 == start@.edges_issued,
        j.0 == start@.insns_issued,
        forall|x: LocalBlockId|
            split.has_block(x) ==> #[trigger] joined.block_rec(x).edges@ == (if x == b || x == tail {
                split.block_rec(x).edges@.push(e)
            } else {
                split.block_rec(x).edges@
            }),
{
    assert forall|x: LocalBlockId| split.has_block(x) implies #[trigger] joined.block_rec(x).edges@
        == (if x == b || x == tail {
        split.block_rec(x).edges@.push(e)
    } else {
        split.block_rec(x).edges@
    }) by {
        assert(split@.blocks.contains_key(x));
        assert(pushed@.blocks.contains_key(x));
        assert(linked@.blocks.contains_key(x));
        assert(linked.block_rec(x).edges == pushed.block_rec(x).edges);
        assert(pushed.block_rec(x).edges == split.block_rec(x).edges);
    }
}

/// Two bodies with the same operands and the same values have the same users.
proof fn lemma_same_users(start: FunctionBody, end: FunctionBody, v: LocalValueId, i: LocalInsnId)
    requires
        start.wf(),
        start.uses_complete(),
        end.wf(),
        end.uses_complete(),
        end@.insns == start@.insns,
        end@.blocks == start@.blocks,
        end@.params == start@.params,
        end@.temps == start@.temps,
        start.has_home(v),
    ensures
        end.use_list(v).map_values(|u: UseId| end.use_rec(u).user).to_multiset().count(i)
            == start.use_list(v).map_values(|u: UseId| start.use_rec(u).user).to_multiset().count(
            i,
        ),
{
    assert(end.has_home(v)) by {
        if let LocalValueId::Temp(t) = v {
            assert(start.temps@.len() == start@.temps.len());
            assert(end.temps@.len() == end@.temps.len());
        }
    }
    law_users_count_the_occurrences(start, v, i);
    law_users_count_the_occurrences(end, v, i);
}

proof fn lemma_rejoined_view(
    start: FunctionBody,
    joined: BodyView,
    end: BodyView,
    b: LocalBlockId,
    at: int,
    tail: LocalBlockId,
    j: LocalInsnId,
    branch: InsnView,
    e: EdgeId,
)
    requires
        start.wf(),
        start@.root != Some(tail),
        start@.blocks.contains_key(b),
        0 <= at < start@.blocks[b].insns.len(),
        tail.0 == start@.blocks_issued,
        j.0 == start@.insns_issued,
        e.0 == start@.edges_issued,
        branch.name is None,
        branch.mnemonic.shape == (Shape::Branch { target: tail, args: 0 }),
        joined == (BodyView {
            insns_issued: start@.insns_issued + 1,
            edges_issued: start@.edges_issued + 1,
            ..rejoined(start@, b, at, tail, j, branch, e)
        }),
        end == absorbed(joined, b, tail, e),
    ensures
        end == (BodyView {
            blocks_issued: start@.blocks_issued + 1,
            insns_issued: start@.insns_issued + 1,
            edges_issued: start@.edges_issued + 1,
            ..start@
        }),
{
    lemma_split_frame(start, b, at, tail, j, e);
    law_absorbing_undoes_splitting(start@, b, at, tail, j, branch, e);
    lemma_absorbed_counts(
        rejoined(start@, b, at, tail, j, branch, e),
        start@.insns_issued + 1,
        start@.edges_issued + 1,
        b,
        tail,
        e,
    );
}

#[verifier::rlimit(30)]
proof fn lemma_rejoined_lists(
    start: FunctionBody,
    split: FunctionBody,
    joined: FunctionBody,
    end: FunctionBody,
    b: LocalBlockId,
    at: int,
    tail: LocalBlockId,
    j: LocalInsnId,
    branch: InsnView,
    e: EdgeId,
)
    requires
        start.cfg_wf(),
        start@.blocks.contains_key(b),
        !start@.blocks.contains_key(tail),
        !start@.edges.contains_key(e),
        forall|x: EdgeId| #[trigger]
            start@.edges.contains_key(x) && start@.edges[x].from == b ==> start@.edges[x].to != b,
        split@ == split_at(start@, b, at, tail),
        lists_split(start, split, b, tail),
        joined@ == (BodyView {
            insns_issued: start@.insns_issued + 1,
            edges_issued: start@.edges_issued + 1,
            ..rejoined(start@, b, at, tail, j, branch, e)
        }),
        forall|x: LocalBlockId|
            split.has_block(x) ==> #[trigger] joined.block_rec(x).edges@ == (if x == b || x == tail {
                split.block_rec(x).edges@.push(e)
            } else {
                split.block_rec(x).edges@
            }),
        lists_absorbed(joined, end, b, tail),
    ensures
        lists_given_back(start, end, b),
{
    assert forall|x: LocalBlockId| #[trigger] start.has_block(x) implies split.has_block(x)
        && joined.has_block(x) by {
        assert(start@.blocks.contains_key(x));
        assert(split@.blocks.contains_key(x));
        assert(joined@.blocks.contains_key(x));
    }
    assert(split@.blocks.contains_key(tail));
    assert forall|x: EdgeId| start.has_edge(x) implies #[trigger] joined@.edges[x] == (EdgeData {
        from: if start@.edges[x].from == b {
            tail
        } else {
            start@.edges[x].from
        },
        to: start@.edges[x].to,
    }) && x != e by {
        assert(start@.edges.contains_key(x));
    }
    assert forall|x: EdgeId| #[trigger] start.has_edge(x) implies start@.edges[x]
        == start.edge_rec(x) && (start@.edges[x].from == b ==> start@.edges[x].to != b) by {
        assert(start@.edges.contains_key(x));
    }
    lemma_split_lists_rejoin(start, split, joined, end, b, tail, e);
}

/// What the next ids of a body do not name yet.
proof fn lemma_split_frame(
    start: FunctionBody,
    b: LocalBlockId,
    at: int,
    tail: LocalBlockId,
    j: LocalInsnId,
    e: EdgeId,
)
    requires
        start.wf(),
        start@.blocks.contains_key(b),
        tail.0 == start@.blocks_issued,
        j.0 == start@.insns_issued,
        e.0 == start@.edges_issued,
    ensures
        !start@.blocks.contains_key(tail),
        !start@.roster.contains(tail),
        !start@.insns.contains_key(j),
        !start@.blocks[b].insns.contains(j),
        !start@.edges.contains_key(e),
        forall|x: EdgeId| #[trigger]
            start@.edges.contains_key(x) ==> start@.edges[x].from != tail && start@.edges[x].to
                != tail,
{
    if start@.roster.contains(tail) {
        let k = start.roster@.index_of(tail);
        assert(start.has_block(start.roster@[k]));
    }
    if start@.blocks[b].insns.contains(j) {
        law_an_instruction_is_in_one_block(start, b, j);
    }
    assert forall|x: EdgeId| #[trigger] start@.edges.contains_key(x) implies start@.edges[x].from
        != tail && start@.edges[x].to != tail by {
        assert(start.has_edge(x));
        assert(start.edge_ok(x));
    }
}

/// Merging does not look at the counts of what was handed out.
proof fn lemma_absorbed_counts(
    body: BodyView,
    insns: nat,
    edges: nat,
    b: LocalBlockId,
    tail: LocalBlockId,
    e: EdgeId,
)
    ensures
        absorbed(
            (BodyView { insns_issued: insns, edges_issued: edges, ..body }),
            b,
            tail,
            e,
        ) == (BodyView {
            insns_issued: insns,
            edges_issued: edges,
            ..absorbed(body, b, tail, e)
        }),
{
}

/// How the blocks list the edges once a block was split, joined to its tail by
/// the edge `e`, and merged with it.
proof fn lemma_split_lists_rejoin(
    start: FunctionBody,
    split: FunctionBody,
    joined: FunctionBody,
    end: FunctionBody,
    b: LocalBlockId,
    tail: LocalBlockId,
    e: EdgeId,
)
    requires
        start.cfg_wf(),
        start.has_block(b),
        split.has_block(tail),
        b != tail,
        !start.has_block(tail),
        forall|x: LocalBlockId| #[trigger] start.has_block(x) ==> split.has_block(x),
        forall|x: LocalBlockId| #[trigger] start.has_block(x) ==> joined.has_block(x),
        forall|x: EdgeId|
            start.has_edge(x) ==> #[trigger] joined@.edges[x] == (EdgeData {
                from: if start@.edges[x].from == b {
                    tail
                } else {
                    start@.edges[x].from
                },
                to: start@.edges[x].to,
            }) && x != e,
        forall|x: EdgeId| #[trigger] start.has_edge(x) ==> start@.edges[x] == start.edge_rec(x),
        forall|x: EdgeId| #[trigger]
            start.has_edge(x) && start@.edges[x].from == b ==> start@.edges[x].to != b,
        joined@.edges[e] == (EdgeData { from: b, to: tail }),
        lists_split(start, split, b, tail),
        forall|x: LocalBlockId|
            split.has_block(x) ==> #[trigger] joined.block_rec(x).edges@ == (if x == b || x == tail {
                split.block_rec(x).edges@.push(e)
            } else {
                split.block_rec(x).edges@
            }),
        lists_absorbed(joined, end, b, tail),
    ensures
        lists_given_back(start, end, b),
{
    let bs = start.block_rec(b).edges@;
    let enters = |x: EdgeId| start@.edges[x].to == b;
    let leaves = |x: EdgeId| start@.edges[x].from == b;
    let stays = |x: EdgeId| joined@.edges[x].from != b;
    let moves = |x: EdgeId| joined@.edges[x].from == tail && joined@.edges[x].to != b;
    assert(start.incident_ok(b));
    assert forall|x: EdgeId| bs.contains(x) implies start.has_edge(x) && start.edge_ok(x) by {}
    // What enters the block was there, and stays.
    let ins = bs.filter(enters);
    lemma_filter_leaves(bs, enters);
    lemma_filter_everything(ins, stays);
    lemma_filter_pushed(ins, e, stays);
    // What leaves the tail left the block.
    let outs = bs.filter(leaves);
    lemma_filter_leaves(bs, leaves);
    lemma_filter_everything(outs, moves);
    lemma_filter_pushed(outs, e, moves);
    assert(joined.block_rec(b).edges@ == ins.push(e));
    assert(joined.block_rec(tail).edges@ == outs.push(e));
    assert(end.block_rec(b).edges@ == ins + outs);
    assert forall|x: LocalBlockId| start.has_block(x) && x != b implies #[trigger] end.block_rec(
        x,
    ).edges@ == start.block_rec(x).edges@ by {
        let s = start.block_rec(x).edges@;
        assert(split.has_block(x) && joined.has_block(x) && x != tail);
        assert(joined.block_rec(x).edges@ == split.block_rec(x).edges@);
        assert(split.block_rec(x).edges@ == s);
        assert(start.incident_ok(x));
        lemma_filter_everything(s, stays);
    }
}

/// A filter on a sequence with one more item that it does not hold of.
proof fn lemma_filter_pushed<T>(s: Seq<T>, x: T, p: spec_fn(T) -> bool)
    requires
        !p(x),
    ensures
        s.push(x).filter(p) == s.filter(p),
{
    reveal(Seq::filter);
    assert(s.push(x).drop_last() =~= s);
}

/// A value whose uses were all moved to another is named by no operand.
pub proof fn law_a_replaced_value_is_not_used(
    body: FunctionBody,
    from: LocalValueId,
    to: LocalValueId,
    i: LocalInsnId,
    k: int,
)
    requires
        body.wf(),
        body.uses_complete(),
        body.has_home(from),
        from != to,
        body.has_insn(i),
        0 <= k < body.operands(i).len(),
    ensures
        with_uses_moved(body, from, to).insns[i].mnemonic.operands[k] != from,
{
    if body.operands(i)[k] == from {
        assert(body.has_use_of(i, k));
    }
}

/// The uses of a value follow from the operands alone: two bodies with the
/// same contents, both with a use for every operand, list the same operands
/// under a value.
pub proof fn law_uses_follow_from_the_operands(
    a: FunctionBody,
    b: FunctionBody,
    value: LocalValueId,
    i: LocalInsnId,
    k: int,
)
    requires
        a.wf(),
        b.wf(),
        a.uses_complete(),
        b.uses_complete(),
        a@ == b@,
        a.has_home(value),
        a.has_insn(i),
        0 <= k < a.operands(i).len(),
    ensures
        (exists|p: int|
            0 <= p < a.use_list(value).len() && #[trigger] a.is_use_of(
                a.use_list(value)[p],
                i,
                k,
            )) <==> (exists|q: int|
            0 <= q < b.use_list(value).len() && #[trigger] b.is_use_of(
                b.use_list(value)[q],
                i,
                k,
            )),
{
    assert(a@.insns.contains_key(i));
    assert(b@.insns.contains_key(i));
    assert(a@.insns[i] == a.insn_rec(i)@ && b@.insns[i] == b.insn_rec(i)@);
    assert(a.operands(i) == b.operands(i));
    match value {
        LocalValueId::Instruction(x) => {
            assert(a@.insns.contains_key(x));
            assert(b@.insns.contains_key(x));
            assert(b.has_insn(x));
        },
        LocalValueId::BasicBlock(x) => {
            assert(a@.blocks.contains_key(x));
            assert(b@.blocks.contains_key(x));
            assert(b.has_block(x));
        },
        LocalValueId::BlockParam(x) => {
            assert(a@.params.contains_key(x));
            assert(b@.params.contains_key(x));
            assert(b.has_param(x));
        },
        LocalValueId::Temp(x) => {
            assert(a@.temps.len() == a.temps@.len());
            assert(b@.temps.len() == b.temps@.len());
        },
        _ => {},
    }
    law_users_are_the_occurrences(a, value, i, k);
    law_users_are_the_occurrences(b, value, i, k);
}

/// A deleted block leaves nothing behind: no edge leaves or enters it, the
/// roster does not list it, it is not the entry block, and its instructions
/// and parameters are gone.
pub proof fn law_a_deleted_block_leaves_nothing(body: BodyView, b: LocalBlockId)
    requires
        body.blocks.contains_key(b),
    ensures
        ({
            let out = without_block(body, b);
            &&& !out.blocks.contains_key(b)
            &&& !out.roster.contains(b)
            &&& out.root != Some(b)
            &&& forall|e: EdgeId| #[trigger]
                out.edges.contains_key(e) ==> out.edges[e].from != b && out.edges[e].to != b
            &&& forall|i: LocalInsnId| #[trigger]
                body.blocks[b].insns.contains(i) ==> !out.insns.contains_key(i)
            &&& forall|p: crate::ids::LocalParamId| #[trigger]
                body.blocks[b].params.contains(p) ==> !out.params.contains_key(p)
        }),
{
    let out = without_block(body, b);
    lemma_filter_contains(body.roster, b);
    assert forall|p: crate::ids::LocalParamId| #[trigger]
        body.blocks[b].params.contains(p) implies !out.params.contains_key(p) by {
        assert(body.blocks[b].params.to_set().contains(p));
    }
}

} // verus!
