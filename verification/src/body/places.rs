//! Where things are after an edit, and what stays.

use crate::block::lemma_filter_contains;
use crate::body::blocks::{split_at, without_block};
use crate::body::bulk::{all_taken_out, insns_without, is_dead};
use crate::body::cfg::{edges_not_at, edges_not_from, edges_rehomed};
use crate::body::naming::{own_name, renamed, unique_from};
use crate::body::order::{moved_before, moved_last, taken_out};
use crate::body::remove::without_instruction;
use crate::body::BodyView;
use crate::ids::{EdgeId, LocalBlockId, LocalInsnId, LocalParamId};
use crate::names::{Name, NamesView};
use crate::refs::block::moved_after;
use crate::value::LocalValueId;
use vstd::prelude::*;

verus! {

/// An instruction that is moved stands where it was moved to, right before or
/// right after the other one or last, and in no block that it was in before.
pub proof fn law_a_move_puts_it_there(
    body: BodyView,
    from: Option<LocalBlockId>,
    b: LocalBlockId,
    other: LocalInsnId,
    i: LocalInsnId,
)
    requires
        body.blocks.contains_key(b),
        from matches Some(f) ==> body.blocks.contains_key(f),
        body.blocks[b].insns.contains(other),
        other != i,
    ensures
        ({
            let s = moved_before(body, from, b, other, i).blocks[b].insns;
            exists|k: int| 0 <= k < s.len() - 1 && s[k] == i && #[trigger] s[k + 1] == other
        }),
        ({
            let s = moved_after(body, from, b, other, i).blocks[b].insns;
            exists|k: int| 0 <= k < s.len() - 1 && s[k] == other && #[trigger] s[k + 1] == i
        }),
        ({
            let s = moved_last(body, from, b, i).blocks[b].insns;
            s.len() > 0 && s.last() == i
        }),
        from matches Some(f) ==> !taken_out(body, from, i).blocks[f].insns.contains(i),
        forall|x: LocalBlockId, y: LocalInsnId| #[trigger]
            body.blocks[x].insns.contains(y) && y != i ==> taken_out(
                body,
                from,
                i,
            ).blocks[x].insns.contains(y),
        forall|x: LocalBlockId|
            Some(x) != from ==> #[trigger] taken_out(body, from, i).blocks[x] == body.blocks[x],
{
    let out = taken_out(body, from, i);
    let s = out.blocks[b].insns;
    lemma_filter_contains(body.blocks[b].insns, i);
    if let Some(f) = from {
        lemma_filter_contains(body.blocks[f].insns, i);
    }
    assert(s.contains(other));
    let k = s.index_of(other);
    assert(0 <= k < s.len() && s[k] == other);
    let before = moved_before(body, from, b, other, i).blocks[b].insns;
    assert(before == s.insert(k, i));
    assert(before[k] == i && before[k + 1] == other);
    let after = moved_after(body, from, b, other, i).blocks[b].insns;
    assert(after == s.insert(k + 1, i));
    assert(after[k] == other && after[k + 1] == i);
    assert forall|x: LocalBlockId, y: LocalInsnId| #[trigger]
        body.blocks[x].insns.contains(y) && y != i implies out.blocks[x].insns.contains(y) by {
        lemma_filter_contains(body.blocks[x].insns, i);
    }
}

/// A block that is split keeps what came before the place; what came after is in
/// the new block, in its order. The edges that left the block leave the new one,
/// and those that enter it still do. No instruction changes.
pub proof fn law_a_split_keeps_the_order(
    body: BodyView,
    b: LocalBlockId,
    at: int,
    tail: LocalBlockId,
    k: int,
    e: EdgeId,
    x: LocalBlockId,
)
    requires
        body.blocks.contains_key(b),
        !body.blocks.contains_key(tail),
        0 <= at <= body.blocks[b].insns.len(),
    ensures
        ({
            let s = body.blocks[b].insns;
            let after = split_at(body, b, at, tail);
            let (head, rest) = (after.blocks[b], after.blocks[tail]);
            &&& head.insns.len() == at && rest.insns.len() == s.len() - at
            &&& 0 <= k < at ==> head.insns[k] == s[k]
            &&& at <= k < s.len() ==> rest.insns[k - at] == s[k]
            &&& head.params == body.blocks[b].params && head.name == body.blocks[b].name
                && head.address == body.blocks[b].address
            &&& rest.params.len() == 0 && rest.name is None && rest.address is None
            &&& x != b && x != tail ==> after.blocks[x] == body.blocks[x] && (
            after.blocks.contains_key(x) <==> body.blocks.contains_key(x))
            &&& after.edges.contains_key(e) <==> body.edges.contains_key(e)
            &&& body.edges.contains_key(e) ==> after.edges[e].to == body.edges[e].to
            &&& body.edges.contains_key(e) && body.edges[e].from == b ==> after.edges[e].from == tail
            &&& body.edges.contains_key(e) && body.edges[e].from != b ==> after.edges[e].from
                == body.edges[e].from
            &&& after.insns == body.insns && after.params == body.params && after.names
                == body.names && after.root == body.root
            &&& after.roster == body.roster.push(tail)
        }),
{
}

/// What is deleted with a block is what it held; every other block, instruction,
/// parameter and edge stays as it was.
pub proof fn law_deleting_a_block_leaves_the_rest(
    body: BodyView,
    b: LocalBlockId,
    x: LocalBlockId,
    i: LocalInsnId,
    p: LocalParamId,
    e: EdgeId,
)
    requires
        body.blocks.contains_key(b),
    ensures
        ({
            let after = without_block(body, b);
            &&& x != b ==> (after.blocks.contains_key(x) <==> body.blocks.contains_key(x))
                && after.blocks[x] == body.blocks[x]
            &&& !body.blocks[b].insns.contains(i) ==> (after.insns.contains_key(i)
                <==> body.insns.contains_key(i)) && (body.insns.contains_key(i) ==> after.insns[i]
                == body.insns[i])
            &&& !body.blocks[b].params.contains(p) ==> (after.params.contains_key(p)
                <==> body.params.contains_key(p)) && (body.params.contains_key(p)
                ==> after.params[p] == body.params[p])
            &&& body.edges.contains_key(e) && body.edges[e].from != b && body.edges[e].to != b
                ==> after.edges.contains_key(e) && after.edges[e] == body.edges[e]
            &&& after.edges.contains_key(e) ==> body.edges.contains_key(e)
            &&& x != b ==> (after.roster.contains(x) <==> body.roster.contains(x))
            &&& body.root != Some(b) ==> after.root == body.root
        }),
{
    lemma_filter_contains(body.roster, b);
    let gone = Set::new(|raw: u32| body.blocks[b].insns.contains(LocalInsnId(raw)));
    assert(LocalInsnId(i.0) == i);
    assert(is_dead(gone, i) <==> body.blocks[b].insns.contains(i));
    assert(body.blocks[b].params.to_set().contains(p) <==> body.blocks[b].params.contains(p));
}

/// An instruction that is removed is gone from its block, which keeps the others
/// in order; the edges that leave the block go with it exactly where it ends the
/// block, and no other instruction changes.
pub proof fn law_removing_an_instruction_leaves_the_rest(
    body: BodyView,
    b: LocalBlockId,
    i: LocalInsnId,
    y: LocalInsnId,
    x: LocalBlockId,
    e: EdgeId,
)
    requires
        body.blocks.contains_key(b),
        body.insns.contains_key(i),
    ensures
        ({
            let after = without_instruction(body, Some(b), i);
            &&& !after.insns.contains_key(i)
            &&& !after.blocks[b].insns.contains(i)
            &&& after.blocks[b].insns == body.blocks[b].insns.filter(|j: LocalInsnId| j != i)
            &&& y != i ==> (after.insns.contains_key(y) <==> body.insns.contains_key(y))
                && after.insns[y] == body.insns[y]
            &&& x != b ==> after.blocks[x] == body.blocks[x]
            &&& !body.insns[i].mnemonic.shape.terminates() ==> after.edges == body.edges
            &&& body.insns[i].mnemonic.shape.terminates() ==> (after.edges.contains_key(e)
                <==> body.edges.contains_key(e) && body.edges[e].from != b)
            &&& after.edges.contains_key(e) ==> after.edges[e] == body.edges[e]
            &&& body.insns[i].name matches Some(name) ==> !after.names.held.contains_key(name)
            &&& without_instruction(body, None, i).edges == body.edges
            &&& without_instruction(body, None, i).blocks == body.blocks
        }),
{
    lemma_filter_contains(body.blocks[b].insns, i);
    crate::block::lemma_without_filters(body.blocks[b].insns, i, |j: LocalInsnId| j != i);
}

/// Where several instructions are removed at once, the others stay in their
/// blocks, in their order.
pub proof fn law_the_living_stay_in_order(
    body: BodyView,
    dead: Set<u32>,
    x: LocalBlockId,
    i: LocalInsnId,
)
    requires
        body.blocks.contains_key(x),
    ensures
        ({
            let after = all_taken_out(body, dead);
            let s = after.blocks[x].insns;
            &&& s.contains(i) <==> body.blocks[x].insns.contains(i) && !dead.contains(i.0)
            &&& s == body.blocks[x].insns.filter(|j: LocalInsnId| !dead.contains(j.0))
            &&& after.blocks[x].params == body.blocks[x].params
            &&& insns_without(body.insns, dead).contains_key(i) <==> body.insns.contains_key(i)
                && !dead.contains(i.0)
            &&& !dead.contains(i.0) && body.insns.contains_key(i) ==> insns_without(
                body.insns,
                dead,
            )[i] == body.insns[i]
        }),
{
    let s = body.blocks[x].insns;
    crate::block::lemma_filter_leaves(s, |j: LocalInsnId| !is_dead(dead, j));
    crate::block::lemma_filter_same(
        s,
        |j: LocalInsnId| !is_dead(dead, j),
        |j: LocalInsnId| !dead.contains(j.0),
    );
}

/// Of the edges those that leave a block, those at a block, and those that are
/// given another source are told apart by their ends.
pub proof fn law_edges_are_told_apart_by_their_ends(
    edges: Map<EdgeId, crate::block::EdgeData>,
    a: LocalBlockId,
    b: LocalBlockId,
    e: EdgeId,
)
    ensures
        edges_not_from(edges, a).contains_key(e) <==> edges.contains_key(e) && edges[e].from != a,
        edges_not_from(edges, a).contains_key(e) ==> edges_not_from(edges, a)[e] == edges[e],
        edges_not_at(edges, a).contains_key(e) <==> edges.contains_key(e) && edges[e].from != a
            && edges[e].to != a,
        edges_not_at(edges, a).contains_key(e) ==> edges_not_at(edges, a)[e] == edges[e],
        edges_rehomed(edges, a, b).contains_key(e) <==> edges.contains_key(e),
        edges.contains_key(e) ==> edges_rehomed(edges, a, b)[e].to == edges[e].to,
        edges.contains_key(e) && edges[e].from == b ==> edges_rehomed(edges, a, b)[e].from == a,
        edges.contains_key(e) && edges[e].from != b ==> edges_rehomed(edges, a, b)[e]
            == edges[e],
{
}

/// A value that is renamed carries the name and is found under it, gives its old
/// name up, and takes no name from another value.
pub proof fn law_a_renamed_value_carries_its_name(
    a: BodyView,
    b: BodyView,
    id: LocalValueId,
    name: Name,
    other: Name,
    x: LocalInsnId,
)
    requires
        renamed(a, b, id, name),
        id is Instruction || id is BasicBlock || id is BlockParam,
    ensures
        own_name(b, id) == Some(name),
        b.names.held.contains_key(name) && b.names.held[name] == id,
        own_name(a, id) == Some(other) && other != name ==> !b.names.held.contains_key(other),
        own_name(a, id) != Some(other) && other != name ==> (b.names.held.contains_key(other)
            <==> a.names.held.contains_key(other)) && b.names.held[other] == a.names.held[other],
        id != LocalValueId::Instruction(x) ==> b.insns[x] == a.insns[x],
        b.insns[x].mnemonic == a.insns[x].mnemonic,
        b.edges == a.edges,
        b.roster == a.roster,
{
}

/// A name that is made unique was free: it is the wanted one where that was, and
/// otherwise its base with a suffix below which none was free.
pub proof fn law_a_unique_name_was_free(
    names: NamesView<LocalValueId>,
    bases: Seq<Seq<char>>,
    wanted: Name,
    name: Name,
    n: u32,
)
    requires
        unique_from(names, bases, wanted, name),
    ensures
        !names.held.contains_key(name),
        name.base == wanted.base,
        name != wanted ==> name.suffix > 0 && (names.held.contains_key(wanted) || wanted.suffix
            == 0),
        name != wanted && 0 < n < name.suffix ==> names.held.contains_key(
            Name { base: wanted.base, suffix: n },
        ),
{
}

} // verus!
