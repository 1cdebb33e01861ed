//! The control-flow edges.
//!
//! An edge is stored once and listed by both of the blocks it joins; a block
//! that branches to itself lists its edge once.

use super::{BodyView, FunctionBody};
use crate::block::{
    lemma_filter_contains, lemma_filter_leaves, lemma_filter_same, lemma_filter_twice,
    lemma_without_filters, without, BasicBlock, EdgeData,
};
use crate::body::compose::operands_issued;
use crate::body::edit::{lemma_same_contents, same_contents};
use crate::ids::{BlockId, EdgeId, LocalBlockId, LocalInsnId, LocalParamId, UseId};
use crate::small::small_limit;
use crate::value::LocalValueId;
use vstd::prelude::*;

verus! {

/// Whether two bodies differ in nothing but their control-flow edges.
pub open spec fn same_but_edges(a: FunctionBody, b: FunctionBody) -> bool {
    &&& b == (FunctionBody { blocks: b.blocks, edges: b.edges, ..a })
    &&& a.blocks@.len() == b.blocks@.len()
    &&& forall|x: LocalBlockId| #[trigger] b.has_block(x) <==> a.has_block(x)
    &&& forall|x: LocalBlockId|
        a.has_block(x) ==> #[trigger] b.block_rec(x) == (BasicBlock {
            edges: b.block_rec(x).edges,
            ..a.block_rec(x)
        })
}

/// Changing the control-flow edges touches neither the order of instructions
/// nor the uses.
pub proof fn lemma_edges_frame(a: FunctionBody, b: FunctionBody)
    requires
        same_but_edges(a, b),
        a.wf(),
        b.cfg_wf(),
        b.edges@.len() <= u32::MAX,
    ensures
        b.wf(),
        a.uses_complete() ==> b.uses_complete(),
        b@ == (BodyView { edges: b@.edges, edges_issued: b.edges@.len(), ..a@ }),
{
    assert forall|x: LocalBlockId| a.has_block(x) implies b.block_rec(x)@ == a.block_rec(x)@ by {
        assert(b.block_rec(x).instructions == a.block_rec(x).instructions);
    }
    assert(b@.insns =~= a@.insns);
    assert(b@.params =~= a@.params);
    assert(b@.blocks =~= a@.blocks);
    assert forall|x: LocalBlockId| b.has_block(x) implies #[trigger] b.list_ok(x) by {
        assert(a.list_ok(x));
        assert(b.block_rec(x).instructions == a.block_rec(x).instructions);
        assert forall|k: int| 0 <= k < b.order(x).len() implies #[trigger] b.linked_at(x, k) by {
            assert(a.linked_at(x, k));
        }
    }
    assert forall|i: LocalInsnId| b.has_insn(i) implies #[trigger] b.placed_ok(i) by {
        assert(a.placed_ok(i));
        if let Some(x) = a.insn_rec(i).parent {
            assert(b.block_rec(x).instructions == a.block_rec(x).instructions);
        }
    }
    assert forall|v: LocalValueId| b.has_home(v) == a.has_home(v) && b.head_of(v) == a.head_of(
        v,
    ) by {
        if let LocalValueId::BasicBlock(x) = v {
            if a.has_block(x) {
                assert(b.block_rec(x).first_use == a.block_rec(x).first_use);
            }
        }
    }
    assert(b.use_lists_wf(None)) by {
        assert forall|v: LocalValueId| #[trigger] b.use_list_ok(v) by {
            assert(a.use_list_ok(v));
            assert forall|k: int| 0 <= k < b.use_list(v).len() implies #[trigger] b.use_linked_at(
                v,
                k,
            ) by {
                assert(a.use_linked_at(v, k));
            }
        }
        assert forall|u: UseId| b.has_use(u) implies #[trigger] b.use_list(
            b.use_rec(u).value,
        ).contains(u) by {
            assert(a.use_list(a.use_rec(u).value).contains(u));
        }
    }
    assert(b.uses_faithful()) by {
        assert forall|u: UseId| b.has_use(u) implies #[trigger] b.use_faithful(u) by {
            assert(a.use_faithful(u));
        }
        assert forall|u: UseId, w: UseId, i: LocalInsnId, k: int| #[trigger]
            b.is_use_of(u, i, k) && #[trigger] b.is_use_of(w, i, k) implies u == w by {
            assert(a.is_use_of(u, i, k) && a.is_use_of(w, i, k));
        }
    }
    assert(b.operands_bounded()) by {
        assert forall|i: LocalInsnId| #[trigger] b.has_insn(i) implies b.operands(i).len()
            <= 0x1_0000 by {
            assert(a.has_insn(i));
        }
    }
    if a.uses_complete() {
        assert forall|i: LocalInsnId, k: int|
            b.has_insn(i) && 0 <= k < b.operands(i).len() && b.has_home(
                b.operands(i)[k],
            ) implies #[trigger] b.has_use_of(i, k) by {
            assert(a.has_use_of(i, k));
            let u = choose|u: UseId| #[trigger] a.is_use_of(u, i, k);
            assert(b.is_use_of(u, i, k));
        }
    }
}

/// Whether two blocks differ in nothing but the memory they hold in reserve.
pub open spec fn released(a: BasicBlock, b: BasicBlock) -> bool {
    &&& b == (BasicBlock { params: b.params, edges: b.edges, ..a })
    &&& b.params@ == a.params@
    &&& b.edges@ == a.edges@
}

/// Whether every block of both bodies lists in `b` the edges it listed in `a`.
pub open spec fn edges_untouched(a: FunctionBody, b: FunctionBody) -> bool {
    forall|x: LocalBlockId|
        a.has_block(x) && b.has_block(x) ==> #[trigger] b.block_rec(x).edges == a.block_rec(x).edges
}

pub(crate) proof fn lemma_untouched_trans(a: FunctionBody, b: FunctionBody, c: FunctionBody)
    requires
        edges_untouched(a, b),
        edges_untouched(b, c),
        forall|x: LocalBlockId| c@.blocks.contains_key(x) ==> #[trigger] b@.blocks.contains_key(x),
    ensures
        edges_untouched(a, c),
{
    assert forall|x: LocalBlockId| a.has_block(x) && c.has_block(x) implies #[trigger] c.block_rec(
        x,
    ).edges == a.block_rec(x).edges by {
        assert(c@.blocks.contains_key(x));
        assert(b@.blocks.contains_key(x));
        assert(b.block_rec(x).edges == a.block_rec(x).edges);
    }
}

/// Whether every block of both bodies lists in `b`, in the same order, those of
/// the edges it listed in `a` that `keep` holds of.
pub open spec fn lists_filtered(
    a: FunctionBody,
    b: FunctionBody,
    keep: spec_fn(EdgeId) -> bool,
) -> bool {
    forall|x: LocalBlockId|
        a.has_block(x) && b.has_block(x) ==> #[trigger] b.block_rec(x).edges@ == a.block_rec(
            x,
        ).edges@.filter(keep)
}

/// Whether every block of both bodies lists in `b`, in the same order, those of
/// the edges it listed in `a` that are still there: all of them, where the
/// edges are the same.
pub open spec fn lists_kept(a: FunctionBody, b: FunctionBody) -> bool {
    &&& lists_filtered(a, b, |e: EdgeId| b@.edges.contains_key(e))
    &&& b@.edges == a@.edges ==> forall|x: LocalBlockId|
        a.has_block(x) && b.has_block(x) ==> #[trigger] b.block_rec(x).edges@ == a.block_rec(
            x,
        ).edges@
}

/// Lists filtered by what is there are kept.
proof fn lemma_there_kept(a: FunctionBody, b: FunctionBody)
    requires
        a.wf(),
        lists_filtered(a, b, |e: EdgeId| b@.edges.contains_key(e)),
    ensures
        lists_kept(a, b),
{
    let there = |e: EdgeId| b@.edges.contains_key(e);
    if b@.edges == a@.edges {
        assert forall|x: LocalBlockId|
            a.has_block(x) && b.has_block(x) implies #[trigger] b.block_rec(x).edges@
            == a.block_rec(x).edges@ by {
            assert(a.incident_ok(x));
            assert forall|e: EdgeId| a.block_rec(x).edges@.contains(e) implies there(e) by {
                assert(a.has_edge(e));
                assert(a@.edges.contains_key(e));
            }
            lemma_filter_everything(a.block_rec(x).edges@, there);
        }
    }
}

/// Where no edge goes, the lists that stay as they are are kept.
pub(crate) proof fn lemma_untouched_kept(a: FunctionBody, b: FunctionBody)
    requires
        a.wf(),
        edges_untouched(a, b),
        forall|e: EdgeId| #[trigger] a@.edges.contains_key(e) ==> b@.edges.contains_key(e),
    ensures
        lists_kept(a, b),
{
    let keep = |e: EdgeId| b@.edges.contains_key(e);
    assert forall|x: LocalBlockId| a.has_block(x) && b.has_block(x) implies #[trigger] b.block_rec(
        x,
    ).edges@ == a.block_rec(x).edges@.filter(keep) by {
        assert(a.incident_ok(x));
        assert forall|e: EdgeId| a.block_rec(x).edges@.contains(e) implies keep(e) by {
            assert(a.has_edge(e));
            assert(a@.edges.contains_key(e));
        }
        lemma_filter_everything(a.block_rec(x).edges@, keep);
    }
    lemma_there_kept(a, b);
}

/// Lists filtered by what stays are kept.
pub(crate) proof fn lemma_filtered_kept(
    a: FunctionBody,
    b: FunctionBody,
    keep: spec_fn(EdgeId) -> bool,
)
    requires
        a.wf(),
        lists_filtered(a, b, keep),
        forall|e: EdgeId|
            #[trigger] a@.edges.contains_key(e) ==> keep(e) == b@.edges.contains_key(e),
    ensures
        lists_kept(a, b),
{
    let there = |e: EdgeId| b@.edges.contains_key(e);
    assert forall|e: EdgeId| a.has_edge(e) implies keep(e) == there(e) by {
        assert(a@.edges.contains_key(e));
    }
    lemma_lists_same(a, b, keep, there);
    lemma_there_kept(a, b);
}

/// Lists that are kept twice are kept.
pub(crate) proof fn lemma_kept_trans(a: FunctionBody, b: FunctionBody, c: FunctionBody)
    requires
        a.wf(),
        lists_kept(a, b),
        lists_kept(b, c),
        forall|x: LocalBlockId| c@.blocks.contains_key(x) ==> #[trigger] b@.blocks.contains_key(x),
        forall|e: EdgeId| c@.edges.contains_key(e) ==> #[trigger] b@.edges.contains_key(e),
    ensures
        lists_kept(a, c),
{
    let p = |e: EdgeId| b@.edges.contains_key(e);
    let q = |e: EdgeId| c@.edges.contains_key(e);
    assert forall|x: LocalBlockId| a.has_block(x) && c.has_block(x) implies #[trigger] c.block_rec(
        x,
    ).edges@ == a.block_rec(x).edges@.filter(q) by {
        assert(c@.blocks.contains_key(x));
        assert(b@.blocks.contains_key(x));
        let s = a.block_rec(x).edges@;
        assert(b.block_rec(x).edges@ == s.filter(p));
        lemma_filter_twice(s, p, q);
        let pq = |e: EdgeId| p(e) && q(e);
        lemma_filter_same(s, pq, q);
    }
    lemma_there_kept(a, c);
}

/// Whether the blocks list the edges as they do once those that leave `remove`
/// leave `keep` instead: `keep` lists those it did not list yet after the
/// others, and `remove` lists only those that still enter it.
pub open spec fn lists_rehomed(
    a: FunctionBody,
    b: FunctionBody,
    keep: LocalBlockId,
    remove: LocalBlockId,
) -> bool {
    &&& b.block_rec(keep).edges@ == a.block_rec(keep).edges@ + a.block_rec(remove).edges@.filter(
        |e: EdgeId| a@.edges[e].from == remove && a@.edges[e].to != keep,
    )
    &&& b.block_rec(remove).edges@ == a.block_rec(remove).edges@.filter(
        |e: EdgeId| a@.edges[e].from != remove || a@.edges[e].to == remove,
    )
    &&& forall|x: LocalBlockId|
        a.has_block(x) && x != keep && x != remove ==> #[trigger] b.block_rec(x).edges@
            == a.block_rec(x).edges@
}

/// What two sequences together contain.
proof fn lemma_sum_contains<T>(a: Seq<T>, b: Seq<T>, x: T)
    ensures
        (a + b).contains(x) <==> a.contains(x) || b.contains(x),
{
    if a.contains(x) {
        let k = choose|k: int| 0 <= k < a.len() && a[k] == x;
        assert((a + b)[k] == x);
    }
    if b.contains(x) {
        let k = choose|k: int| 0 <= k < b.len() && b[k] == x;
        assert((a + b)[a.len() + k] == x);
    }
}

/// A filter that holds of everything leaves everything.
pub(crate) proof fn lemma_filter_everything<T>(s: Seq<T>, p: spec_fn(T) -> bool)
    requires
        forall|x: T| s.contains(x) ==> p(x),
    ensures
        s.filter(p) == s,
    decreases s.len(),
{
    reveal(Seq::filter);
    if s.len() > 0 {
        let init = s.drop_last();
        assert forall|x: T| init.contains(x) implies p(x) by {
            let k = choose|k: int| 0 <= k < init.len() && init[k] == x;
            assert(s[k] == x);
            assert(s.contains(x));
        }
        lemma_filter_everything(init, p);
        assert(s.contains(s.last()));
        assert(init.push(s.last()) =~= s);
    }
}

/// Filters that agree on the edges there are leave the same lists.
pub(crate) proof fn lemma_lists_same(
    a: FunctionBody,
    b: FunctionBody,
    p: spec_fn(EdgeId) -> bool,
    q: spec_fn(EdgeId) -> bool,
)
    requires
        a.wf(),
        lists_filtered(a, b, p),
        forall|e: EdgeId| a.has_edge(e) ==> p(e) == q(e),
    ensures
        lists_filtered(a, b, q),
{
    assert forall|x: LocalBlockId| a.has_block(x) && b.has_block(x) implies #[trigger] b.block_rec(
        x,
    ).edges@ == a.block_rec(x).edges@.filter(q) by {
        assert(a.incident_ok(x));
        lemma_filter_same(a.block_rec(x).edges@, p, q);
    }
}

/// A block lists no more edges than there were.
pub(crate) proof fn lemma_listed_edges(body: FunctionBody, b: LocalBlockId)
    requires
        body.wf(),
        body.has_block(b),
    ensures
        body.block_rec(b).edges@.len() <= body@.edges_issued,
{
    let s = body.block_rec(b).edges@;
    let n = body@.edges_issued as int;
    assert(body.incident_ok(b));
    let indices = s.map_values(|e: EdgeId| e.0 as int);
    assert(indices.no_duplicates()) by {
        assert forall|i: int, j: int|
            0 <= i < indices.len() && 0 <= j < indices.len() && i != j implies indices[i]
            != indices[j] by {
            assert(s[i] != s[j]);
        }
    }
    indices.unique_seq_to_set();
    vstd::set_lib::lemma_int_range(0, n);
    let all = vstd::set_lib::set_int_range(0, n);
    assert(indices.to_set().subset_of(all)) by {
        assert forall|x: int| indices.to_set().contains(x) implies all.contains(x) by {
            let i = choose|i: int| 0 <= i < indices.len() && indices[i] == x;
            assert(s.contains(s[i]));
            assert(body.has_edge(s[i]));
        }
    }
    vstd::set_lib::lemma_len_subset(indices.to_set(), all);
}

impl FunctionBody {
    /// Whether a block can list all edges there are, and `n` more.
    pub open spec fn edge_room(&self, n: int) -> bool {
        self@.edges_issued + n < small_limit()
    }

    /// Adds a directed edge `from -> to`, listed by both blocks.
    pub fn add_cfg_edge_local(&mut self, from: LocalBlockId, to: LocalBlockId) -> (edge: EdgeId)
        requires
            old(self).wf(),
            old(self)@.blocks.contains_key(from),
            old(self)@.blocks.contains_key(to),
            old(self).edge_room(1),
            old(self).edges.has_room(),
        ensures
            final(self).wf(),
            old(self).uses_complete() ==> final(self).uses_complete(),
            operands_issued(old(self)@) ==> operands_issued(final(self)@),
            final(self).uses@.len() <= old(self).uses@.len(),
            same_but_edges(*old(self), *final(self)),
            edge.0 == old(self)@.edges_issued,
            !old(self).has_edge(edge),
            final(self)@ == (BodyView {
                edges: old(self)@.edges.insert(edge, EdgeData { from, to }),
                edges_issued: old(self)@.edges_issued + 1,
                ..old(self)@
            }),
            forall|b: LocalBlockId|
                old(self).has_block(b) ==> #[trigger] final(self).block_rec(b).edges@ == (if b
                    == from || b == to {
                    old(self).block_rec(b).edges@.push(edge)
                } else {
                    old(self).block_rec(b).edges@
                }),
    {
        let ghost before = *self;
        proof {
            lemma_listed_edges(*self, from);
            lemma_listed_edges(*self, to);
            assert(self.incident_ok(from));
            assert(self.incident_ok(to));
        }
        let raw: u32 = self.edges.push(EdgeData { from, to });
        let edge: EdgeId = EdgeId(raw);
        self.blocks.get_mut(from.0).edges.insert(edge);
        proof {
            assert(self.block_rec(from).edges@.no_duplicates());
        }
        self.blocks.get_mut(to.0).edges.insert(edge);
        proof {
            assert(!before.has_edge(edge));
            assert forall|e: EdgeId| #[trigger] self.has_edge(e) <==> before.has_edge(e) || e
                == edge by {}
            assert forall|e: EdgeId| before.has_edge(e) implies #[trigger] self.edge_rec(e)
                == before.edge_rec(e) by {}
            assert(!before.block_rec(from).edges@.contains(edge));
            assert(!before.block_rec(to).edges@.contains(edge));
            assert forall|b: LocalBlockId| self.has_block(b) implies #[trigger] self.incident_ok(b) && (
            forall|e: EdgeId|
                #![trigger self.block_rec(b).edges@.contains(e)]
                self.block_rec(b).edges@.contains(e) <==> before.block_rec(b).edges@.contains(e) || (
                e == edge && (b == from || b == to))) by {
                assert(before.incident_ok(b));
                let s = before.block_rec(b).edges@;
                if b == from || b == to {
                    assert forall|e: EdgeId| #[trigger] s.push(edge).contains(e) <==> s.contains(e)
                        || e == edge by {
                        super::order::lemma_push_contains(s, edge, e);
                    }
                    assert(self.block_rec(b).edges@ == s.push(edge));
                }
                assert forall|e: EdgeId| #[trigger]
                    self.block_rec(b).edges@.contains(e) implies self.has_edge(e) && (
                self.edge_rec(e).from == b || self.edge_rec(e).to == b) by {
                    if e != edge {
                        assert(s.contains(e));
                    }
                }
            }
            assert forall|e: EdgeId| self.has_edge(e) implies #[trigger] self.edge_ok(e) by {
                assert(self.incident_ok(from));
                assert(self.incident_ok(to));
                if e != edge {
                    assert(before.edge_ok(e));
                    let rec = before.edge_rec(e);
                    assert(self.incident_ok(rec.from));
                    assert(self.incident_ok(rec.to));
                    assert(self.block_rec(rec.from).edges@.contains(e));
                    assert(self.block_rec(rec.to).edges@.contains(e));
                }
            }
            assert(same_but_edges(before, *self));
            lemma_edges_frame(before, *self);
            assert(self@.edges =~= before@.edges.insert(edge, EdgeData { from, to }));
            assert forall|b: LocalBlockId| before.has_block(b) implies #[trigger] self.block_rec(
                b,
            ).edges@ == (if b == from || b == to {
                before.block_rec(b).edges@.push(edge)
            } else {
                before.block_rec(b).edges@
            }) by {
                super::order::lemma_push_contains(before.block_rec(b).edges@, edge, edge);
            }
        }
        edge
    }

    /// Adds a directed edge `from -> to`.
    pub fn add_cfg_edge(&mut self, from: BlockId, to: BlockId) -> (edge: EdgeId)
        requires
            old(self).wf(),
            old(self)@.blocks.contains_key(from.local),
            old(self)@.blocks.contains_key(to.local),
            old(self).edge_room(1),
            old(self).edges.has_room(),
        ensures
            final(self).wf(),
            old(self).uses_complete() ==> final(self).uses_complete(),
            operands_issued(old(self)@) ==> operands_issued(final(self)@),
            final(self).uses@.len() <= old(self).uses@.len(),
            same_but_edges(*old(self), *final(self)),
            edge.0 == old(self)@.edges_issued,
            !old(self).has_edge(edge),
            final(self)@ == (BodyView {
                edges: old(self)@.edges.insert(
                    edge,
                    EdgeData { from: from.local, to: to.local },
                ),
                edges_issued: old(self)@.edges_issued + 1,
                ..old(self)@
            }),
            forall|b: LocalBlockId|
                old(self).has_block(b) ==> #[trigger] final(self).block_rec(b).edges@ == (if b
                    == from.local || b == to.local {
                    old(self).block_rec(b).edges@.push(edge)
                } else {
                    old(self).block_rec(b).edges@
                }),
    {
        self.add_cfg_edge_local(from.local, to.local)
    }

    /// The edge `id`.
    pub fn edge(&self, id: EdgeId) -> (edge: &EdgeData)
        requires
            self@.edges.contains_key(id),
        ensures
            *edge == self.edge_rec(id),
            *edge == self@.edges[id],
    {
        self.edges.get(id.0)
    }

    /// Gives back the memory that the records, the lists of the blocks, the
    /// roster and the uses hold in reserve. What they hold stays.
    pub fn shrink_to_fit(&mut self)
        requires
            old(self).wf(),
        ensures
            final(self).wf(),
            old(self).uses_complete() ==> final(self).uses_complete(),
            operands_issued(old(self)@) ==> operands_issued(final(self)@),
            final(self)@ == old(self)@,
            final(self).insns@ == old(self).insns@,
            final(self).uses@ == old(self).uses@,
            final(self).use_lists == old(self).use_lists,
            forall|b: LocalBlockId|
                old(self).has_block(b) ==> #[trigger] final(self).block_rec(b).edges@ == old(
                    self,
                ).block_rec(b).edges@,
    {
        let ghost before = *self;
        self.insns.shrink_to_fit();
        self.blocks.shrink_to_fit();
        self.params.shrink_to_fit();
        self.edges.shrink_to_fit();
        self.uses.shrink_to_fit();
        self.shared_first_use.shrink_to_fit();
        crate::arena::release(&mut self.roster);
        let ghost shrunk = *self;
        let n: u32 = self.blocks.issued() as u32;
        let mut b: u32 = 0;
        while b < n
            invariant
                n == before.blocks@.len(),
                shrunk.blocks@ == before.blocks@,
                *self == (FunctionBody { blocks: self.blocks, ..shrunk }),
                self.blocks@.len() == before.blocks@.len(),
                forall|x: LocalBlockId| #[trigger]
                    self.has_block(x) == before.has_block(x) && (before.has_block(x)
                        ==> released(before.block_rec(x), self.block_rec(x))),
            decreases n - b,
        {
            if self.blocks.contains(b) {
                let ghost mid = *self;
                proof {
                    assert(mid.has_block(LocalBlockId(b)));
                }
                crate::arena::release(&mut self.blocks.get_mut(b).params);
                self.blocks.get_mut(b).edges.shrink_to_fit();
                proof {
                    assert forall|x: LocalBlockId| #[trigger] self.has_block(x)
                        == before.has_block(x) && (before.has_block(x) ==> released(
                        before.block_rec(x),
                        self.block_rec(x),
                    )) by {
                        assert(mid.has_block(x) == before.has_block(x));
                    }
                }
            }
            b = b + 1;
        }
        proof {
            assert forall|x: LocalBlockId| self.has_block(x) implies self.block_rec(x)@
                == before.block_rec(x)@ by {}
            assert(self@.insns =~= before@.insns);
            assert(self@.blocks =~= before@.blocks);
            assert(self@.params =~= before@.params);
            assert(self@.edges =~= before@.edges);
            assert(self@ == before@);
            assert(same_contents(before, *self)) by {
                assert forall|i: LocalInsnId| #[trigger] self.has_insn(i) == before.has_insn(i)
                    && self.insn_rec(i) == before.insn_rec(i) by {}
                assert forall|p: LocalParamId| #[trigger] self.has_param(p) == before.has_param(p)
                    && self.param_rec(p) == before.param_rec(p) by {}
            }
            lemma_same_contents(before, *self);
            assert forall|x: LocalBlockId| before.has_block(x) implies #[trigger] self.block_rec(
                x,
            ).edges@ == before.block_rec(x).edges@ by {
                assert(self.has_block(x) == before.has_block(x));
            }
        }
    }

    /// Removes an edge from both of its blocks and from storage.
    pub fn remove_cfg_edge(&mut self, edge_id: EdgeId)
        requires
            old(self).wf(),
            old(self)@.edges.contains_key(edge_id),
        ensures
            final(self).wf(),
            old(self).uses_complete() ==> final(self).uses_complete(),
            operands_issued(old(self)@) ==> operands_issued(final(self)@),
            final(self).uses@.len() <= old(self).uses@.len(),
            same_but_edges(*old(self), *final(self)),
            final(self)@ == (BodyView {
                edges: old(self)@.edges.remove(edge_id),
                ..old(self)@
            }),
            forall|b: LocalBlockId|
                old(self).has_block(b) ==> #[trigger] final(self).block_rec(b).edges@ == without(
                    old(self).block_rec(b).edges@,
                    edge_id,
                ),
    {
        let ghost before = *self;
        let data: EdgeData = *self.edges.get(edge_id.0);
        proof {
            assert(self.edge_ok(edge_id));
            assert(self.incident_ok(data.from));
            assert(self.incident_ok(data.to));
        }
        self.blocks.get_mut(data.from.0).edges.remove(&edge_id);
        proof {
            lemma_filter_contains(before.block_rec(data.from).edges@, edge_id);
            lemma_filter_contains(self.block_rec(data.to).edges@, edge_id);
        }
        self.blocks.get_mut(data.to.0).edges.remove(&edge_id);
        self.edges.remove(edge_id.0);
        proof {
            if data.from == data.to {
                crate::block::lemma_filter_keeps_all(
                    without(before.block_rec(data.from).edges@, edge_id),
                    edge_id,
                );
            }
            assert forall|e: EdgeId| #[trigger] self.has_edge(e) <==> before.has_edge(e) && e
                != edge_id by {}
            assert forall|e: EdgeId| self.has_edge(e) implies #[trigger] self.edge_rec(e)
                == before.edge_rec(e) by {}
            assert forall|b: LocalBlockId| before.has_block(b) implies #[trigger] self.block_rec(
                b,
            ).edges@ == without(before.block_rec(b).edges@, edge_id) by {
                assert(before.incident_ok(b));
                if b != data.from && b != data.to {
                    crate::block::lemma_filter_keeps_all(before.block_rec(b).edges@, edge_id);
                }
            }
            assert forall|b: LocalBlockId| self.has_block(b) implies #[trigger] self.incident_ok(
                b,
            ) by {
                assert(before.incident_ok(b));
                lemma_filter_contains(before.block_rec(b).edges@, edge_id);
                assert(self.block_rec(b).edges@ == without(before.block_rec(b).edges@, edge_id));
                assert forall|e: EdgeId| #[trigger]
                    self.block_rec(b).edges@.contains(e) implies self.has_edge(e) && (
                self.edge_rec(e).from == b || self.edge_rec(e).to == b) by {
                    assert(before.block_rec(b).edges@.contains(e));
                }
            }
            assert forall|e: EdgeId| self.has_edge(e) implies #[trigger] self.edge_ok(e) by {
                assert(before.edge_ok(e));
                let rec = before.edge_rec(e);
                lemma_filter_contains(before.block_rec(rec.from).edges@, edge_id);
                lemma_filter_contains(before.block_rec(rec.to).edges@, edge_id);
                assert(self.block_rec(rec.from).edges@ == without(
                    before.block_rec(rec.from).edges@,
                    edge_id,
                ));
                assert(self.block_rec(rec.to).edges@ == without(
                    before.block_rec(rec.to).edges@,
                    edge_id,
                ));
            }
            assert(same_but_edges(before, *self));
            lemma_edges_frame(before, *self);
            assert(self@.edges =~= before@.edges.remove(edge_id));
        }
    }

    /// The edges that leave `block`, in the order the block lists them.
    pub fn outgoing_edges(&self, block: LocalBlockId) -> (edges: Vec<EdgeId>)
        requires
            self.wf(),
            self@.blocks.contains_key(block),
        ensures
            edges@ == self.block_rec(block).edges@.filter(|e: EdgeId| self.edge_rec(e).from == block),
            edges@.no_duplicates(),
            forall|e: EdgeId| #[trigger]
                edges@.contains(e) <==> self.has_edge(e) && self.edge_rec(e).from == block,
    {
        let all: Vec<EdgeId> = self.blocks.get(block.0).edges.to_vec();
        let mut edges: Vec<EdgeId> = Vec::new();
        let ghost leaves = |e: EdgeId| self.edge_rec(e).from == block;
        proof {
            assert(self.incident_ok(block));
            reveal(Seq::filter);
            assert(all@.take(0).filter(leaves) =~= Seq::<EdgeId>::empty());
        }
        let n: usize = all.len();
        let mut k: usize = 0;
        while k < n
            invariant
                self.wf(),
                self.has_block(block),
                self.incident_ok(block),
                all@ == self.block_rec(block).edges@,
                n == all@.len(),
                k <= n,
                leaves == (|e: EdgeId| self.edge_rec(e).from == block),
                edges@ == all@.take(k as int).filter(leaves),
            decreases n - k,
        {
            let e: EdgeId = all[k];
            proof {
                assert(self.block_rec(block).edges@.contains(e));
                reveal(Seq::filter);
                assert(all@.take(k + 1).drop_last() =~= all@.take(k as int));
            }
            if self.edges.get(e.0).from == block {
                edges.push(e);
            }
            k = k + 1;
        }
        proof {
            assert(all@.take(n as int) =~= all@);
            lemma_filter_members(all@, leaves);
            assert forall|e: EdgeId| #[trigger]
                edges@.contains(e) <==> self.has_edge(e) && self.edge_rec(e).from == block by {
                if self.has_edge(e) && self.edge_rec(e).from == block {
                    assert(self.edge_ok(e));
                }
            }
        }
        edges
    }

    /// The outgoing edges of `block`, each with the block it leads to.
    pub open spec fn successor_pairs(&self, block: BlockId) -> Seq<(EdgeId, BlockId)> {
        self.block_rec(block.local).edges@.filter(
            |e: EdgeId| self.edge_rec(e).from == block.local,
        ).map_values(
            |e: EdgeId| (e, BlockId { func: block.func, local: self.edge_rec(e).to }),
        )
    }

    /// The incoming edges of `block`, each with the block it comes from.
    pub open spec fn predecessor_pairs(&self, block: BlockId) -> Seq<(EdgeId, BlockId)> {
        self.block_rec(block.local).edges@.filter(
            |e: EdgeId| self.edge_rec(e).to == block.local,
        ).map_values(
            |e: EdgeId| (e, BlockId { func: block.func, local: self.edge_rec(e).from }),
        )
    }

    /// The outgoing edges of `block`, each with the block it leads to, in the
    /// order the block lists them.
    pub fn successors(&self, block: BlockId) -> (pairs: Vec<(EdgeId, BlockId)>)
        requires
            self.wf(),
            self@.blocks.contains_key(block.local),
        ensures
            pairs@ == self.block_rec(block.local).edges@.filter(
                |e: EdgeId| self.edge_rec(e).from == block.local,
            ).map_values(
                |e: EdgeId|
                    (e, BlockId { func: block.func, local: self.edge_rec(e).to }),
            ),
            pairs@ == self.successor_pairs(block),
    {
        let edges: Vec<EdgeId> = self.outgoing_edges(block.local);
        let mut pairs: Vec<(EdgeId, BlockId)> = Vec::new();
        let n: usize = edges.len();
        let mut k: usize = 0;
        while k < n
            invariant
                n == edges@.len(),
                k <= n,
                forall|e: EdgeId| #[trigger] edges@.contains(e) ==> self.has_edge(e),
                pairs@ == edges@.take(k as int).map_values(
                    |e: EdgeId|
                        (e, BlockId { func: block.func, local: self.edge_rec(e).to }),
                ),
            decreases n - k,
        {
            let e: EdgeId = edges[k];
            proof {
                assert(edges@.contains(e));
            }
            pairs.push((e, BlockId::new(block.func, self.edges.get(e.0).to)));
            k = k + 1;
            proof {
                assert(pairs@ =~= edges@.take(k as int).map_values(
                    |e: EdgeId|
                        (e, BlockId { func: block.func, local: self.edge_rec(e).to }),
                ));
            }
        }
        proof {
            assert(edges@.take(n as int) =~= edges@);
        }
        pairs
    }

    /// The incoming edges of `block`, each with the block it comes from, in
    /// the order the block lists them.
    pub fn predecessors(&self, block: BlockId) -> (pairs: Vec<(EdgeId, BlockId)>)
        requires
            self.wf(),
            self@.blocks.contains_key(block.local),
        ensures
            pairs@ == self.block_rec(block.local).edges@.filter(
                |e: EdgeId| self.edge_rec(e).to == block.local,
            ).map_values(
                |e: EdgeId|
                    (e, BlockId { func: block.func, local: self.edge_rec(e).from }),
            ),
            pairs@ == self.predecessor_pairs(block),
    {
        let all: Vec<EdgeId> = self.blocks.get(block.local.0).edges.to_vec();
        let mut pairs: Vec<(EdgeId, BlockId)> = Vec::new();
        let ghost enters = |e: EdgeId| self.edge_rec(e).to == block.local;
        let ghost source = |e: EdgeId|
            (e, BlockId { func: block.func, local: self.edge_rec(e).from });
        proof {
            assert(self.incident_ok(block.local));
            reveal(Seq::filter);
            assert(all@.take(0).filter(enters).map_values(source) =~= Seq::<
                (EdgeId, BlockId),
            >::empty());
        }
        let n: usize = all.len();
        let mut k: usize = 0;
        while k < n
            invariant
                self.wf(),
                self.has_block(block.local),
                self.incident_ok(block.local),
                all@ == self.block_rec(block.local).edges@,
                n == all@.len(),
                k <= n,
                enters == (|e: EdgeId| self.edge_rec(e).to == block.local),
                source == (|e: EdgeId|
                    (e, BlockId { func: block.func, local: self.edge_rec(e).from })),
                pairs@ == all@.take(k as int).filter(enters).map_values(source),
            decreases n - k,
        {
            let e: EdgeId = all[k];
            let ghost before = all@.take(k as int).filter(enters);
            proof {
                assert(self.block_rec(block.local).edges@.contains(e));
                reveal(Seq::filter);
                assert(all@.take(k + 1).drop_last() =~= all@.take(k as int));
            }
            if self.edges.get(e.0).to == block.local {
                pairs.push((e, BlockId::new(block.func, self.edges.get(e.0).from)));
                proof {
                    assert(before.push(e).map_values(source) =~= before.map_values(source).push(
                        source(e),
                    ));
                }
            }
            k = k + 1;
        }
        proof {
            assert(all@.take(n as int) =~= all@);
        }
        pairs
    }

    /// Removes every edge of `list`.
    pub fn remove_cfg_edges(&mut self, list: &Vec<EdgeId>)
        requires
            old(self).wf(),
            list@.no_duplicates(),
            forall|e: EdgeId| #[trigger] list@.contains(e) ==> old(self)@.edges.contains_key(e),
        ensures
            final(self).wf(),
            old(self).uses_complete() ==> final(self).uses_complete(),
            operands_issued(old(self)@) ==> operands_issued(final(self)@),
            final(self).uses@.len() <= old(self).uses@.len(),
            same_but_edges(*old(self), *final(self)),
            final(self)@ == (BodyView {
                edges: old(self)@.edges.remove_keys(list@.to_set()),
                ..old(self)@
            }),
            lists_filtered(*old(self), *final(self), |e: EdgeId| !list@.contains(e)),
    {
        let ghost before = *self;
        let n: usize = list.len();
        let mut k: usize = 0;
        proof {
            assert(before@.edges.remove_keys(list@.take(0).to_set()) =~= before@.edges);
            lemma_edges_frame(before, before);
            assert forall|x: LocalBlockId| before.has_block(x) implies #[trigger] before.block_rec(
                x,
            ).edges@ == before.block_rec(x).edges@.filter(
                |e: EdgeId| !list@.take(0).contains(e),
            ) by {
                lemma_filter_everything(
                    before.block_rec(x).edges@,
                    |e: EdgeId| !list@.take(0).contains(e),
                );
            }
        }
        while k < n
            invariant
                n == list@.len(),
                k <= n,
                list@.no_duplicates(),
                forall|e: EdgeId| #[trigger] list@.contains(e) ==> before.has_edge(e),
                self.wf(),
                before.uses_complete() ==> self.uses_complete(),
                self.uses@.len() <= before.uses@.len(),
                same_but_edges(before, *self),
                self@ == (BodyView {
                    edges: before@.edges.remove_keys(list@.take(k as int).to_set()),
                    ..before@
                }),
                lists_filtered(before, *self, |e: EdgeId| !list@.take(k as int).contains(e)),
            decreases n - k,
        {
            let e: EdgeId = list[k];
            let ghost mid = *self;
            let ghost done = list@.take(k as int);
            proof {
                assert(list@.contains(e));
                assert(before@.edges.contains_key(e));
                assert(!done.contains(e)) by {
                    if done.contains(e) {
                        let j = choose|j: int| 0 <= j < done.len() && done[j] == e;
                        assert(list@[j] == list@[k as int]);
                    }
                }
                assert(mid@.edges.contains_key(e));
            }
            self.remove_cfg_edge(e);
            proof {
                lemma_edges_trans(before, mid, *self);
                assert(list@.take(k + 1) =~= done.push(e));
                assert forall|x: EdgeId| #[trigger] done.push(e).to_set().contains(x)
                    <==> done.to_set().contains(x) || x == e by {
                    super::order::lemma_push_contains(done, e, x);
                }
                assert(self@.edges =~= before@.edges.remove_keys(list@.take(k + 1).to_set()));
                assert forall|x: LocalBlockId|
                    before.has_block(x) && self.has_block(x) implies #[trigger] self.block_rec(
                    x,
                ).edges@ == before.block_rec(x).edges@.filter(
                    |y: EdgeId| !list@.take(k + 1).contains(y),
                ) by {
                    let s = before.block_rec(x).edges@;
                    let p = |y: EdgeId| !list@.take(k as int).contains(y);
                    let q = |y: EdgeId| y != e;
                    assert(mid.has_block(x));
                    assert(mid.block_rec(x).edges@ == s.filter(p));
                    lemma_without_filters(s.filter(p), e, q);
                    lemma_filter_twice(s, p, q);
                    assert forall|y: EdgeId| s.contains(y) implies (p(y) && q(y)) == !list@.take(
                        k + 1,
                    ).contains(y) by {
                        super::order::lemma_push_contains(done, e, y);
                    }
                    lemma_filter_same(
                        s,
                        |y: EdgeId| p(y) && q(y),
                        |y: EdgeId| !list@.take(k + 1).contains(y),
                    );
                }
            }
            k = k + 1;
        }
        proof {
            assert(list@.take(n as int) =~= list@);
        }
    }

    /// Removes every edge that leaves `block`.
    pub fn remove_outgoing_edges(&mut self, block: LocalBlockId)
        requires
            old(self).wf(),
            old(self)@.blocks.contains_key(block),
        ensures
            final(self).wf(),
            old(self).uses_complete() ==> final(self).uses_complete(),
            operands_issued(old(self)@) ==> operands_issued(final(self)@),
            final(self).uses@.len() <= old(self).uses@.len(),
            same_but_edges(*old(self), *final(self)),
            final(self)@ == (BodyView {
                edges: edges_not_from(old(self)@.edges, block),
                ..old(self)@
            }),
            lists_filtered(
                *old(self),
                *final(self),
                |e: EdgeId| old(self)@.edges[e].from != block,
            ),
    {
        let ghost before = *self;
        let outgoing: Vec<EdgeId> = self.outgoing_edges(block);
        proof {
            assert(self@.edges.remove_keys(outgoing@.to_set()) =~= edges_not_from(
                self@.edges,
                block,
            )) by {
                assert forall|e: EdgeId| self@.edges.contains_key(e) implies (#[trigger] outgoing@.contains(e)
                    <==> self@.edges[e].from == block) by {
                    assert(self.has_edge(e));
                }
            }
        }
        self.remove_cfg_edges(&outgoing);
        proof {
            lemma_lists_same(
                before,
                *self,
                |e: EdgeId| !outgoing@.contains(e),
                |e: EdgeId| before@.edges[e].from != block,
            );
        }
    }

    /// Removes every edge that leaves or enters `block`.
    pub fn remove_incident_edges(&mut self, block: LocalBlockId)
        requires
            old(self).wf(),
            old(self)@.blocks.contains_key(block),
        ensures
            final(self).wf(),
            old(self).uses_complete() ==> final(self).uses_complete(),
            operands_issued(old(self)@) ==> operands_issued(final(self)@),
            final(self).uses@.len() <= old(self).uses@.len(),
            same_but_edges(*old(self), *final(self)),
            final(self)@ == (BodyView {
                edges: edges_not_at(old(self)@.edges, block),
                ..old(self)@
            }),
            lists_filtered(
                *old(self),
                *final(self),
                |e: EdgeId| old(self)@.edges[e].from != block && old(self)@.edges[e].to != block,
            ),
    {
        let ghost before = *self;
        let incident: Vec<EdgeId> = self.blocks.get(block.0).edges.to_vec();
        proof {
            assert(self.incident_ok(block));
            assert(self@.edges.remove_keys(incident@.to_set()) =~= edges_not_at(
                self@.edges,
                block,
            )) by {
                assert forall|e: EdgeId| self@.edges.contains_key(e) implies (#[trigger] incident@.contains(e)
                    <==> self@.edges[e].from == block || self@.edges[e].to == block) by {
                    assert(self.has_edge(e));
                    assert(self.edge_ok(e));
                }
            }
        }
        self.remove_cfg_edges(&incident);
        proof {
            assert forall|e: EdgeId| before.has_edge(e) implies incident@.contains(e) == (
            before@.edges[e].from == block || before@.edges[e].to == block) by {
                assert(before@.edges.contains_key(e));
                assert(before.incident_ok(block));
                assert(before.edge_ok(e));
            }
            lemma_lists_same(
                before,
                *self,
                |e: EdgeId| !incident@.contains(e),
                |e: EdgeId| before@.edges[e].from != block && before@.edges[e].to != block,
            );
        }
    }

    /// Makes the edge `e` leave `keep` in place of `remove`.
    fn rehome_edge(&mut self, e: EdgeId, keep: LocalBlockId, remove: LocalBlockId)
        requires
            old(self).wf(),
            old(self).has_edge(e),
            old(self).edge_rec(e).from == remove,
            old(self).has_block(keep),
            keep != remove,
            old(self).block_rec(keep).edges@.len() < small_limit(),
        ensures
            final(self).wf(),
            old(self).uses_complete() ==> final(self).uses_complete(),
            final(self).uses@.len() <= old(self).uses@.len(),
            same_but_edges(*old(self), *final(self)),
            final(self)@ == (BodyView {
                edges: old(self)@.edges.insert(
                    e,
                    EdgeData { from: keep, to: old(self).edge_rec(e).to },
                ),
                ..old(self)@
            }),
            final(self).block_rec(keep).edges@.len() <= old(self).block_rec(keep).edges@.len() + 1,
            forall|b: LocalBlockId|
                old(self).has_block(b) ==> #[trigger] final(self).block_rec(b).edges@ == (if b
                    == keep && !old(self).block_rec(keep).edges@.contains(e) {
                    old(self).block_rec(b).edges@.push(e)
                } else if b == remove && old(self).edge_rec(e).to != remove {
                    without(old(self).block_rec(b).edges@, e)
                } else {
                    old(self).block_rec(b).edges@
                }),
    {
        let ghost before = *self;
        let to: LocalBlockId = self.edges.get(e.0).to;
        proof {
            assert(self.edge_ok(e));
            assert(self.incident_ok(keep));
            assert(self.incident_ok(remove));
        }
        self.edges.get_mut(e.0).from = keep;
        self.blocks.get_mut(keep.0).edges.insert(e);
        if to != remove {
            self.blocks.get_mut(remove.0).edges.remove(&e);
        }
        proof {
            let k0 = before.block_rec(keep).edges@;
            let r0 = before.block_rec(remove).edges@;
            lemma_filter_contains(r0, e);
            assert forall|x: EdgeId| #[trigger] k0.push(e).contains(x) <==> k0.contains(x) || x
                == e by {
                super::order::lemma_push_contains(k0, e, x);
            }
            assert forall|x: EdgeId| #[trigger] self.has_edge(x) <==> before.has_edge(x) by {}
            assert forall|x: EdgeId| before.has_edge(x) && x != e implies #[trigger] self.edge_rec(x)
                == before.edge_rec(x) by {}
            assert(self.edge_rec(e) == EdgeData { from: keep, to });
            assert forall|b: LocalBlockId, x: EdgeId|
                #![trigger self.block_rec(b).edges@.contains(x)]
                before.has_block(b) implies (self.block_rec(b).edges@.contains(x) <==> (
            before.block_rec(b).edges@.contains(x) && !(x == e && b == remove && to != remove)) || (x
                == e && b == keep)) by {}
            assert forall|b: LocalBlockId| self.has_block(b) implies #[trigger] self.incident_ok(
                b,
            ) by {
                assert(before.incident_ok(b));
                assert forall|x: EdgeId| #[trigger]
                    self.block_rec(b).edges@.contains(x) implies self.has_edge(x) && (
                self.edge_rec(x).from == b || self.edge_rec(x).to == b) by {
                    assert(x != e ==> before.block_rec(b).edges@.contains(x));
                }
            }
            assert forall|x: EdgeId| self.has_edge(x) implies #[trigger] self.edge_ok(x) by {
                assert(before.edge_ok(x));
                let rec = self.edge_rec(x);
                assert(before.has_block(rec.from) && before.has_block(rec.to));
                assert(self.block_rec(rec.from).edges@.contains(x));
                assert(self.block_rec(rec.to).edges@.contains(x));
            }
            assert(same_but_edges(before, *self));
            lemma_edges_frame(before, *self);
            assert(self@.edges =~= before@.edges.insert(e, EdgeData { from: keep, to }));
        }
    }

    /// Makes every edge that leaves `remove` leave `keep` instead. `keep` must
    /// have room to list them: it lists those it did not list yet after the
    /// others, in the order of `remove`.
    pub fn rehome_outgoing_edges(&mut self, keep: BlockId, remove: BlockId)
        requires
            old(self).wf(),
            old(self).id == Some(keep.func),
            old(self).id == Some(remove.func),
            old(self)@.blocks.contains_key(keep.local),
            old(self)@.blocks.contains_key(remove.local),
            keep.local != remove.local,
            old(self).edge_room(old(self)@.edges_issued as int),
        ensures
            final(self).wf(),
            old(self).uses_complete() ==> final(self).uses_complete(),
            operands_issued(old(self)@) ==> operands_issued(final(self)@),
            final(self).uses@.len() <= old(self).uses@.len(),
            same_but_edges(*old(self), *final(self)),
            final(self)@ == (BodyView {
                edges: edges_rehomed(old(self)@.edges, keep.local, remove.local),
                ..old(self)@
            }),
            lists_rehomed(*old(self), *final(self), keep.local, remove.local),
    {
        let outgoing: Vec<EdgeId> = self.outgoing_edges(remove.local);
        let ghost before = *self;
        let ghost moved = before@.edges;
        let n: usize = outgoing.len();
        let mut k: usize = 0;
        proof {
            lemma_listed_edges(before, keep.local);
            lemma_listed_edges(before, remove.local);
            lemma_edges_frame(before, before);
            lemma_filter_shorter(
                before.block_rec(remove.local).edges@,
                |e: EdgeId| before.edge_rec(e).from == remove.local,
            );
            assert(outgoing@.take(0) =~= Seq::<EdgeId>::empty());
            lemma_filter_everything(
                before.block_rec(remove.local).edges@,
                |e: EdgeId|
                    !outgoing@.take(0).contains(e) || before@.edges[e].to == remove.local,
            );
            assert(before.block_rec(keep.local).edges@ =~= before.block_rec(keep.local).edges@
                + outgoing@.take(0).filter(|e: EdgeId| before@.edges[e].to != keep.local)) by {
                reveal(Seq::filter);
            }
        }
        while k < n
            invariant
                n == outgoing@.len(),
                k <= n,
                outgoing@.no_duplicates(),
                forall|e: EdgeId| #[trigger]
                    outgoing@.contains(e) <==> before.has_edge(e) && before.edge_rec(e).from
                        == remove.local,
                before.has_block(keep.local),
                keep.local != remove.local,
                self.wf(),
                before.uses_complete() ==> self.uses_complete(),
                self.uses@.len() <= before.uses@.len(),
                same_but_edges(before, *self),
                self.block_rec(keep.local).edges@.len() <= before.block_rec(keep.local).edges@.len()
                    + k,
                before.block_rec(keep.local).edges@.len() + n < small_limit(),
                self@ == (BodyView { edges: self@.edges, ..before@ }),
                self@.edges.dom() == before@.edges.dom(),
                forall|e: EdgeId|
                    before@.edges.contains_key(e) ==> #[trigger] self@.edges[e] == (if outgoing@.take(
                        k as int,
                    ).contains(e) {
                        EdgeData { from: keep.local, to: before@.edges[e].to }
                    } else {
                        before@.edges[e]
                    }),
                before.wf(),
                before.has_block(remove.local),
                self.block_rec(keep.local).edges@ == before.block_rec(keep.local).edges@
                    + outgoing@.take(k as int).filter(
                    |e: EdgeId| before@.edges[e].to != keep.local,
                ),
                self.block_rec(remove.local).edges@ == before.block_rec(remove.local).edges@.filter(
                    |e: EdgeId|
                        !outgoing@.take(k as int).contains(e) || before@.edges[e].to
                            == remove.local,
                ),
                forall|b: LocalBlockId|
                    before.has_block(b) && b != keep.local && b != remove.local
                        ==> #[trigger] self.block_rec(b).edges@ == before.block_rec(b).edges@,
            decreases n - k,
        {
            let e: EdgeId = outgoing[k];
            let ghost mid = *self;
            let ghost done = outgoing@.take(k as int);
            proof {
                assert(outgoing@.contains(e));
                assert(before@.edges.contains_key(e));
                assert(mid@.edges.contains_key(e));
                assert(!done.contains(e)) by {
                    if done.contains(e) {
                        let j = choose|j: int| 0 <= j < done.len() && done[j] == e;
                        assert(outgoing@[j] == outgoing@[k as int]);
                    }
                }
                assert(mid@.edges[e] == before@.edges[e]);
                assert(mid.has_block(keep.local));
            }
            self.rehome_edge(e, keep.local, remove.local);
            proof {
                let far = |x: EdgeId| before@.edges[x].to != keep.local;
                let ks = before.block_rec(keep.local).edges@;
                let rs = before.block_rec(remove.local).edges@;
                assert(before.has_edge(e));
                assert(before.edge_ok(e));
                assert(before.incident_ok(keep.local));
                lemma_filter_leaves(done, far);
                assert(mid.block_rec(keep.local).edges@.contains(e) <==> ks.contains(e)) by {
                    lemma_sum_contains(ks, done.filter(far), e);
                }
                assert(ks.contains(e) <==> !far(e));
                assert(outgoing@.take(k + 1).drop_last() =~= done);
                assert(outgoing@.take(k + 1).filter(far) == (if far(e) {
                    done.filter(far).push(e)
                } else {
                    done.filter(far)
                })) by {
                    reveal(Seq::filter);
                }
                assert((ks + done.filter(far)).push(e) =~= ks + done.filter(far).push(e));
                let p = |x: EdgeId| !done.contains(x) || before@.edges[x].to == remove.local;
                let q = |x: EdgeId|
                    !outgoing@.take(k + 1).contains(x) || before@.edges[x].to == remove.local;
                assert(outgoing@.take(k + 1) =~= done.push(e));
                assert forall|x: EdgeId| outgoing@.take(k + 1).contains(x) <==> done.contains(x)
                    || x == e by {
                    super::order::lemma_push_contains(done, e, x);
                }
                if before@.edges[e].to != remove.local {
                    let differs = |x: EdgeId| x != e;
                    lemma_without_filters(rs.filter(p), e, differs);
                    lemma_filter_twice(rs, p, differs);
                    lemma_filter_same(rs, |x: EdgeId| p(x) && differs(x), q);
                } else {
                    lemma_filter_same(rs, p, q);
                }
                assert forall|b: LocalBlockId|
                    before.has_block(b) && b != keep.local && b
                        != remove.local implies #[trigger] self.block_rec(b).edges@
                    == before.block_rec(b).edges@ by {
                    assert(mid.has_block(b));
                    assert(mid.block_rec(b).edges@ == before.block_rec(b).edges@);
                }
                assert(mid.has_block(remove.local) && mid.has_block(keep.local));
                lemma_edges_trans(before, mid, *self);
                assert(outgoing@.take(k + 1) =~= done.push(e));
                assert(self@.edges.dom() =~= before@.edges.dom());
                assert forall|x: EdgeId| before@.edges.contains_key(x) implies #[trigger] self@.edges[x]
                    == (if outgoing@.take(k + 1).contains(x) {
                    EdgeData { from: keep.local, to: before@.edges[x].to }
                } else {
                    before@.edges[x]
                }) by {
                    super::order::lemma_push_contains(done, e, x);
                    assert(mid@.edges[x] == (if done.contains(x) {
                        EdgeData { from: keep.local, to: before@.edges[x].to }
                    } else {
                        before@.edges[x]
                    }));
                }
            }
            k = k + 1;
        }
        proof {
            assert(outgoing@.take(n as int) =~= outgoing@);
            let rs = before.block_rec(remove.local).edges@;
            let leaves = |e: EdgeId| before.edge_rec(e).from == remove.local;
            let far = |e: EdgeId| before@.edges[e].to != keep.local;
            lemma_filter_twice(rs, leaves, far);
            assert(before.incident_ok(remove.local));
            lemma_filter_same(
                rs,
                |e: EdgeId| leaves(e) && far(e),
                |e: EdgeId|
                    before@.edges[e].from == remove.local && before@.edges[e].to != keep.local,
            );
            lemma_filter_same(
                rs,
                |e: EdgeId| !outgoing@.contains(e) || before@.edges[e].to == remove.local,
                |e: EdgeId|
                    before@.edges[e].from != remove.local || before@.edges[e].to == remove.local,
            );
            assert(self@.edges =~= edges_rehomed(before@.edges, keep.local, remove.local)) by {
                assert forall|e: EdgeId| before@.edges.contains_key(e) implies (#[trigger] outgoing@.contains(e)
                    <==> before@.edges[e].from == remove.local) by {
                    assert(before.has_edge(e));
                }
            }
        }
    }
}

/// The edges that do not leave block `b`.
pub open spec fn edges_not_from(edges: Map<EdgeId, EdgeData>, b: LocalBlockId) -> Map<
    EdgeId,
    EdgeData,
> {
    Map::new(|e: EdgeId| edges.contains_key(e) && edges[e].from != b, |e: EdgeId| edges[e])
}

/// The edges that neither leave nor enter block `b`.
pub open spec fn edges_not_at(edges: Map<EdgeId, EdgeData>, b: LocalBlockId) -> Map<
    EdgeId,
    EdgeData,
> {
    Map::new(
        |e: EdgeId| edges.contains_key(e) && edges[e].from != b && edges[e].to != b,
        |e: EdgeId| edges[e],
    )
}

/// The edges, with those that leave `remove` leaving `keep` instead.
pub open spec fn edges_rehomed(
    edges: Map<EdgeId, EdgeData>,
    keep: LocalBlockId,
    remove: LocalBlockId,
) -> Map<EdgeId, EdgeData> {
    Map::new(
        |e: EdgeId| edges.contains_key(e),
        |e: EdgeId|
            if edges[e].from == remove {
                EdgeData { from: keep, to: edges[e].to }
            } else {
                edges[e]
            },
    )
}

/// Differing in nothing but the edges carries over.
pub proof fn lemma_edges_trans(a: FunctionBody, b: FunctionBody, c: FunctionBody)
    requires
        same_but_edges(a, b),
        same_but_edges(b, c),
    ensures
        same_but_edges(a, c),
{
    assert forall|x: LocalBlockId| #[trigger] c.has_block(x) <==> a.has_block(x) by {
        assert(b.has_block(x) <==> a.has_block(x));
    }
    assert forall|x: LocalBlockId| a.has_block(x) implies #[trigger] c.block_rec(x) == (BasicBlock {
        edges: c.block_rec(x).edges,
        ..a.block_rec(x)
    }) by {
        assert(b.has_block(x));
        assert(b.block_rec(x).name == a.block_rec(x).name);
    }
}

/// What filtering keeps: the members that satisfy the test, each as often as
/// before.
pub proof fn lemma_filter_members<T>(s: Seq<T>, keep: spec_fn(T) -> bool)
    ensures
        forall|x: T| #[trigger] s.filter(keep).contains(x) <==> s.contains(x) && keep(x),
        s.no_duplicates() ==> s.filter(keep).no_duplicates(),
    decreases s.len(),
{
    reveal(Seq::filter);
    if s.len() > 0 {
        let init = s.drop_last();
        lemma_filter_members(init, keep);
        let f = init.filter(keep);
        assert forall|x: T| #[trigger] s.contains(x) <==> init.contains(x) || x == s.last() by {
            assert(s =~= init.push(s.last()));
            super::order::lemma_push_contains(init, s.last(), x);
        }
        assert forall|x: T| #[trigger] f.push(s.last()).contains(x) <==> f.contains(x) || x
            == s.last() by {
            super::order::lemma_push_contains(f, s.last(), x);
        }
        if s.no_duplicates() {
            assert(init.no_duplicates());
            assert(!init.contains(s.last()));
            assert forall|k: int| 0 <= k < f.len() implies f[k] != s.last() by {
                assert(f.contains(f[k]));
            }
        }
    }
}

/// Filtering does not lengthen.
pub proof fn lemma_filter_shorter<T>(s: Seq<T>, keep: spec_fn(T) -> bool)
    ensures
        s.filter(keep).len() <= s.len(),
    decreases s.len(),
{
    reveal(Seq::filter);
    if s.len() > 0 {
        lemma_filter_shorter(s.drop_last(), keep);
    }
}

/// An edge that one block lists to another is listed by the other from the one,
/// and there is such an edge.
pub proof fn law_successors_and_predecessors_mirror(
    body: FunctionBody,
    a: BlockId,
    b: BlockId,
    e: EdgeId,
)
    requires
        body.wf(),
        body.has_block(a.local),
        body.has_block(b.local),
        a.func == b.func,
    ensures
        body.successor_pairs(a).contains((e, b)) <==> body@.edges.contains_key(e)
            && body@.edges[e].from == a.local && body@.edges[e].to == b.local,
        body.predecessor_pairs(b).contains((e, a)) <==> body@.edges.contains_key(e)
            && body@.edges[e].from == a.local && body@.edges[e].to == b.local,
        body.successor_pairs(a).contains((e, b)) <==> body.predecessor_pairs(b).contains((e, a)),
{
    let out = body.block_rec(a.local).edges@.filter(|e: EdgeId| body.edge_rec(e).from == a.local);
    let into = body.block_rec(b.local).edges@.filter(|e: EdgeId| body.edge_rec(e).to == b.local);
    lemma_filter_leaves(
        body.block_rec(a.local).edges@,
        |e: EdgeId| body.edge_rec(e).from == a.local,
    );
    lemma_filter_leaves(body.block_rec(b.local).edges@, |e: EdgeId| body.edge_rec(e).to == b.local);
    assert(body.incident_ok(a.local));
    assert(body.incident_ok(b.local));
    let succ = body.successor_pairs(a);
    let pred = body.predecessor_pairs(b);
    assert(succ.len() == out.len() && pred.len() == into.len());
    if succ.contains((e, b)) {
        let k = choose|k: int| 0 <= k < succ.len() && succ[k] == (e, b);
        assert(out[k] == e);
        assert(out.contains(e));
        assert(body.has_edge(e));
        assert(body@.edges.contains_key(e));
    }
    if pred.contains((e, a)) {
        let k = choose|k: int| 0 <= k < pred.len() && pred[k] == (e, a);
        assert(into[k] == e);
        assert(into.contains(e));
        assert(body.has_edge(e));
        assert(body@.edges.contains_key(e));
    }
    if body@.edges.contains_key(e) && body@.edges[e].from == a.local && body@.edges[e].to
        == b.local {
        assert(body.has_edge(e));
        assert(body.edge_ok(e));
        assert(out.contains(e) && into.contains(e));
        let k = choose|k: int| 0 <= k < out.len() && out[k] == e;
        assert(succ[k] == (e, b));
        let j = choose|j: int| 0 <= j < into.len() && into[j] == e;
        assert(pred[j] == (e, a));
    }
}

} // verus!
