//! Merging a block into its predecessor.

use super::blocks::{
    block_forgotten, copy_params, lemma_block_data, param_names_without, params_without,
};
use super::cfg::{
    edges_not_at, edges_not_from, edges_rehomed, edges_untouched, lemma_untouched_trans,
    lists_filtered, lists_rehomed,
};
use super::create::ticked;
use super::order::with_order;
use super::remove::{lemma_same_orders_same_parent, without_instruction};
use super::replace::{lemma_layout_trans, same_layout, with_substitution, with_uses_moved};
use super::{last_of, BlockView, BodyView, FunctionBody};
use crate::block::{lemma_filter_same, lemma_filter_twice, lemma_without_filters, without, EdgeData};
use crate::body::compose::{all_issued, operands_issued};
use crate::ids::{
    BlockId, BlockParamId, EdgeId, FunctionId, InstructionId, LocalBlockId, LocalInsnId,
    LocalParamId,
};
use crate::insn::instruction::InsnView;
use crate::insn::mnemonic::{copy_values, Mnemonic, MnemonicView, Shape};
use crate::value::{LocalValueId, ValueId};
use vstd::prelude::*;

verus! {

/// Whether two bodies differ in nothing but operands.
pub open spec fn same_but_operands(a: BodyView, b: BodyView) -> bool {
    &&& b == (BodyView { insns: b.insns, ..a })
    &&& b.insns.dom() == a.insns.dom()
    &&& forall|i: LocalInsnId|
        a.insns.contains_key(i) ==> #[trigger] b.insns[i] == (InsnView {
            mnemonic: MnemonicView {
                operands: b.insns[i].mnemonic.operands,
                ..a.insns[i].mnemonic
            },
            ..a.insns[i]
        })
}

/// `body` with each parameter replaced by its argument everywhere, one after
/// the other.
pub open spec fn with_params_bound(
    body: BodyView,
    params: Seq<LocalParamId>,
    args: Seq<LocalValueId>,
) -> BodyView
    decreases params.len(),
{
    if params.len() == 0 {
        body
    } else {
        with_substitution(
            with_params_bound(body, params.drop_last(), args.drop_last()),
            LocalValueId::BlockParam(params.last()),
            args.last(),
        )
    }
}

/// Whether `b` is `a` with the recorded uses of each parameter moved to its
/// argument, one parameter after the other.
pub open spec fn params_bound(
    a: FunctionBody,
    params: Seq<LocalParamId>,
    args: Seq<LocalValueId>,
    b: FunctionBody,
) -> bool
    decreases params.len(),
{
    if params.len() == 0 {
        b == a
    } else {
        exists|mid: FunctionBody|
            params_bound(a, params.drop_last(), args.drop_last(), mid) && #[trigger] uses_moved(
                mid,
                LocalValueId::BlockParam(params.last()),
                args.last(),
                b,
            )
    }
}

/// Whether `b` is `a` with the recorded uses of `from` moved to `to`.
pub open spec fn uses_moved(
    a: FunctionBody,
    from: LocalValueId,
    to: LocalValueId,
    b: FunctionBody,
) -> bool {
    &&& b.wf()
    &&& b.id == a.id
    &&& same_layout(a, b)
    &&& b@ == (if from == to {
        a@
    } else {
        with_uses_moved(a, from, to)
    })
    &&& from != to ==> b.use_list(from).len() == 0
}

/// Whether the blocks list the edges as they do once `other` is merged into
/// `keep`: those that left `keep` are gone, and `keep` lists those that left
/// `other` after its own, in the order of `other`.
pub open spec fn lists_absorbed(
    a: FunctionBody,
    b: FunctionBody,
    keep: LocalBlockId,
    other: LocalBlockId,
) -> bool {
    &&& b.block_rec(keep).edges@ == a.block_rec(keep).edges@.filter(
        |e: EdgeId| a@.edges[e].from != keep,
    ) + a.block_rec(other).edges@.filter(
        |e: EdgeId| a@.edges[e].from == other && a@.edges[e].to != keep,
    )
    &&& forall|x: LocalBlockId|
        a.has_block(x) && x != keep && x != other ==> #[trigger] b.block_rec(x).edges@
            == a.block_rec(x).edges@.filter(|e: EdgeId| a@.edges[e].from != keep)
}

/// `body`, in which `other`'s parameters are bound already, with `other`
/// merged into `keep`: `keep`'s terminal branch and the edge to `other` go,
/// `other`'s instructions and outgoing edges move to `keep`, and `other` goes
/// with its parameters and name. `keep` takes over its addresses.
pub open spec fn absorbed(
    body: BodyView,
    keep: LocalBlockId,
    other: LocalBlockId,
    edge: EdgeId,
) -> BodyView {
    let branch = last_of(body.blocks[keep].insns)->0;
    let cut = without_instruction(
        BodyView { edges: body.edges.remove(edge), ..body },
        Some(keep),
        branch,
    );
    let gone = body.blocks[other];
    let carried = match gone.address {
        Some(a) => seq![a],
        None => Seq::empty(),
    } + gone.extra_addresses;
    let out = BodyView {
        edges: edges_rehomed(cut.edges, keep, other),
        params: params_without(body.params, gone.params),
        names: block_forgotten(
            param_names_without(cut.names, body.params, gone.params),
            gone,
            other,
        ),
        roster: without(body.roster, other),
        root: if body.root == Some(other) {
            Some(keep)
        } else {
            body.root
        },
        blocks: cut.blocks.insert(
            keep,
            BlockView {
                insns: cut.blocks[keep].insns + gone.insns,
                extra_addresses: body.blocks[keep].extra_addresses + carried,
                ..body.blocks[keep]
            },
        ).remove(other),
        ..cut
    };
    if carried.len() > 0 {
        ticked(out)
    } else {
        out
    }
}

impl FunctionBody {
    /// Replaces each of `params` with its argument everywhere, one after the
    /// other.
    fn bind_params(&mut self, params: &Vec<LocalParamId>, args: &Vec<LocalValueId>)
        requires
            old(self).wf(),
            old(self).id is Some,
            params@.len() == args@.len(),
            forall|k: int| 0 <= k < params@.len() ==> old(self).has_param(#[trigger] params@[k]),
        ensures
            final(self).wf(),
            final(self).id == old(self).id,
            old(self).uses_complete() ==> final(self).uses_complete(),
            operands_issued(old(self)@) && all_issued(old(self)@, args@) ==> operands_issued(
                final(self)@,
            ),
            final(self).uses@.len() <= old(self).uses@.len(),
            same_but_operands(old(self)@, final(self)@),
            same_layout(*old(self), *final(self)),
            params_bound(*old(self), params@, args@, *final(self)),
            old(self).uses_complete() ==> final(self)@ == with_params_bound(
                old(self)@,
                params@,
                args@,
            ),
    {
        let ghost start = *self;
        let func: FunctionId = self.id();
        let n: usize = params.len();
        let mut k: usize = 0;
        proof {
            assert(params@.take(0) =~= Seq::<LocalParamId>::empty());
        }
        while k < n
            invariant
                n == params@.len(),
                n == args@.len(),
                k <= n,
                start.id == Some(func),
                forall|j: int| 0 <= j < params@.len() ==> start.has_param(#[trigger] params@[j]),
                self.wf(),
                self.id == start.id,
                start.uses_complete() ==> self.uses_complete(),
                operands_issued(start@) && all_issued(start@, args@) ==> operands_issued(self@),
                self.uses@.len() <= start.uses@.len(),
                same_but_operands(start@, self@),
                same_layout(start, *self),
                params_bound(start, params@.take(k as int), args@.take(k as int), *self),
                start.uses_complete() ==> self@ == with_params_bound(
                    start@,
                    params@.take(k as int),
                    args@.take(k as int),
                ),
            decreases n - k,
        {
            let ghost mid = *self;
            let p: LocalParamId = params[k];
            let arg: LocalValueId = args[k];
            proof {
                assert(start.has_param(params@[k as int]));
                assert(start@.params.contains_key(p));
                assert(mid@.params.contains_key(p));
                assert(mid.has_param(p));
                crate::value::law_qualify_then_localize(arg, func);
            }
            self.replace_all_uses_with(
                ValueId::BlockParam(BlockParamId::new(func, p)),
                arg.qualify(func),
            );
            proof {
                assert(params@.take(k + 1).drop_last() =~= params@.take(k as int));
                assert(args@.take(k + 1).drop_last() =~= args@.take(k as int));
                assert(same_but_operands(mid@, self@)) by {
                    assert(self@.insns.dom() =~= mid@.insns.dom());
                }
                lemma_operands_trans(start@, mid@, self@);
                lemma_layout_trans(start, mid, *self);
                assert(params@.take(k + 1).last() == p && args@.take(k + 1).last() == arg);
                assert(uses_moved(mid, LocalValueId::BlockParam(p), arg, *self));
                assert(params_bound(
                    start,
                    params@.take(k + 1).drop_last(),
                    args@.take(k + 1).drop_last(),
                    mid,
                ));
                assert(params_bound(start, params@.take(k + 1), args@.take(k + 1), *self));
            }
            k = k + 1;
        }
        proof {
            assert(params@.take(n as int) =~= params@);
            assert(args@.take(n as int) =~= args@);
        }
    }

    /// Links every one of `insns`, which are in no block, at the end of
    /// `block`.
    fn append_all(&mut self, block: LocalBlockId, insns: &Vec<LocalInsnId>)
        requires
            old(self).wf(),
            old(self).has_block(block),
            insns@.no_duplicates(),
            forall|k: int|
                0 <= k < insns@.len() ==> old(self).has_insn(#[trigger] insns@[k]) && old(
                    self,
                ).insn_rec(insns@[k]).parent is None,
        ensures
            final(self).wf(),
            final(self).id == old(self).id,
            old(self).uses_complete() ==> final(self).uses_complete(),
            final(self).uses@.len() <= old(self).uses@.len(),
            final(self)@ == with_order(old(self)@, block, old(self).order(block) + insns@),
            forall|x: LocalBlockId|
                old(self).has_block(x) ==> #[trigger] final(self).block_rec(x).edges == old(
                    self,
                ).block_rec(x).edges,
    {
        let ghost start = *self;
        let n: usize = insns.len();
        let mut k: usize = 0;
        proof {
            assert(start.order(block) + insns@.take(0) =~= start.order(block));
            assert(with_order(start@, block, start.order(block)).blocks =~= start@.blocks);
        }
        while k < n
            invariant
                n == insns@.len(),
                k <= n,
                insns@.no_duplicates(),
                start.has_block(block),
                self.wf(),
                self.id == start.id,
                start.uses_complete() ==> self.uses_complete(),
                self.uses@.len() <= start.uses@.len(),
                self@ == with_order(
                    start@,
                    block,
                    start.order(block) + insns@.take(k as int),
                ),
                forall|j: int|
                    k <= j < n ==> self.has_insn(#[trigger] insns@[j]) && self.insn_rec(
                        insns@[j],
                    ).parent is None,
                forall|x: LocalBlockId|
                    start.has_block(x) ==> #[trigger] self.block_rec(x).edges == start.block_rec(
                        x,
                    ).edges && self.has_block(x),
            decreases n - k,
        {
            let ghost mid = *self;
            let i: LocalInsnId = insns[k];
            proof {
                assert(start@.blocks.contains_key(block));
                assert(mid@.blocks.contains_key(block));
                assert(mid.has_block(block));
                assert(mid.has_insn(insns@[k as int]));
            }
            self.link_last(block, i);
            proof {
                assert((start.order(block) + insns@.take(k as int)).push(i) =~= start.order(block)
                    + insns@.take(k + 1));
                assert(self@.blocks =~= with_order(
                    start@,
                    block,
                    start.order(block) + insns@.take(k + 1),
                ).blocks);
                assert forall|j: int| k + 1 <= j < n implies self.has_insn(#[trigger] insns@[j])
                    && self.insn_rec(insns@[j]).parent is None by {
                    assert(mid.has_insn(insns@[j]));
                    assert(self.has_insn(insns@[j]));
                    assert(insns@[j] != i);
                }
                assert forall|x: LocalBlockId| start.has_block(x) implies #[trigger] self.block_rec(
                    x,
                ).edges == start.block_rec(x).edges && self.has_block(x) by {
                    assert(mid.block_rec(x).edges == start.block_rec(x).edges);
                    assert(mid.has_block(x));
                    assert(self.has_block(x));
                }
            }
            k = k + 1;
        }
        proof {
            assert(insns@.take(n as int) =~= insns@);
        }
    }

    /// Gives `keep` further addresses: `first`, if there is one, and `rest`.
    fn take_over_addresses(&mut self, keep: LocalBlockId, first: Option<u64>, rest: &Vec<u64>)
        requires
            old(self).wf(),
            old(self).has_block(keep),
        ensures
            final(self).wf(),
            old(self).uses_complete() ==> final(self).uses_complete(),
            final(self).uses@.len() <= old(self).uses@.len(),
            final(self)@ == (BodyView {
                blocks: old(self)@.blocks.insert(
                    keep,
                    BlockView {
                        extra_addresses: old(self)@.blocks[keep].extra_addresses + (match first {
                            Some(a) => seq![a],
                            None => Seq::empty(),
                        } + rest@),
                        ..old(self)@.blocks[keep]
                    },
                ),
                ..old(self)@
            }),
            edges_untouched(*old(self), *final(self)),
    {
        let ghost start = *self;
        let ghost had = start.block_rec(keep).extra_addresses@;
        if let Some(a) = first {
            self.blocks.get_mut(keep.0).extra_addresses.push(a);
        }
        let ghost lead = match first {
            Some(a) => seq![a],
            None => Seq::<u64>::empty(),
        };
        let n: usize = rest.len();
        let mut k: usize = 0;
        proof {
            assert(self.block_rec(keep).extra_addresses@ =~= had + (lead + rest@.take(0)));
            assert(start@.blocks.contains_key(keep));
            assert(super::name_known(start@, start@.blocks[keep].name));
        }
        while k < n
            invariant
                n == rest@.len(),
                k <= n,
                start.has_block(keep),
                *self == (FunctionBody { blocks: self.blocks, ..start }),
                self.blocks@ == start.blocks@.update(keep.0 as int, Some(self.block_rec(keep))),
                self.block_rec(keep) == (crate::block::BasicBlock {
                    extra_addresses: self.block_rec(keep).extra_addresses,
                    ..start.block_rec(keep)
                }),
                self.block_rec(keep).extra_addresses@ == had + (lead + rest@.take(k as int)),
            decreases n - k,
        {
            self.blocks.get_mut(keep.0).extra_addresses.push(rest[k]);
            k = k + 1;
            proof {
                assert(self.block_rec(keep).extra_addresses@ =~= had + (lead + rest@.take(
                    k as int,
                )));
                assert(self.blocks@ =~= start.blocks@.update(
                    keep.0 as int,
                    Some(self.block_rec(keep)),
                ));
            }
        }
        proof {
            assert(rest@.take(n as int) =~= rest@);
            lemma_block_data(start, *self, keep);
        }
    }
}

/// How the blocks list the edges after the steps of a merge: `apart` is
/// `start` without the edge `edge`, `cut` is `apart` without the edges that
/// leave `k`, and in `moved` those that leave `o` leave `k` instead.
proof fn lemma_lists_absorbed(
    start: FunctionBody,
    apart: FunctionBody,
    cut: FunctionBody,
    joined: FunctionBody,
    moved: FunctionBody,
    after: FunctionBody,
    k: LocalBlockId,
    o: LocalBlockId,
    edge: EdgeId,
)
    requires
        start.cfg_wf(),
        start.has_block(k),
        start.has_block(o),
        k != o,
        start@.edges.contains_key(edge),
        start@.edges[edge].from == k,
        apart@.edges == start@.edges.remove(edge),
        joined@.edges == edges_not_from(apart@.edges, k),
        forall|x: LocalBlockId| #[trigger]
            start.has_block(x) ==> apart.has_block(x) && cut.has_block(x) && joined.has_block(x)
                && moved.has_block(x) && (x != o ==> after.has_block(x)),
        forall|x: LocalBlockId|
            start.has_block(x) ==> #[trigger] apart.block_rec(x).edges@ == without(
                start.block_rec(x).edges@,
                edge,
            ),
        lists_filtered(apart, cut, |e: EdgeId| apart@.edges[e].from != k),
        edges_untouched(cut, joined),
        lists_rehomed(joined, moved, k, o),
        edges_untouched(moved, after),
    ensures
        lists_absorbed(start, after, k, o),
{
    assert forall|x: LocalBlockId| start.has_block(x) implies #[trigger] joined.block_rec(x).edges@
        == start.block_rec(x).edges@.filter(|e: EdgeId| start@.edges[e].from != k) by {
        let s = start.block_rec(x).edges@;
        let differs = |e: EdgeId| e != edge;
        let stays = |e: EdgeId| apart@.edges[e].from != k;
        assert(apart.block_rec(x).edges@ == without(s, edge));
        lemma_without_filters(s, edge, differs);
        lemma_filter_twice(s, differs, stays);
        assert(cut.block_rec(x).edges@ == s.filter(differs).filter(stays));
        assert(start.incident_ok(x));
        assert forall|e: EdgeId| s.contains(e) implies (differs(e) && stays(e)) == (
        start@.edges[e].from != k) by {
            assert(start.has_edge(e));
            assert(start@.edges.contains_key(e));
        }
        lemma_filter_same(
            s,
            |e: EdgeId| differs(e) && stays(e),
            |e: EdgeId| start@.edges[e].from != k,
        );
        assert(joined.block_rec(x).edges == cut.block_rec(x).edges);
    }
    let os = start.block_rec(o).edges@;
    let stays = |e: EdgeId| start@.edges[e].from != k;
    let moves = |e: EdgeId| joined@.edges[e].from == o && joined@.edges[e].to != k;
    assert(start.incident_ok(o));
    lemma_filter_twice(os, stays, moves);
    assert forall|e: EdgeId| os.contains(e) implies (stays(e) && moves(e)) == (start@.edges[e].from
        == o && start@.edges[e].to != k) by {
        assert(start.has_edge(e));
        assert(start@.edges.contains_key(e));
        if stays(e) {
            assert(joined@.edges.contains_key(e));
        }
    }
    lemma_filter_same(
        os,
        |e: EdgeId| stays(e) && moves(e),
        |e: EdgeId| start@.edges[e].from == o && start@.edges[e].to != k,
    );
    assert forall|x: LocalBlockId| start.has_block(x) && x != o implies #[trigger] after.block_rec(
        x,
    ).edges@ == moved.block_rec(x).edges@ by {
        assert(after.block_rec(x).edges == moved.block_rec(x).edges);
    }
    assert(after.block_rec(k).edges@ == moved.block_rec(k).edges@);
    assert forall|x: LocalBlockId|
        start.has_block(x) && x != k && x != o implies #[trigger] after.block_rec(x).edges@
        == start.block_rec(x).edges@.filter(|e: EdgeId| start@.edges[e].from != k) by {
        assert(after.block_rec(x).edges@ == moved.block_rec(x).edges@);
        assert(moved.block_rec(x).edges@ == joined.block_rec(x).edges@);
    }
}

/// Differing in nothing but operands carries over.
proof fn lemma_operands_trans(a: BodyView, b: BodyView, c: BodyView)
    requires
        same_but_operands(a, b),
        same_but_operands(b, c),
    ensures
        same_but_operands(a, c),
{
    assert forall|i: LocalInsnId| a.insns.contains_key(i) implies #[trigger] c.insns[i] == (
    InsnView {
        mnemonic: MnemonicView { operands: c.insns[i].mnemonic.operands, ..a.insns[i].mnemonic },
        ..a.insns[i]
    }) by {
        assert(b.insns.contains_key(i));
        assert(b.insns[i].name == a.insns[i].name);
    }
}

/// A block lists no more edges than before where no edge was added or moved.
pub proof fn lemma_edge_count(a: FunctionBody, b: FunctionBody, x: LocalBlockId)
    requires
        a.wf(),
        b.wf(),
        a.has_block(x),
        b.has_block(x),
        forall|e: EdgeId| #[trigger]
            b@.edges.contains_key(e) ==> a@.edges.contains_key(e) && a@.edges[e] == b@.edges[e],
    ensures
        b.block_rec(x).edges@.len() <= a.block_rec(x).edges@.len(),
{
    let s = a.block_rec(x).edges@;
    let t = b.block_rec(x).edges@;
    assert(a.incident_ok(x));
    assert(b.incident_ok(x));
    s.unique_seq_to_set();
    t.unique_seq_to_set();
    assert(t.to_set().subset_of(s.to_set())) by {
        assert forall|e: EdgeId| t.to_set().contains(e) implies s.to_set().contains(e) by {
            assert(t.contains(e));
            assert(b.has_edge(e));
            assert(b@.edges.contains_key(e));
            assert(a.has_edge(e));
            assert(a.edge_ok(e));
        }
    }
    vstd::set_lib::lemma_len_subset(t.to_set(), s.to_set());
}

fn copy_addresses(addresses: &Vec<u64>) -> (copy: Vec<u64>)
    ensures
        copy@ == addresses@,
{
    let n: usize = addresses.len();
    let mut copy: Vec<u64> = Vec::new();
    let mut k: usize = 0;
    while k < n
        invariant
            n == addresses@.len(),
            k <= n,
            copy@ == addresses@.take(k as int),
        decreases n - k,
    {
        copy.push(addresses[k]);
        k = k + 1;
        proof {
            assert(copy@ =~= addresses@.take(k as int));
        }
    }
    proof {
        assert(addresses@.take(n as int) =~= addresses@);
    }
    copy
}

impl FunctionBody {
    /// Whether `other` can be merged into `keep` along `edge`: `keep` ends in a
    /// branch to `other`, which is reached from no other block, with an
    /// argument for each of its parameters.
    pub open spec fn can_absorb(
        &self,
        keep: LocalBlockId,
        other: LocalBlockId,
        edge: EdgeId,
    ) -> bool {
        let branch = last_of(self@.blocks[keep].insns)->0;
        let params = self@.blocks[other].params;
        &&& keep != other
        &&& self@.blocks.contains_key(keep)
        &&& self@.blocks.contains_key(other)
        &&& self@.blocks[keep].insns.len() > 0
        &&& self@.insns[branch].mnemonic.shape matches Shape::Branch { target, args } && target
            == other && (params.len() > 0 ==> args == params.len())
        &&& params.no_duplicates()
        &&& forall|k: int|
            0 <= k < params.len() ==> self@.params.contains_key(#[trigger] params[k])
        &&& self@.edges.contains_key(edge)
        &&& self@.edges[edge] == (EdgeData { from: keep, to: other })
        &&& forall|e: EdgeId| #[trigger]
            self@.edges.contains_key(e) && self@.edges[e].to == other ==> self@.edges[e].from
                == keep
    }

    /// The arguments of the branch that `block` ends in.
    pub open spec fn branch_args(&self, block: LocalBlockId) -> Seq<LocalValueId> {
        self@.insns[last_of(self@.blocks[block].insns)->0].mnemonic.operands
    }

    /// Merges `other` into `keep`: drops `keep`'s terminal branch, binds
    /// `other`'s parameters to the branch's arguments, appends `other`'s
    /// instructions, moves its outgoing edges, and removes it. `edge_ab` is the
    /// direct edge from `keep` to `other`, which no other block leads to.
    #[verifier::rlimit(40)]
    pub fn absorb_block(&mut self, keep: BlockId, other: BlockId, edge_ab: EdgeId)
        requires
            old(self).wf(),
            old(self).id == Some(keep.func),
            keep.func == other.func,
            old(self).can_absorb(keep.local, other.local, edge_ab),
            old(self).edge_room(old(self)@.edges_issued as int),
        ensures
            final(self).wf(),
            old(self).uses_complete() ==> final(self).uses_complete(),
            operands_issued(old(self)@) ==> operands_issued(final(self)@),
            final(self).uses@.len() <= old(self).uses@.len(),
            exists|bound: FunctionBody|
                {
                    &&& #[trigger] params_bound(
                        *old(self),
                        old(self)@.blocks[other.local].params,
                        old(self).branch_args(keep.local),
                        bound,
                    )
                    &&& same_but_operands(old(self)@, bound@)
                    &&& final(self)@ == absorbed(bound@, keep.local, other.local, edge_ab)
                    &&& old(self).uses_complete() ==> bound@ == with_params_bound(
                        old(self)@,
                        old(self)@.blocks[other.local].params,
                        old(self).branch_args(keep.local),
                    )
                },
            lists_absorbed(*old(self), *final(self), keep.local, other.local),
    {
        let ghost start = *self;
        let k: LocalBlockId = keep.local;
        let o: LocalBlockId = other.local;
        let func: FunctionId = keep.func;
        proof {
            assert(self.list_ok(k));
            assert(self.list_ok(o));
            assert(self.linked_at(k, self.order(k).len() - 1));
        }
        let branch: LocalInsnId = self.blocks.get(k.0).instructions.last.unwrap();
        let args: Vec<LocalValueId> = match &self.insns.get(branch.0).mnemonic {
            Mnemonic::Branch(m) => copy_values(&m.args),
            _ => Vec::new(),
        };
        let params: Vec<LocalParamId> = copy_params(&self.blocks.get(o.0).params);
        if params.len() > 0 {
            self.bind_params(&params, &args);
        }
        let ghost bound = *self;
        proof {
            assert(start@.blocks.contains_key(k) && start@.blocks.contains_key(o));
            assert(start@.insns.contains_key(branch));
            assert(args@ == start.branch_args(k));
            assert(params_bound(start, start@.blocks[o].params, start.branch_args(k), bound));
            assert(same_but_operands(start@, bound@));
            assert(start@.insns.contains_key(branch));
            assert(bound@.insns.contains_key(branch));
            assert(start@.edges.contains_key(edge_ab));
            assert(bound@.edges.contains_key(edge_ab));
            assert(bound.has_edge(edge_ab));
            assert(start@.blocks.contains_key(k) && start@.blocks.contains_key(o));
            assert(bound@.blocks.contains_key(k) && bound@.blocks.contains_key(o));
            assert(bound.order(k) == bound@.blocks[k].insns);
            assert(start.order(k) == start@.blocks[k].insns);
        }
        self.remove_cfg_edge(edge_ab);
        let ghost apart = *self;
        proof {
            lemma_same_orders_same_parent(start, apart, branch);
            assert(apart@.insns.contains_key(branch));
            assert(apart.has_insn(branch));
        }
        self.remove_instruction(InstructionId::new(func, branch));
        let ghost cut = *self;
        let ghost gone = start@.blocks[o];
        proof {
            assert(cut@ == without_instruction(apart@, Some(k), branch));
            assert(cut@.blocks.contains_key(o));
            assert(cut.has_block(o));
            assert(cut@.blocks.contains_key(k));
            assert(cut.has_block(k));
            assert(cut.order(o) == cut@.blocks[o].insns);
        }
        let insns: Vec<LocalInsnId> = self.take_insns(o);
        let ghost taken = *self;
        proof {
            assert(cut.list_ok(o));
            assert forall|j: int| 0 <= j < insns@.len() implies taken.has_insn(#[trigger] insns@[j])
                && taken.insn_rec(insns@[j]).parent is None by {
                assert(cut.linked_at(o, j));
                assert(insns@.contains(insns@[j]));
                assert(taken.has_insn(insns@[j]));
            }
            assert(taken.has_block(k));
            assert(taken.order(k) == taken@.blocks[k].insns);
        }
        self.append_all(k, &insns);
        let ghost joined = *self;
        proof {
            assert(joined@.blocks.contains_key(k));
            assert(joined@.blocks.contains_key(o));
            assert(joined.has_block(k));
            assert(joined.has_block(o));
            assert forall|e: EdgeId| #[trigger] joined@.edges.contains_key(e) implies start@.edges.contains_key(e)
                && start@.edges[e] == joined@.edges[e] by {}
            lemma_edge_count(start, joined, k);
            lemma_edge_count(start, joined, o);
        }
        self.rehome_outgoing_edges(keep, other);
        let ghost moved = *self;
        proof {
            assert(moved@.blocks.contains_key(o));
            assert(moved.has_block(o));
            assert(moved@.blocks[o] == (BlockView { insns: Seq::empty(), ..gone }));
            assert(moved.block_rec(o)@ == moved@.blocks[o]);
        }
        let address: Option<u64> = self.blocks.get(o.0).address;
        let extra: Vec<u64> = copy_addresses(&self.blocks.get(o.0).extra_addresses);
        proof {
            assert forall|j: int| 0 <= j < params@.len() implies moved.has_param(
                #[trigger] params@[j],
            ) by {
                assert(start.has_param(start.block_rec(o).params@[j]));
                assert(start@.params.contains_key(params@[j]));
                assert(moved@.params.contains_key(params@[j]));
            }
        }
        self.remove_block_params(&params);
        let ghost plain = *self;
        self.unroster_block(other);
        if let Some(root) = self.root {
            if root == o {
                self.set_root_id(Some(k));
            }
        }
        let ghost loose = *self;
        proof {
            assert(loose@.blocks.contains_key(o));
            assert(loose.has_block(o));
        }
        self.forget_block_name(o);
        let ghost nameless = *self;
        proof {
            assert(nameless@.blocks == moved@.blocks);
            assert(nameless.order(o) == nameless@.blocks[o].insns);
            assert(nameless@.edges == moved@.edges);
            assert(nameless@.edges =~= edges_not_at(nameless@.edges, o)) by {
                assert forall|e: EdgeId| nameless@.edges.contains_key(e) implies nameless@.edges[e].from
                    != o && nameless@.edges[e].to != o by {
                    assert(joined@.edges.contains_key(e));
                    assert(e != edge_ab);
                    assert(start@.edges.contains_key(e));
                    assert(start.has_edge(e));
                }
            }
            crate::block::lemma_filter_contains(start.roster@, o);
        }
        self.drop_block(o);
        let ghost dropped = *self;
        if address.is_some() || extra.len() > 0 {
            self.touch_shape();
        }
        proof {
            assert(self@.blocks == nameless@.blocks.remove(o));
            assert(self@.blocks.contains_key(k));
            assert(self.has_block(k));
        }
        let ghost ticking = *self;
        self.take_over_addresses(k, address, &extra);
        proof {
            assert forall|x: LocalBlockId| #[trigger] start.has_block(x) implies apart.has_block(x)
                && cut.has_block(x) && joined.has_block(x) && moved.has_block(x) && (x != o
                ==> self.has_block(x)) by {
                assert(start@.blocks.contains_key(x));
                assert(apart@.blocks.contains_key(x) && cut@.blocks.contains_key(x));
                assert(joined@.blocks.contains_key(x) && moved@.blocks.contains_key(x));
                assert(x != o ==> self@.blocks.contains_key(x));
            }
            assert(edges_untouched(plain, loose));
            lemma_untouched_trans(moved, plain, loose);
            lemma_untouched_trans(loose, nameless, dropped);
            lemma_untouched_trans(moved, loose, dropped);
            lemma_untouched_trans(moved, dropped, ticking);
            lemma_untouched_trans(moved, ticking, *self);
            lemma_untouched_trans(cut, taken, joined);
            lemma_lists_absorbed(start, apart, cut, joined, moved, *self, k, o, edge_ab);
            let want = absorbed(bound@, k, o, edge_ab);
            assert(bound@.blocks == start@.blocks);
            assert(self@.blocks =~= want.blocks);
            assert(self@.edges =~= want.edges);
            assert(self@ == want);
        }
    }
}

} // verus!
