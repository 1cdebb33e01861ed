//! Splitting, merging and deleting blocks.

use super::bulk::{insns_without, names_without};
use super::cfg::{
    edges_not_at, edges_not_from, edges_rehomed, edges_untouched, lemma_untouched_trans,
    lists_filtered,
};
use super::create::{empty_block, lemma_same_storage, ticked};
use super::order::law_an_instruction_is_in_one_block;
use super::remove::{forgotten, lemma_shrunk, lemma_unused_complete, shrunk};
use super::uses::lemma_uses_frame;
use super::{BlockView, BodyView, FunctionBody, ParamView};
use crate::block::{lemma_filter_same, without};
use crate::body::compose::operands_issued;
use crate::ids::{
    BlockId, BlockParamId, EdgeId, InstructionId, LocalBlockId, LocalInsnId, LocalParamId, UseId,
};
use crate::names::{Name, NamesView};
use crate::value::LocalValueId;
use vstd::prelude::*;

verus! {

/// `names` with what block `b` goes by forgotten: its name or, if it has
/// none, its label.
pub open spec fn block_forgotten(
    names: NamesView<LocalValueId>,
    block: BlockView,
    b: LocalBlockId,
) -> NamesView<LocalValueId> {
    match (block.name, block.address) {
        (Some(n), _) => NamesView { held: names.held.remove(n), ..names },
        (None, Some(a)) => if names.labels.contains_key(a) && names.labels[a]
            == LocalValueId::BasicBlock(b) {
            NamesView { labels: names.labels.remove(a), ..names }
        } else {
            names
        },
        (None, None) => names,
    }
}

/// The parameters that are not in `gone`.
pub open spec fn params_without(
    params: Map<LocalParamId, ParamView>,
    gone: Seq<LocalParamId>,
) -> Map<LocalParamId, ParamView> {
    params.remove_keys(gone.to_set())
}

/// `names` without the names of the parameters `gone`.
pub open spec fn param_names_without(
    names: NamesView<LocalValueId>,
    params: Map<LocalParamId, ParamView>,
    gone: Seq<LocalParamId>,
) -> NamesView<LocalValueId>
    decreases gone.len(),
{
    if gone.len() == 0 {
        names
    } else {
        forgotten(
            param_names_without(names, params, gone.drop_last()),
            params[gone.last()].name,
        )
    }
}

impl FunctionBody {
    /// Forgets what block `b` goes by.
    pub(crate) fn forget_block_name(&mut self, b: LocalBlockId)
        requires
            old(self).wf(),
            old(self).has_block(b),
        ensures
            final(self).wf(),
            old(self).uses_complete() ==> final(self).uses_complete(),
            final(self).uses@.len() <= old(self).uses@.len(),
            *final(self) == (FunctionBody { names: final(self).names, ..*old(self) }),
            final(self)@ == (BodyView {
                names: block_forgotten(old(self)@.names, old(self)@.blocks[b], b),
                ..old(self)@
            }),
    {
        let ghost before = *self;
        let name: Option<Name> = self.blocks.get(b.0).name;
        let address: Option<u64> = self.blocks.get(b.0).address;
        proof {
            assert(before@.blocks.contains_key(b));
            assert(super::name_known(before@, before@.blocks[b].name));
        }
        match name {
            Some(n) => self.names.forget(n),
            None => {
                if let Some(a) = address {
                    if let Some(holder) = self.names.label_holder(a) {
                        if holder == LocalValueId::BasicBlock(b) {
                            self.names.forget_label(a);
                        }
                    }
                }
            },
        }
        proof {
            lemma_same_storage(before, *self);
        }
    }

    /// Drops the payload of block `b`, which has neither code nor edges and is
    /// not rostered, together with its uses.
    pub(crate) fn drop_block(&mut self, b: LocalBlockId)
        requires
            old(self).wf(),
            old(self).has_block(b),
            old(self).order(b).len() == 0,
            old(self)@.edges == edges_not_at(old(self)@.edges, b),
            !old(self).roster@.contains(b),
        ensures
            final(self).wf(),
            old(self).uses_complete() ==> final(self).uses_complete(),
            final(self).uses@.len() <= old(self).uses@.len(),
            final(self)@ == (BodyView { blocks: old(self)@.blocks.remove(b), ..old(self)@ }),
            edges_untouched(*old(self), *final(self)),
    {
        let ghost before = *self;
        let ghost value = LocalValueId::BasicBlock(b);
        self.drop_uses_of(LocalValueId::BasicBlock(b));
        let ghost unused = *self;
        proof {
            lemma_uses_frame(before, unused);
            assert(unused.has_block(b));
            assert(unused.block_rec(b).instructions == before.block_rec(b).instructions);
            assert(unused.block_rec(b).edges == before.block_rec(b).edges);
            assert(before.incident_ok(b));
            let s = before.block_rec(b).edges@;
            if s.len() > 0 {
                assert(s.contains(s[0]));
                assert(before.has_edge(s[0]));
                assert(before@.edges.contains_key(s[0]));
                assert(edges_not_at(before@.edges, b).contains_key(s[0]));
            }
        }
        self.blocks.remove(b.0);
        proof {
            assert forall|x: LocalBlockId| #[trigger] self.has_block(x) <==> unused.has_block(x)
                && x != b by {}
            assert(shrunk(unused, *self));
            lemma_shrunk(unused, *self);
            assert(self@.insns =~= unused@.insns);
            assert(self@.blocks =~= unused@.blocks.remove(b));
            assert forall|x: LocalBlockId|
                before.has_block(x) && self.has_block(x) implies #[trigger] self.block_rec(x).edges
                == before.block_rec(x).edges by {
                assert(unused.has_block(x));
                assert(unused.block_rec(x).edges == before.block_rec(x).edges);
            }
            assert(self@.params =~= unused@.params);
            assert(self@.edges =~= unused@.edges);
            if before.uses_complete() {
                lemma_unused_complete(before, unused, *self, value);
            }
        }
    }

    /// Removes several block parameters.
    pub(crate) fn remove_block_params(&mut self, params: &Vec<LocalParamId>)
        requires
            old(self).wf(),
            old(self).id is Some,
            params@.no_duplicates(),
            forall|k: int| 0 <= k < params@.len() ==> old(self).has_param(#[trigger] params@[k]),
        ensures
            final(self).wf(),
            old(self).uses_complete() ==> final(self).uses_complete(),
            final(self).uses@.len() <= old(self).uses@.len(),
            final(self)@ == (BodyView {
                params: params_without(old(self)@.params, params@),
                names: param_names_without(old(self)@.names, old(self)@.params, params@),
                ..old(self)@
            }),
            edges_untouched(*old(self), *final(self)),
    {
        let ghost start = *self;
        let n: usize = params.len();
        let mut k: usize = 0;
        proof {
            assert(params_without(start@.params, params@.take(0)) =~= start@.params);
            assert(params@.take(0) =~= Seq::<LocalParamId>::empty());
        }
        while k < n
            invariant
                n == params@.len(),
                k <= n,
                params@.no_duplicates(),
                forall|j: int| 0 <= j < params@.len() ==> start.has_param(#[trigger] params@[j]),
                start.id is Some,
                self.wf(),
                start.uses_complete() ==> self.uses_complete(),
                self.uses@.len() <= start.uses@.len(),
                self@ == (BodyView {
                    params: params_without(start@.params, params@.take(k as int)),
                    names: param_names_without(
                        start@.names,
                        start@.params,
                        params@.take(k as int),
                    ),
                    ..start@
                }),
                edges_untouched(start, *self),
            decreases n - k,
        {
            let ghost mid = *self;
            let p: LocalParamId = params[k];
            let ghost t = params@.take(k as int);
            proof {
                assert(start.has_param(params@[k as int]));
                assert(start@.params.contains_key(p));
                assert(!t.contains(p)) by {
                    if t.contains(p) {
                        let j = t.index_of(p);
                        assert(params@[j] == params@[k as int]);
                    }
                }
                assert(self@.params.contains_key(p));
                assert(self.has_param(p));
                assert(self@.id == start@.id);
            }
            let func = self.id();
            self.remove_block_param(BlockParamId::new(func, p));
            proof {
                lemma_untouched_trans(start, mid, *self);
                assert(params@.take(k + 1) =~= t.push(p));
                assert(params@.take(k + 1).drop_last() =~= t);
                assert(self@.params =~= params_without(start@.params, params@.take(k + 1))) by {
                    assert forall|x: LocalParamId| #[trigger] t.push(p).to_set().contains(x)
                        <==> t.to_set().contains(x) || x == p by {
                        super::order::lemma_push_contains(t, p, x);
                    }
                }
            }
            k = k + 1;
        }
        proof {
            assert(params@.take(n as int) =~= params@);
        }
    }
}

/// `body` without block `b`: its edges, its instructions, its parameters and
/// what it goes by go with it; the root is cleared if it was the block; and a
/// change of addresses is counted if it carried any.
pub open spec fn without_block(body: BodyView, b: LocalBlockId) -> BodyView {
    let block = body.blocks[b];
    let gone = Set::new(|raw: u32| block.insns.contains(LocalInsnId(raw)));
    let out = BodyView {
        edges: edges_not_at(body.edges, b),
        insns: insns_without(body.insns, gone),
        params: params_without(body.params, block.params),
        names: block_forgotten(
            param_names_without(
                names_without(body.names, body.insns, gone),
                body.params,
                block.params,
            ),
            block,
            b,
        ),
        roster: without(body.roster, b),
        root: if body.root == Some(b) {
            None
        } else {
            body.root
        },
        blocks: body.blocks.remove(b),
        ..body
    };
    if block.address is Some || block.extra_addresses.len() > 0 {
        ticked(out)
    } else {
        out
    }
}

impl FunctionBody {
    /// Removes `block` from this body: its edges, its instructions, its
    /// parameters (which must be live and all different), its name and its
    /// payload.
    pub fn delete_block(&mut self, block: BlockId)
        requires
            old(self).wf(),
            old(self).id == Some(block.func),
            old(self)@.blocks.contains_key(block.local),
            old(self)@.blocks[block.local].params.no_duplicates(),
            forall|k: int|
                0 <= k < old(self)@.blocks[block.local].params.len()
                    ==> old(self)@.params.contains_key(
                    #[trigger] old(self)@.blocks[block.local].params[k],
                ),
        ensures
            final(self).wf(),
            old(self).uses_complete() ==> final(self).uses_complete(),
            operands_issued(old(self)@) ==> operands_issued(final(self)@),
            final(self).uses@.len() <= old(self).uses@.len(),
            final(self)@ == without_block(old(self)@, block.local),
            lists_filtered(
                *old(self),
                *final(self),
                |e: EdgeId|
                    old(self)@.edges[e].from != block.local && old(self)@.edges[e].to
                        != block.local,
            ),
    {
        let ghost start = *self;
        let b: LocalBlockId = block.local;
        let ghost view = start@.blocks[b];
        self.remove_incident_edges(b);
        let ghost cut = *self;
        proof {
            assert(start@.blocks.contains_key(b));
            assert(cut@.blocks.contains_key(b));
            assert(cut.order(b) == cut@.blocks[b].insns);
        }
        self.clear_block_instructions(block);
        let ghost bare = *self;
        proof {
            assert(cut@.blocks[b] == view);
            assert(edges_not_from(cut@.edges, b) =~= cut@.edges);
            let gone = Set::new(|raw: u32| view.insns.contains(LocalInsnId(raw)));
            assert(Set::new(|raw: u32| cut.order(b).contains(LocalInsnId(raw))) =~= gone);
            assert(bare@.blocks.contains_key(b));
            assert(bare.block_rec(b)@ == bare@.blocks[b]);
        }
        let params: Vec<LocalParamId> = copy_params(&self.blocks.get(b.0).params);
        proof {
            assert(params@ == view.params);
            assert forall|k: int| 0 <= k < params@.len() implies bare.has_param(
                #[trigger] params@[k],
            ) by {
                assert(start.has_param(start.block_rec(b).params@[k]));
                assert(start@.params.contains_key(params@[k]));
                assert(bare@.params.contains_key(params@[k]));
            }
        }
        self.remove_block_params(&params);
        let ghost plain = *self;
        proof {
            assert(plain@.blocks.contains_key(b));
            assert(plain.has_block(b));
        }
        self.unroster_block(block);
        if let Some(root) = self.root {
            if root == b {
                self.set_root_id(None);
            }
        }
        let ghost loose = *self;
        proof {
            assert(loose@.blocks.contains_key(b));
            assert(loose.has_block(b));
            assert(loose@.blocks[b] == (BlockView { insns: Seq::empty(), ..view }));
        }
        self.forget_block_name(b);
        let addressed: bool = self.blocks.get(b.0).address.is_some() || self.blocks.get(
            b.0,
        ).extra_addresses.len() > 0;
        let ghost nameless = *self;
        proof {
            assert(nameless@.blocks[b] == loose@.blocks[b]);
            assert(nameless.order(b) == nameless@.blocks[b].insns);
            assert(nameless@.edges =~= edges_not_at(nameless@.edges, b));
            crate::block::lemma_filter_contains(start.roster@, b);
        }
        self.drop_block(b);
        let ghost dropped = *self;
        if addressed {
            self.touch_shape();
        }
        proof {
            assert(nameless@.blocks.remove(b) =~= start@.blocks.remove(b));
            assert forall|x: LocalBlockId|
                start.has_block(x) && self.has_block(x) implies #[trigger] self.block_rec(x).edges@
                == start.block_rec(x).edges@.filter(
                |e: EdgeId| start@.edges[e].from != b && start@.edges[e].to != b,
            ) by {
                assert(start@.blocks.contains_key(x) && self@.blocks.contains_key(x));
                assert(cut@.blocks.contains_key(x) && bare@.blocks.contains_key(x));
                assert(plain@.blocks.contains_key(x) && nameless@.blocks.contains_key(x));
                let s = cut.block_rec(x).edges@;
                assert(bare.block_rec(x).edges@ == s.filter(
                    |e: EdgeId| cut@.edges[e].from != b,
                ));
                assert(cut.incident_ok(x));
                crate::body::cfg::lemma_filter_everything(
                    s,
                    |e: EdgeId| cut@.edges[e].from != b,
                );
                assert(plain.block_rec(x).edges == bare.block_rec(x).edges);
                assert(nameless.block_rec(x) == plain.block_rec(x));
                assert(dropped@.blocks.contains_key(x));
                assert(dropped.block_rec(x).edges == nameless.block_rec(x).edges);
            }
        }
    }
}

/// A copy of a list of parameters.
pub(crate) fn copy_params(params: &Vec<LocalParamId>) -> (copy: Vec<LocalParamId>)
    ensures
        copy@ == params@,
{
    let n: usize = params.len();
    let mut copy: Vec<LocalParamId> = Vec::new();
    let mut k: usize = 0;
    while k < n
        invariant
            n == params@.len(),
            k <= n,
            copy@ == params@.take(k as int),
        decreases n - k,
    {
        copy.push(params[k]);
        k = k + 1;
        proof {
            assert(copy@ =~= params@.take(k as int));
        }
    }
    proof {
        assert(params@.take(n as int) =~= params@);
    }
    copy
}

/// Changing what a block is called, carries and declares touches nothing that
/// runs through the body.
pub proof fn lemma_block_data(a: FunctionBody, b: FunctionBody, x: LocalBlockId)
    requires
        a.wf(),
        a.has_block(x),
        b == (FunctionBody { blocks: b.blocks, ..a }),
        b.blocks@ == a.blocks@.update(x.0 as int, Some(b.block_rec(x))),
        b.block_rec(x).instructions == a.block_rec(x).instructions,
        b.block_rec(x).edges == a.block_rec(x).edges,
        b.block_rec(x).first_use == a.block_rec(x).first_use,
        super::name_known(a@, b.block_rec(x).name),
    ensures
        b.wf(),
        a.uses_complete() ==> b.uses_complete(),
        b@ == (BodyView { blocks: a@.blocks.insert(x, b.block_rec(x)@), ..a@ }),
        forall|i: LocalInsnId| #[trigger] b.has_insn(i) <==> a.has_insn(i),
{
    assert forall|y: LocalBlockId| #[trigger] b.has_block(y) <==> a.has_block(y) by {}
    assert forall|y: LocalBlockId| a.has_block(y) && y != x implies #[trigger] b.block_rec(y)
        == a.block_rec(y) by {}
    assert(b@.insns =~= a@.insns);
    assert(b@.blocks =~= a@.blocks.insert(x, b.block_rec(x)@));
    assert(b@.params =~= a@.params);
    assert(b@.edges =~= a@.edges);
    assert(super::names_known(b@)) by {
        super::create::lemma_names_known(a@, b@);
    }
    assert forall|y: LocalBlockId| b.has_block(y) implies #[trigger] b.list_ok(y) by {
        assert(a.list_ok(y));
        assert(b.block_rec(y).instructions == a.block_rec(y).instructions);
        assert forall|k: int| 0 <= k < b.order(y).len() implies #[trigger] b.linked_at(y, k) by {
            assert(a.linked_at(y, k));
        }
    }
    assert forall|i: LocalInsnId| b.has_insn(i) implies #[trigger] b.placed_ok(i) by {
        assert(a.placed_ok(i));
        if let Some(y) = a.insn_rec(i).parent {
            assert(b.block_rec(y).instructions == a.block_rec(y).instructions);
        }
    }
    assert(b.cfg_wf()) by {
        assert forall|y: LocalBlockId| b.has_block(y) implies #[trigger] b.incident_ok(y) by {
            assert(a.incident_ok(y));
            assert(b.block_rec(y).edges == a.block_rec(y).edges);
        }
        assert forall|e: EdgeId| b.has_edge(e) implies #[trigger] b.edge_ok(e) by {
            assert(a.edge_ok(e));
            assert(b.block_rec(a.edge_rec(e).from).edges == a.block_rec(a.edge_rec(e).from).edges);
            assert(b.block_rec(a.edge_rec(e).to).edges == a.block_rec(a.edge_rec(e).to).edges);
        }
    }
    assert(b.operands_bounded()) by {
        assert forall|i: LocalInsnId| #[trigger] b.has_insn(i) implies b.operands(i).len()
            <= 0x1_0000 by {
            assert(a.has_insn(i));
        }
    }
    assert(b.roster_wf()) by {
        assert forall|k: int| 0 <= k < b.roster@.len() implies b.has_block(
            #[trigger] b.roster@[k],
        ) by {
            assert(a.has_block(a.roster@[k]));
        }
    }
    assert forall|v: LocalValueId| b.has_home(v) == a.has_home(v) && b.head_of(v) == a.head_of(
        v,
    ) by {
        if let LocalValueId::BasicBlock(y) = v {
            if a.has_block(y) {
                assert(b.block_rec(y).first_use == a.block_rec(y).first_use);
            }
        }
    }
    assert(b.use_lists_wf(None)) by {
        assert forall|v: LocalValueId| #[trigger] b.use_list_ok(v) by {
            assert(a.use_list_ok(v));
            assert forall|k: int| 0 <= k < b.use_list(v).len() implies #[trigger] b.use_linked_at(
                v,
                k,
            ) by {
                assert(a.use_linked_at(v, k));
            }
        }
        assert forall|u: UseId| b.has_use(u) implies #[trigger] b.use_list(
            b.use_rec(u).value,
        ).contains(u) by {
            assert(a.use_list(a.use_rec(u).value).contains(u));
        }
    }
    assert(b.uses_faithful()) by {
        assert forall|u: UseId| b.has_use(u) implies #[trigger] b.use_faithful(u) by {
            assert(a.use_faithful(u));
        }
        assert forall|u: UseId, w: UseId, i: LocalInsnId, k: int| #[trigger]
            b.is_use_of(u, i, k) && #[trigger] b.is_use_of(w, i, k) implies u == w by {
            assert(a.is_use_of(u, i, k) && a.is_use_of(w, i, k));
        }
    }
    if a.uses_complete() {
        assert forall|i: LocalInsnId, k: int|
            b.has_insn(i) && 0 <= k < b.operands(i).len() && b.has_home(
                b.operands(i)[k],
            ) implies #[trigger] b.has_use_of(i, k) by {
            assert(a.has_use_of(i, k));
            let u = choose|u: UseId| #[trigger] a.is_use_of(u, i, k);
            assert(b.is_use_of(u, i, k));
        }
    }
}

/// `body` with block `block` split before position `at`: a new block `tail`
/// takes the instructions from there on and the outgoing edges.
pub open spec fn split_at(
    body: BodyView,
    block: LocalBlockId,
    at: int,
    tail: LocalBlockId,
) -> BodyView {
    let s = body.blocks[block].insns;
    BodyView {
        blocks: body.blocks.insert(tail, BlockView { insns: s.skip(at), ..empty_block() }).insert(
            block,
            BlockView { insns: s.take(at), ..body.blocks[block] },
        ),
        blocks_issued: body.blocks_issued + 1,
        roster: body.roster.push(tail),
        edges: edges_rehomed(body.edges, tail, block),
        ..body
    }
}

impl FunctionBody {
    /// Moves `insn` and everything after it in `block`, the terminator with
    /// it, into a fresh block, and returns that block.
    ///
    /// The original block keeps its identity, its address, its parameters and
    /// its incoming edges, and is left unterminated. The outgoing edges follow
    /// the terminator.
    pub fn split_block_before(&mut self, block: BlockId, insn: InstructionId) -> (tail: BlockId)
        requires
            old(self).wf(),
            old(self).id == Some(block.func),
            old(self).id == Some(insn.func),
            old(self)@.blocks.contains_key(block.local),
            old(self)@.blocks[block.local].insns.contains(insn.local),
            old(self).blocks.has_room(),
            old(self).edge_room(old(self)@.edges_issued as int),
        ensures
            final(self).wf(),
            old(self).uses_complete() && old(self).unmentioned(LocalValueId::BasicBlock(tail.local))
                ==> final(self).uses_complete(),
            operands_issued(old(self)@) ==> old(self).unmentioned(LocalValueId::BasicBlock(tail.local)),
            operands_issued(old(self)@) ==> operands_issued(final(self)@),
            final(self).uses@.len() <= old(self).uses@.len(),
            tail.func == block.func,
            tail.local.0 == old(self)@.blocks_issued,
            !old(self).has_block(tail.local),
            final(self)@ == split_at(
                old(self)@,
                block.local,
                old(self)@.blocks[block.local].insns.index_of(insn.local),
                tail.local,
            ),
            lists_split(*old(self), *final(self), block.local, tail.local),
    {
        let ghost start = *self;
        let ghost b = block.local;
        let ghost s = self.order(b);
        let ghost at = s.index_of(insn.local);
        proof {
            law_an_instruction_is_in_one_block(*self, b, insn.local);
            assert(self.placed_ok(insn.local));
            assert(self.list_ok(b));
        }
        let moved: Vec<LocalInsnId> = self.insns_from(block.local, insn.local);
        let tail: BlockId = self.make_block();
        let ghost grown = *self;
        let ghost t = tail.local;
        proof {
            assert(start@.blocks.contains_key(b));
            assert(b != t);
            assert(grown@.blocks[b] == start@.blocks[b]);
        }
        let n: usize = moved.len();
        let mut k: usize = 0;
        proof {
            assert(s.take(at) + s.skip(at) =~= s);
            assert(s.skip(at).take(0) =~= Seq::<LocalInsnId>::empty());
            assert(halfway(grown@, b, t, s, at, 0).blocks =~= grown@.blocks);
            assert forall|j: int| 0 <= j < s.len() implies grown.has_insn(#[trigger] s[j])
                && grown.insn_rec(s[j]).parent == Some(b) by {
                assert(start.linked_at(b, j));
            }
        }
        while k < n
            invariant
                n == moved@.len(),
                k <= n,
                0 <= at < s.len(),
                moved@ == s.skip(at),
                s.no_duplicates(),
                b != t,
                grown@.blocks.contains_key(b),
                grown@.blocks.contains_key(t),
                t == tail.local,
                self.wf(),
                self.id == grown.id,
                grown.uses_complete() ==> self.uses_complete(),
                self.uses@.len() <= grown.uses@.len(),
                self@ == halfway(grown@, b, t, s, at, k as int),
                forall|x: LocalBlockId|
                    grown.has_block(x) ==> self.has_block(x) && #[trigger] self.block_rec(x).edges
                        == grown.block_rec(x).edges,
                forall|j: int|
                    at + k <= j < s.len() ==> self.has_insn(#[trigger] s[j]) && self.insn_rec(
                        s[j],
                    ).parent == Some(b),
            decreases n - k,
        {
            let local: LocalInsnId = moved[k];
            let ghost mid = *self;
            proof {
                assert(local == s[at + k]);
                assert(mid@.blocks.contains_key(t));
                assert(mid.has_block(t));
            }
            self.link_last(tail.local, local);
            proof {
                let left = s.take(at) + s.skip(at + k);
                assert(mid@.blocks[b].insns == left);
                assert(left[at] == local);
                assert(left.no_duplicates()) by {
                    assert forall|i: int, j: int| 0 <= i < j < left.len() implies left[i]
                        != left[j] by {
                        let i2 = if i < at {
                            i
                        } else {
                            i + k
                        };
                        let j2 = if j < at {
                            j
                        } else {
                            j + k
                        };
                        assert(left[i] == s[i2]);
                        assert(left[j] == s[j2]);
                    }
                }
                crate::block::lemma_remove_is_filter(left, at);
                assert(left.remove(at) =~= s.take(at) + s.skip(at + k + 1));
                assert(s.skip(at).take(k as int).push(local) =~= s.skip(at).take(k + 1));
                assert(self@.blocks =~= halfway(grown@, b, t, s, at, k + 1).blocks);
                assert forall|x: LocalBlockId| grown.has_block(x) implies self.has_block(x)
                    && #[trigger] self.block_rec(x).edges == grown.block_rec(x).edges by {
                    assert(mid.has_block(x));
                    assert(mid.block_rec(x).edges == grown.block_rec(x).edges);
                    assert(self.has_block(x));
                }
                assert forall|j: int| at + k + 1 <= j < s.len() implies self.has_insn(
                    #[trigger] s[j],
                ) && self.insn_rec(s[j]).parent == Some(b) by {
                    assert(mid.has_insn(s[j]));
                    assert(self.has_insn(s[j]));
                    assert(s[j] != local);
                }
            }
            k = k + 1;
        }
        let ghost done = *self;
        proof {
            assert(s.take(at) + s.skip(s.len() as int) =~= s.take(at));
            assert(s.skip(at).take(n as int) =~= s.skip(at));
            assert(grown.has_block(t));
            assert(grown.has_block(b));
            assert(done.block_rec(t).edges == grown.block_rec(t).edges);
            assert(done.block_rec(b).edges == grown.block_rec(b).edges);
            assert(done.has_block(t) && done.has_block(b));
            assert(grown.block_rec(b) == start.block_rec(b));
        }
        self.rehome_outgoing_edges(tail, block);
        proof {
            assert(self@.blocks =~= split_at(start@, b, at, t).blocks);
            assert(start.incident_ok(b));
            let bs = start.block_rec(b).edges@;
            assert(done.block_rec(t).edges@ =~= Seq::<EdgeId>::empty());
            assert forall|e: EdgeId| bs.contains(e) implies #[trigger] start@.edges[e].to != t
                && done@.edges[e] == start@.edges[e] by {
                assert(start.has_edge(e));
                assert(start.edge_ok(e));
            }
            lemma_filter_same(
                bs,
                |e: EdgeId| done@.edges[e].from == b && done@.edges[e].to != t,
                |e: EdgeId| start@.edges[e].from == b,
            );
            lemma_filter_same(
                bs,
                |e: EdgeId| done@.edges[e].from != b || done@.edges[e].to == b,
                |e: EdgeId| start@.edges[e].to == b,
            );
            assert(self.block_rec(t).edges@ =~= bs.filter(|e: EdgeId| start@.edges[e].from == b));
            assert forall|x: LocalBlockId|
                start.has_block(x) && x != b implies #[trigger] self.block_rec(x).edges@
                == start.block_rec(x).edges@ by {
                assert(start@.blocks.contains_key(x));
                assert(grown@.blocks.contains_key(x));
                assert(x != t);
                assert(done.block_rec(x).edges == grown.block_rec(x).edges);
                assert(grown.block_rec(x) == start.block_rec(x));
            }
        }
        tail
    }

    /// The instructions of `block` from `insn` on.
    fn insns_from(&self, block: LocalBlockId, insn: LocalInsnId) -> (ids: Vec<LocalInsnId>)
        requires
            self.wf(),
            self.has_block(block),
            self.order(block).contains(insn),
        ensures
            ids@ == self.order(block).skip(self.order(block).index_of(insn)),
    {
        let ghost s = self.order(block);
        let ghost at = s.index_of(insn);
        let mut ids: Vec<LocalInsnId> = Vec::new();
        let mut next: Option<LocalInsnId> = Some(insn);
        proof {
            assert(self.list_ok(block));
            assert(ids@ =~= s.skip(at).take(0));
        }
        while next.is_some()
            invariant
                self.wf(),
                self.list_ok(block),
                s == self.order(block),
                0 <= at <= at + ids@.len() <= s.len(),
                next == super::item_at(s, at + ids@.len()),
                ids@ == s.skip(at).take(ids@.len() as int),
            decreases s.len() - at - ids@.len(),
        {
            let local: LocalInsnId = next.unwrap();
            let ghost k = ids@.len() as int;
            proof {
                assert(self.linked_at(block, at + k));
            }
            next = self.insns.get(local.0).next;
            ids.push(local);
            proof {
                assert(ids@ =~= s.skip(at).take(k + 1));
            }
        }
        proof {
            assert(s.skip(at).take(s.len() - at) =~= s.skip(at));
        }
        ids
    }
}

/// Whether the blocks list the edges as they do once `block` is split: `tail`
/// lists those that left `block`, and `block` those that enter it, each in the
/// order of `block`.
pub open spec fn lists_split(
    a: FunctionBody,
    b: FunctionBody,
    block: LocalBlockId,
    tail: LocalBlockId,
) -> bool {
    &&& b.block_rec(tail).edges@ == a.block_rec(block).edges@.filter(
        |e: EdgeId| a@.edges[e].from == block,
    )
    &&& b.block_rec(block).edges@ == a.block_rec(block).edges@.filter(
        |e: EdgeId| a@.edges[e].to == block,
    )
    &&& forall|x: LocalBlockId|
        a.has_block(x) && x != block ==> #[trigger] b.block_rec(x).edges@ == a.block_rec(x).edges@
}

/// `body` with the first `k` of the instructions from position `at` of block
/// `b` moved to the end of block `t`.
pub open spec fn halfway(
    body: BodyView,
    b: LocalBlockId,
    t: LocalBlockId,
    s: Seq<LocalInsnId>,
    at: int,
    k: int,
) -> BodyView {
    BodyView {
        blocks: body.blocks.insert(
            b,
            BlockView { insns: s.take(at) + s.skip(at + k), ..body.blocks[b] },
        ).insert(t, BlockView { insns: s.skip(at).take(k), ..body.blocks[t] }),
        ..body
    }
}

} // verus!
